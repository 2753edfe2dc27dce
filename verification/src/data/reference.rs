//! Reference-data types and the lookup trait the views read through.
//!
//! Element and work-suitability values use the game's internal enum names;
//! [`crate::data::extract::ReferenceIndex`] resolves their localized labels.
//! [`PassthroughReferenceData`] answers `None` to every lookup, so callers
//! supply raw-id fallbacks.

use vstd::prelude::*;

use crate::assoc::StrMap;
use crate::data::uasset::strings_v;
use crate::text::push_char;

verus! {

/// A Pal species' base stats as `DT_PalMonsterParameter` stores them: the
/// per-species multipliers the game combines with level, IVs and souls.
#[derive(Debug, Clone, Copy, PartialEq, Eq, Structural)]
pub struct BaseStats {
    pub hp: u32,
    pub melee_attack: u32,
    pub shot_attack: u32,
    pub defense: u32,
    pub support: u32,
    pub craft_speed: u32,
}

impl Default for BaseStats {
    fn default() -> (r: Self)
        ensures
            r == (BaseStats { hp: 0, melee_attack: 0, shot_attack: 0, defense: 0, support: 0, craft_speed: 0 }),
    {
        BaseStats { hp: 0, melee_attack: 0, shot_attack: 0, defense: 0, support: 0, craft_speed: 0 }
    }
}

/// A Pal species' static reference data.
#[derive(Debug)]
pub struct Species {
    pub character_id: String,
    pub display_name: String,
    /// Paldeck number; `None` for tower bosses, raid and collab content and
    /// unused entries, which the game leaves unnumbered.
    pub dex_number: Option<u32>,
    /// Variant marker shown after the number, e.g. the `B` in `005B`.
    pub dex_suffix: String,
    /// Element types in the game's order, the `None` slot omitted.
    pub elements: Vec<String>,
    /// Rarity tier as authored.
    pub rarity: u32,
    pub stats: BaseStats,
    /// Work suitability levels above zero, keyed by the game's suitability
    /// name (`Handcraft`, `Mining`, …).
    pub work_suitabilities: StrMap<u32>,
}

/// [`Species`] as values.
pub struct SpeciesV {
    pub character_id: Seq<char>,
    pub display_name: Seq<char>,
    pub dex_number: Option<u32>,
    pub dex_suffix: Seq<char>,
    pub elements: Seq<Seq<char>>,
    pub rarity: u32,
    pub stats: BaseStats,
    pub work_suitabilities: Map<Seq<char>, u32>,
}

impl View for Species {
    type V = SpeciesV;

    open spec fn view(&self) -> SpeciesV {
        SpeciesV {
            character_id: self.character_id@,
            display_name: self.display_name@,
            dex_number: self.dex_number,
            dex_suffix: self.dex_suffix@,
            elements: strings_v(self.elements@),
            rarity: self.rarity,
            stats: self.stats,
            work_suitabilities: self.work_suitabilities@,
        }
    }
}

impl Default for Species {
    fn default() -> (r: Self)
        ensures
            r.character_id@ == Seq::<char>::empty(),
            r.display_name@ == Seq::<char>::empty(),
            r.dex_number is None,
            r.dex_suffix@ == Seq::<char>::empty(),
            r.elements@ == Seq::<String>::empty(),
            r.rarity == 0,
            r.stats == (BaseStats { hp: 0, melee_attack: 0, shot_attack: 0, defense: 0, support: 0, craft_speed: 0 }),
            r.work_suitabilities@ == Map::<Seq<char>, u32>::empty(),
    {
        Species {
            character_id: String::new(),
            display_name: String::new(),
            dex_number: None,
            dex_suffix: String::new(),
            elements: Vec::new(),
            rarity: 0,
            stats: BaseStats::default(),
            work_suitabilities: StrMap::new(),
        }
    }
}

/// The decimal digit `d`.
pub open spec fn digit(d: int) -> char {
    (48 + d) as char
}

/// The decimal representation of `n`, without leading zeros.
pub open spec fn decimal(n: nat) -> Seq<char>
    decreases n,
{
    if n < 10 {
        seq![digit(n as int)]
    } else {
        decimal(n / 10).push(digit((n % 10) as int))
    }
}

/// `s` left-padded with zeros to three characters.
pub open spec fn zero_pad3(s: Seq<char>) -> Seq<char> {
    if s.len() >= 3 {
        s
    } else {
        Seq::new((3 - s.len()) as nat, |i: int| '0') + s
    }
}

/// The Paldeck label for number `n` and suffix `suffix`, e.g. `005B`.
pub open spec fn dex_label_of(n: u32, suffix: Seq<char>) -> Seq<char> {
    zero_pad3(decimal(n as nat)) + suffix
}

/// The decimal digits of `n`.
pub fn decimal_digits(n: u64) -> (v: Vec<char>)
    ensures
        v@ == decimal(n as nat),
    decreases n,
{
    let d = (48u8 + (n % 10) as u8) as char;
    if n < 10 {
        let v = vec![d];
        assert(v@ =~= seq![digit(n as int)]);
        v
    } else {
        let mut v = decimal_digits(n / 10);
        v.push(d);
        v
    }
}

impl Species {
    /// The Paldeck label as the game shows it, e.g. `005B`, or `None` for a
    /// species with no Paldeck entry.
    pub fn dex_label(&self) -> (r: Option<String>)
        ensures
            match self.dex_number {
                Some(n) => r matches Some(s) && s@ == dex_label_of(n, self.dex_suffix@),
                None => r is None,
            },
    {
        match self.dex_number {
            None => None,
            Some(n) => {
                let digits = decimal_digits(n as u64);
                let mut s = String::new();
                let mut pad = digits.len();
                while pad < 3
                    invariant
                        digits.len() <= pad <= 3 || (digits.len() >= 3 && pad == digits.len()),
                        s@ =~= Seq::new((pad - digits.len()) as nat, |i: int| '0'),
                    decreases 3 - pad,
                {
                    push_char(&mut s, '0');
                    pad += 1;
                }
                let mut i: usize = 0;
                let ghost padding = s@;
                while i < digits.len()
                    invariant
                        i <= digits@.len(),
                        s@ =~= padding + digits@.take(i as int),
                    decreases digits@.len() - i,
                {
                    push_char(&mut s, digits[i]);
                    i += 1;
                }
                let suffix = crate::text::chars_of(self.dex_suffix.as_str());
                let mut j: usize = 0;
                let ghost body = s@;
                while j < suffix.len()
                    invariant
                        j <= suffix@.len(),
                        s@ =~= body + suffix@.take(j as int),
                    decreases suffix@.len() - j,
                {
                    push_char(&mut s, suffix[j]);
                    j += 1;
                }
                proof {
                    assert(digits@.take(digits@.len() as int) =~= digits@);
                    assert(suffix@.take(suffix@.len() as int) =~= suffix@);
                    if digits@.len() >= 3 {
                        assert(padding =~= Seq::<char>::empty());
                    }
                    assert(body =~= zero_pad3(decimal(n as nat)));
                }
                Some(s)
            },
        }
    }
}

/// A passive skill's id and display name.
#[derive(Debug, Clone, PartialEq)]
pub struct PassiveSkill {
    pub id: String,
    pub display_name: String,
}

/// [`PassiveSkill`] as values.
pub struct PassiveSkillV {
    pub id: Seq<char>,
    pub display_name: Seq<char>,
}

impl View for PassiveSkill {
    type V = PassiveSkillV;

    open spec fn view(&self) -> PassiveSkillV {
        PassiveSkillV { id: self.id@, display_name: self.display_name@ }
    }
}

/// Lookups of reference data by the ids a save stores.
pub trait ReferenceData {
    fn species(&self, character_id: &str) -> Option<&Species>;

    fn passive(&self, id: &str) -> Option<&PassiveSkill>;

    fn breeding_result(&self, a: &str, b: &str) -> Option<&str>;

    /// The pak entry holding this species' icon, without its extension.
    fn icon_path(&self, character_id: &str) -> Option<&str>;
}

/// Reference data with nothing in it: every lookup answers `None`.
#[derive(Debug, Default)]
pub struct PassthroughReferenceData;

impl ReferenceData for PassthroughReferenceData {
    fn species(&self, character_id: &str) -> (r: Option<&Species>)
        ensures
            r is None,
    {
        None
    }

    fn passive(&self, id: &str) -> (r: Option<&PassiveSkill>)
        ensures
            r is None,
    {
        None
    }

    fn breeding_result(&self, a: &str, b: &str) -> (r: Option<&str>)
        ensures
            r is None,
    {
        None
    }

    fn icon_path(&self, character_id: &str) -> (r: Option<&str>)
        ensures
            r is None,
    {
        None
    }
}

} // verus!
