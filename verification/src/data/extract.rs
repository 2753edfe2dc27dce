//! The reference index extracted from the user's own installed pak: species
//! names and parameters, skill, technology, item and map-object names, icon
//! paths and the breeding rules, all keyed the way saves name them.

use vstd::prelude::*;
use vstd::string::StringExecFns;
use vstd::string::StringSliceAdditionalSpecFns;

use crate::assoc::{StrMap, StrSet};
use crate::assoc::as_map;
use crate::data::breeding::{
    child_spec, pool_after, sorted_pool, tribe_pair_spec, unbred, BreedingIndex, BreedingIndexV, ParentV,
    SpeciesRow, RANK_SENTINEL,
};
use crate::data::datatable::{rows_v, Row, RowV};
use crate::data::reference::{BaseStats, PassiveSkill, PassiveSkillV, ReferenceData, Species, SpeciesV};
use crate::data::unversioned::{bool_of, i32_of, str_of, Properties, ValueV};
use crate::data::text_table::{entries_v, TextEntry, TextEntryV};
use crate::data::datatable::{datatable_at, DataTableError};
use crate::data::messages::{datatable_message, debug_quoted, debug_str, uasset_message, usmap_message};
use crate::data::text_table::{encoded_fstring, text_rows};
use crate::data::uasset::{parse_summary, strings_v, summary_at, UassetError};
use crate::data::usmap::{usmap_at, Usmap, UsmapV};
use crate::text::{
    ascii_lowercase, chars_of, starts_with, string_of, strip_prefix, to_ascii_lower,
    to_ascii_lowercase,
};

verus! {

/// The variant prefix a save may put on a `CharacterID`, if `lower` (already
/// lower-cased) starts with one: `boss_`, then `predator_`.
pub open spec fn variant_prefix_len(lower: Seq<char>) -> int {
    if starts_with(lower, "boss_"@) {
        5
    } else if starts_with(lower, "predator_"@) {
        9
    } else {
        0
    }
}

/// The lookup key for a `CharacterID`: lower-cased, then with a `boss_` or
/// `predator_` variant prefix removed.
pub open spec fn normalized(id: Seq<char>) -> Seq<char> {
    let lower = ascii_lowercase(id);
    lower.skip(variant_prefix_len(lower))
}

/// Normalize a `CharacterID` into the lookup key every map here uses.
///
/// Unreal `FName`s are case-insensitive and the game is inconsistent about
/// case (`Sheepball` in the save, `SheepBall` in the text table; `Boss_`
/// beside `BOSS_`), and alpha and predator variants resolve to their base
/// species.
pub fn normalize_key(character_id: &str) -> (r: String)
    ensures
        r@ == normalized(character_id@),
{
    let cs = chars_of(character_id);
    let mut lower: Vec<char> = Vec::with_capacity(cs.len());
    let mut i: usize = 0;
    while i < cs.len()
        invariant
            cs@ == character_id@,
            i <= cs@.len(),
            lower@ =~= ascii_lowercase(cs@).take(i as int),
        decreases cs@.len() - i,
    {
        lower.push(to_ascii_lower(cs[i]));
        i += 1;
    }
    proof {
        assert(ascii_lowercase(cs@).take(cs@.len() as int) =~= ascii_lowercase(cs@));
    }
    let skip = match strip_prefix(lower.as_slice(), "boss_") {
        Some(n) => n,
        None => match strip_prefix(lower.as_slice(), "predator_") {
            Some(n) => n,
            None => 0,
        },
    };
    proof {
        reveal_strlit("boss_");
        reveal_strlit("predator_");
    }
    string_of(lower.as_slice(), skip, lower.len())
}

/// How many of `entries` have a Paldeck number.
pub open spec fn numbered(entries: Seq<(Seq<char>, Species)>) -> nat
    decreases entries.len(),
{
    if entries.len() == 0 {
        0
    } else {
        numbered(entries.drop_last()) + if entries.last().1.dex_number is Some { 1nat } else { 0nat }
    }
}

/// The view of an optional string.
pub open spec fn opt_str(o: Option<&str>) -> Option<Seq<char>> {
    match o {
        Some(s) => Some(s@),
        None => None,
    }
}

/// The text-table key prefix of passive skills; saves store the bare id.
pub open spec fn passive_prefix() -> Seq<char> {
    "PASSIVE_"@
}

/// The game's source language, whose text tables sit outside `L10N/`.
pub const SOURCE_LANGUAGE: &'static str = "ja";

/// Where a language's text tables live in the pak.
pub open spec fn text_root_of(language: Seq<char>) -> Seq<char> {
    if language == SOURCE_LANGUAGE@ {
        "Pal/Content/Pal/DataTable/Text"@
    } else {
        "Pal/Content/L10N/"@ + language + "/Pal/DataTable/Text"@
    }
}

/// The pak directory holding `language`'s text tables: the base content
/// path for the source language, `L10N/<language>/` for every other.
pub fn text_root(language: &str) -> (r: String)
    ensures
        r@ == text_root_of(language@),
{
    if crate::text::str_eq(language, SOURCE_LANGUAGE) {
        String::from_str("Pal/Content/Pal/DataTable/Text")
    } else {
        let mut s = String::from_str("Pal/Content/L10N/");
        s.append(language);
        s.append("/Pal/DataTable/Text");
        s
    }
}

/// Each species in `m` is filed under the lookup key of its own id.
pub open spec fn keyed_by_id(m: Map<Seq<char>, Species>) -> bool {
    forall|k: Seq<char>| #[trigger] m.contains_key(k) ==> normalized(m[k].character_id@) == k
}

/// Key prefix of species names in `DT_PalNameText_Common`.
pub const PAL_NAME_PREFIX: &'static str = "PAL_NAME_";

/// Key prefix of technology names in `DT_TechnologyNameText_Common`.
pub const TECH_NAME_PREFIX: &'static str = "NAME_RECIPE_";

/// Key prefix of item names in `DT_ItemNameText_Common`.
pub const ITEM_NAME_PREFIX: &'static str = "ITEM_NAME_";

/// Key prefix of buildable structure names in `DT_MapObjectNameText_Common`.
pub const MAP_OBJECT_NAME_PREFIX: &'static str = "MAPOBJECT_NAME_";

/// Key prefix of element labels in the UI string table.
pub const ELEMENT_NAME_PREFIX: &'static str = "COMMON_ELEMENT_NAME_";

/// Key prefix of work suitability labels in the UI string table.
pub const WORK_SUITABILITY_NAME_PREFIX: &'static str = "COMMON_WORK_SUITABILITY_";

/// Where Pal icon textures live in the pak.
pub const ICON_DIR: &'static str = "Pal/Content/Pal/Texture/PalIcon/Normal/";

/// Icon entry names start with this...
pub const ICON_PREFIX: &'static str = "T_";

/// ...and end with this, before the extension.
pub const ICON_SUFFIX: &'static str = "_icon_normal";

/// Strings seen as characters, in a map.
pub open spec fn strs_v(m: Map<Seq<char>, String>) -> Map<Seq<char>, Seq<char>> {
    m.map_values(|s: String| s@)
}

/// Species seen as values, in a map.
pub open spec fn species_v(m: Map<Seq<char>, Species>) -> Map<Seq<char>, SpeciesV> {
    m.map_values(|s: Species| s@)
}

/// Passive skills seen as values, in a map.
pub open spec fn passives_v(m: Map<Seq<char>, PassiveSkill>) -> Map<Seq<char>, PassiveSkillV> {
    m.map_values(|p: PassiveSkill| p@)
}

/// `m` with the text of every entry keyed `prefix` + id added under the
/// lower-cased id, in table order; entries without text add nothing.
pub open spec fn named_in(m: Map<Seq<char>, Seq<char>>, es: Seq<TextEntryV>, prefix: Seq<char>) -> Map<
    Seq<char>,
    Seq<char>,
>
    decreases es.len(),
{
    if es.len() == 0 {
        m
    } else {
        let m2 = named_in(m, es.drop_last(), prefix);
        let e = es.last();
        if starts_with(e.key, prefix) && e.text is Some {
            m2.insert(ascii_lowercase(e.key.skip(prefix.len() as int)), e.text->Some_0)
        } else {
            m2
        }
    }
}

/// A species known only by its name row.
pub open spec fn named_species(id: Seq<char>, display: Seq<char>) -> SpeciesV {
    SpeciesV {
        character_id: id,
        display_name: display,
        dex_number: None,
        dex_suffix: Seq::empty(),
        elements: Seq::empty(),
        rarity: 0,
        stats: crate::data::reference::BaseStats {
            hp: 0,
            melee_attack: 0,
            shot_attack: 0,
            defense: 0,
            support: 0,
            craft_speed: 0,
        },
        work_suitabilities: Map::empty(),
    }
}

/// `m` with a species for every `PAL_NAME_` row, keyed by its normalized id
/// and named by its text, or by the id itself when the row has none.
pub open spec fn species_named_in(m: Map<Seq<char>, SpeciesV>, es: Seq<TextEntryV>) -> Map<Seq<char>, SpeciesV>
    decreases es.len(),
{
    if es.len() == 0 {
        m
    } else {
        let m2 = species_named_in(m, es.drop_last());
        let e = es.last();
        if starts_with(e.key, PAL_NAME_PREFIX@) {
            let id = e.key.skip(PAL_NAME_PREFIX@.len() as int);
            m2.insert(
                normalized(id),
                named_species(
                    id,
                    match e.text {
                        Some(t) => t,
                        None => id,
                    },
                ),
            )
        } else {
            m2
        }
    }
}

/// `m` with a passive skill for every skill-name row, keyed and identified
/// by the row key and named by its text, or by the key when it has none.
pub open spec fn passives_named_in(m: Map<Seq<char>, PassiveSkillV>, es: Seq<TextEntryV>) -> Map<
    Seq<char>,
    PassiveSkillV,
>
    decreases es.len(),
{
    if es.len() == 0 {
        m
    } else {
        let m2 = passives_named_in(m, es.drop_last());
        let e = es.last();
        m2.insert(
            e.key,
            PassiveSkillV {
                id: e.key,
                display_name: match e.text {
                    Some(t) => t,
                    None => e.key,
                },
            },
        )
    }
}

/// The element labels, work suitability labels and work suitability order
/// after reading the UI string table `es`: rows without text are skipped, and
/// work rows with an empty id are sub-categories with no label of their own.
pub open spec fn ui_in(
    el: Map<Seq<char>, Seq<char>>,
    wn: Map<Seq<char>, Seq<char>>,
    order: Seq<Seq<char>>,
    es: Seq<TextEntryV>,
) -> (Map<Seq<char>, Seq<char>>, Map<Seq<char>, Seq<char>>, Seq<Seq<char>>)
    decreases es.len(),
{
    if es.len() == 0 {
        (el, wn, order)
    } else {
        let prev = ui_in(el, wn, order, es.drop_last());
        let e = es.last();
        match e.text {
            None => prev,
            Some(t) => if starts_with(e.key, ELEMENT_NAME_PREFIX@) {
                (prev.0.insert(ascii_lowercase(e.key.skip(ELEMENT_NAME_PREFIX@.len() as int)), t), prev.1, prev.2)
            } else if starts_with(e.key, WORK_SUITABILITY_NAME_PREFIX@) {
                let id = e.key.skip(WORK_SUITABILITY_NAME_PREFIX@.len() as int);
                if id.len() == 0 {
                    prev
                } else {
                    (prev.0, prev.1.insert(ascii_lowercase(id), t), prev.2.push(id))
                }
            } else {
                prev
            },
        }
    }
}

/// `s` ends with `suffix`.
pub open spec fn ends_in(s: Seq<char>, suffix: Seq<char>) -> bool {
    s.len() >= suffix.len() && s.skip(s.len() - suffix.len()) == suffix
}

/// The species key and icon entry (without extension) a pak path names, if
/// it is a species icon: `ICON_DIR` + `T_` + id + `_icon_normal` (any case)
/// + `.uasset`.
pub open spec fn icon_entry(path: Seq<char>) -> Option<(Seq<char>, Seq<char>)> {
    if !starts_with(path, ICON_DIR@) || !ends_in(path.skip(ICON_DIR@.len() as int), ".uasset"@) {
        None
    } else {
        let stem = path.subrange(ICON_DIR@.len() as int, path.len() - 7);
        if !starts_with(stem, ICON_PREFIX@) || stem.len() - 2 <= ICON_SUFFIX@.len() {
            None
        } else {
            let r2 = stem.skip(2);
            let cut = r2.len() - ICON_SUFFIX@.len();
            if ascii_lowercase(r2.skip(cut)) != ascii_lowercase(ICON_SUFFIX@) {
                None
            } else {
                Some((normalized(r2.take(cut)), path.take(path.len() - 7)))
            }
        }
    }
}

/// `m` with every species icon among `files` added, in order.
pub open spec fn icons_in(m: Map<Seq<char>, Seq<char>>, files: Seq<Seq<char>>) -> Map<Seq<char>, Seq<char>>
    decreases files.len(),
{
    if files.len() == 0 {
        m
    } else {
        let m2 = icons_in(m, files.drop_last());
        match icon_entry(files.last()) {
            Some((k, v)) => m2.insert(k, v),
            None => m2,
        }
    }
}

/// Each name normalized to its lookup key.
pub open spec fn normalized_all(names: Seq<Seq<char>>) -> Seq<Seq<char>> {
    names.map_values(|n: Seq<char>| normalized(n))
}

/// The lookup keys of a package's name table.
pub open spec fn keys_of_names(names: Seq<Seq<char>>) -> Set<Seq<char>> {
    normalized_all(names).to_set()
}

/// Property-name prefix of the per-job work suitability levels.
pub const WORK_SUITABILITY_PREFIX: &'static str = "WorkSuitability_";

/// The element entry the game stores in the empty second slot.
pub const NO_ELEMENT: &'static str = "None";

/// A row property by name.
pub open spec fn prop_of(ps: Seq<(Seq<char>, ValueV)>, k: Seq<char>) -> Option<ValueV> {
    if as_map(ps).contains_key(k) {
        Some(as_map(ps)[k])
    } else {
        None
    }
}

/// A row property as an `i32`.
pub open spec fn int_prop(ps: Seq<(Seq<char>, ValueV)>, k: Seq<char>) -> Option<i32> {
    match prop_of(ps, k) {
        Some(v) => i32_of(v),
        None => None,
    }
}

/// A row property as a string.
pub open spec fn str_prop(ps: Seq<(Seq<char>, ValueV)>, k: Seq<char>) -> Option<Seq<char>> {
    match prop_of(ps, k) {
        Some(v) => str_of(v),
        None => None,
    }
}

/// A row property as a boolean.
pub open spec fn bool_prop(ps: Seq<(Seq<char>, ValueV)>, k: Seq<char>) -> Option<bool> {
    match prop_of(ps, k) {
        Some(v) => bool_of(v),
        None => None,
    }
}

/// A row property as a count: absent or negative reads as zero.
pub open spec fn count_prop(ps: Seq<(Seq<char>, ValueV)>, k: Seq<char>) -> u32 {
    match int_prop(ps, k) {
        Some(n) => if n > 0 {
            n as u32
        } else {
            0
        },
        None => 0,
    }
}

/// The element an element slot names, unless it is empty or `None`.
pub open spec fn element_prop(ps: Seq<(Seq<char>, ValueV)>, k: Seq<char>) -> Seq<Seq<char>> {
    match str_prop(ps, k) {
        Some(e) => if e.len() > 0 && e != NO_ELEMENT@ {
            seq![e]
        } else {
            Seq::empty()
        },
        None => Seq::empty(),
    }
}

/// Work suitability levels above zero, by job, from the row's
/// `WorkSuitability_` properties; a later property of the same name wins.
pub open spec fn works_in(m: Map<Seq<char>, u32>, ps: Seq<(Seq<char>, ValueV)>) -> Map<Seq<char>, u32>
    decreases ps.len(),
{
    if ps.len() == 0 {
        m
    } else {
        let m2 = works_in(m, ps.drop_last());
        let k = ps.last().0;
        if starts_with(k, WORK_SUITABILITY_PREFIX@) {
            let job = k.skip(WORK_SUITABILITY_PREFIX@.len() as int);
            match i32_of(ps.last().1) {
                Some(l) => if l > 0 {
                    m2.insert(job, l as u32)
                } else {
                    m2.remove(job)
                },
                None => m2.remove(job),
            }
        } else {
            m2
        }
    }
}

/// A species with one `DT_PalMonsterParameter` row copied onto it. A
/// `ZukanIndex` of zero or below means the species is outside the Paldeck.
pub open spec fn with_row(s: SpeciesV, ps: Seq<(Seq<char>, ValueV)>) -> SpeciesV {
    SpeciesV {
        character_id: s.character_id,
        display_name: s.display_name,
        dex_number: match int_prop(ps, "ZukanIndex"@) {
            Some(n) => if n > 0 {
                Some(n as u32)
            } else {
                None
            },
            None => None,
        },
        dex_suffix: match str_prop(ps, "ZukanIndexSuffix"@) {
            Some(t) => t,
            None => Seq::empty(),
        },
        elements: element_prop(ps, "ElementType1"@) + element_prop(ps, "ElementType2"@),
        rarity: count_prop(ps, "Rarity"@),
        stats: BaseStats {
            hp: count_prop(ps, "Hp"@),
            melee_attack: count_prop(ps, "MeleeAttack"@),
            shot_attack: count_prop(ps, "ShotAttack"@),
            defense: count_prop(ps, "Defense"@),
            support: count_prop(ps, "Support"@),
            craft_speed: count_prop(ps, "CraftSpeed"@),
        },
        work_suitabilities: works_in(Map::empty(), ps),
    }
}

/// A parameter row's stats land in the fields of the same name: each of
/// `Hp`, `MeleeAttack`, `ShotAttack`, `Defense`, `Support` and `CraftSpeed`
/// held as an integer gives that stat, negative values counting as 0.
pub proof fn lemma_row_stats(s: SpeciesV, ps: Seq<(Seq<char>, ValueV)>, n: i64)
    ensures
        ({
            let m = as_map(ps);
            let st = with_row(s, ps).stats;
            let clamped = if n > 0 && n <= i32::MAX { n as u32 } else { 0u32 };
            &&& m.contains_key("Hp"@) && m["Hp"@] == ValueV::Int(n) && n >= i32::MIN ==> st.hp == clamped
            &&& m.contains_key("MeleeAttack"@) && m["MeleeAttack"@] == ValueV::Int(n) && n >= i32::MIN
                ==> st.melee_attack == clamped
            &&& m.contains_key("ShotAttack"@) && m["ShotAttack"@] == ValueV::Int(n) && n >= i32::MIN
                ==> st.shot_attack == clamped
            &&& m.contains_key("Defense"@) && m["Defense"@] == ValueV::Int(n) && n >= i32::MIN ==> st.defense
                == clamped
            &&& m.contains_key("Support"@) && m["Support"@] == ValueV::Int(n) && n >= i32::MIN ==> st.support
                == clamped
            &&& m.contains_key("CraftSpeed"@) && m["CraftSpeed"@] == ValueV::Int(n) && n >= i32::MIN
                ==> st.craft_speed == clamped
        }),
{
}

/// How well a row represents the species it normalizes onto: naming the
/// species outright counts 2, carrying a Paldeck number 1.
pub open spec fn rank_of_row(name: Seq<char>, key: Seq<char>, ps: Seq<(Seq<char>, ValueV)>) -> u8 {
    ((if ascii_lowercase(name) == ascii_lowercase(key) {
        2int
    } else {
        0int
    }) + (if int_prop(ps, "ZukanIndex"@) matches Some(n) && n > 0 {
        1int
    } else {
        0int
    })) as u8
}

/// The breeding index after one parameter row is added as a parent.
pub open spec fn species_row_effect(b: BreedingIndexV, key: Seq<char>, id: Seq<char>, ps: Seq<(Seq<char>, ValueV)>) -> BreedingIndexV {
    let tribe = match str_prop(ps, "Tribe"@) {
        Some(t) => t,
        None => Seq::empty(),
    };
    let rank = count_prop(ps, "CombiRank"@);
    let is_pal = bool_prop(ps, "IsPal"@) == Some(true);
    let ignore = bool_prop(ps, "IgnoreCombi"@) == Some(true);
    if tribe.len() == 0 || rank == 0 || rank >= RANK_SENTINEL {
        b
    } else {
        BreedingIndexV {
            parents: b.parents.insert(key, ParentV { tribe, rank }),
            unique: b.unique,
            pool: if is_pal && !ignore {
                pool_after(b.pool, tribe, id, rank, count_prop(ps, "ZukanIndex"@))
            } else {
                b.pool
            },
            ignored: if !is_pal || ignore {
                b.ignored.push((key, id))
            } else {
                b.ignored
            },
        }
    }
}

/// The index and best-rank table after the parameter rows `rows`: every row
/// becomes a breeding parent, and a row at least as good as the best so far
/// for a named species is copied onto it.
pub open spec fn params_in(idx: ReferenceIndexV, best: Map<Seq<char>, u8>, rows: Seq<RowV>) -> (
    ReferenceIndexV,
    Map<Seq<char>, u8>,
)
    decreases rows.len(),
{
    if rows.len() == 0 {
        (idx, best)
    } else {
        let prev = params_in(idx, best, rows.drop_last());
        let r = rows.last();
        let key = normalized(r.name);
        let ps = r.properties;
        let i3 = ReferenceIndexV { breeding: species_row_effect(prev.0.breeding, key, r.name, ps), ..prev.0 };
        let b2 = prev.1;
        if i3.species.contains_key(key) {
            let rank = rank_of_row(r.name, key, ps);
            let before = if b2.contains_key(key) {
                b2[key]
            } else {
                0u8
            };
            if rank >= before {
                (
                    ReferenceIndexV { species: i3.species.insert(key, with_row(i3.species[key], ps)), ..i3 },
                    b2.insert(key, rank),
                )
            } else {
                (i3, b2)
            }
        } else {
            (i3, b2)
        }
    }
}

/// The breeding index after one `DT_PalCombiUnique` row.
pub open spec fn unique_row_effect(b: BreedingIndexV, ps: Seq<(Seq<char>, ValueV)>) -> BreedingIndexV {
    let a = match str_prop(ps, "ParentTribeA"@) {
        Some(t) => t,
        None => Seq::empty(),
    };
    let c = match str_prop(ps, "ParentTribeB"@) {
        Some(t) => t,
        None => Seq::empty(),
    };
    let child = match str_prop(ps, "ChildCharacterID"@) {
        Some(t) => t,
        None => Seq::empty(),
    };
    if a.len() == 0 || c.len() == 0 || child.len() == 0 {
        b
    } else {
        BreedingIndexV { unique: b.unique.insert(tribe_pair_spec(a, c), child), ..b }
    }
}

/// The breeding index after the unique-combo rows `rows`.
pub open spec fn uniques_in(b: BreedingIndexV, rows: Seq<RowV>) -> BreedingIndexV
    decreases rows.len(),
{
    if rows.len() == 0 {
        b
    } else {
        unique_row_effect(uniques_in(b, rows.drop_last()), rows.last().properties)
    }
}

fn int_of_prop(props: &Properties, k: &str) -> (r: Option<i32>)
    ensures
        r == int_prop(props.pairs(), k@),
{
    match props.get(k) {
        Some(v) => v.as_i32(),
        None => None,
    }
}

fn str_of_prop<'a>(props: &'a Properties, k: &str) -> (r: &'a str)
    ensures
        r@ == match str_prop(props.pairs(), k@) {
            Some(t) => t,
            None => Seq::<char>::empty(),
        },
{
    match props.get(k) {
        Some(v) => match v.as_str() {
            Some(t) => t,
            None => {
                proof {
                    reveal_strlit("");
                }
                ""
            },
        },
        None => {
            proof {
                reveal_strlit("");
            }
            ""
        },
    }
}

fn flag_of_prop(props: &Properties, k: &str) -> (r: bool)
    ensures
        r == (bool_prop(props.pairs(), k@) == Some(true)),
{
    match props.get(k) {
        Some(v) => match v.as_bool() {
            Some(b) => b,
            None => false,
        },
        None => false,
    }
}

fn count_of_prop(props: &Properties, k: &str) -> (r: u32)
    ensures
        r == count_prop(props.pairs(), k@),
{
    match int_of_prop(props, k) {
        Some(n) => if n > 0 {
            n as u32
        } else {
            0
        },
        None => 0,
    }
}

/// The element an element slot names, unless it is empty or `None`.
fn push_element(elements: &mut Vec<String>, props: &Properties, k: &str)
    ensures
        strings_v(final(elements)@) == strings_v(old(elements)@) + element_prop(props.pairs(), k@),
{
    proof {
        reveal_strlit("None");
    }
    match props.get(k) {
        Some(v) => match v.as_str() {
            Some(e) => {
                if e.unicode_len() > 0 && !crate::text::str_eq(e, NO_ELEMENT) {
                    let owned = e.to_owned();
                    proof {
                        assert(strings_v(elements@.push(owned)) =~= strings_v(elements@) + seq![e@]);
                    }
                    elements.push(owned);
                } else {
                    proof {
                        assert(strings_v(elements@) + Seq::<Seq<char>>::empty() =~= strings_v(elements@));
                    }
                }
            },
            None => {
                proof {
                    assert(strings_v(elements@) + Seq::<Seq<char>>::empty() =~= strings_v(elements@));
                }
            },
        },
        None => {
            proof {
                assert(strings_v(elements@) + Seq::<Seq<char>>::empty() =~= strings_v(elements@));
            }
        },
    }
}

/// How well a row represents the species it normalizes onto.
pub fn row_rank(row_name: &str, normalized_key: &str, row: &Properties) -> (r: u8)
    ensures
        r == rank_of_row(row_name@, normalized_key@, row.pairs()),
{
    let exact: u8 = if crate::text::eq_ignore_ascii_case(row_name, normalized_key) {
        2
    } else {
        0
    };
    let dex: u8 = match int_of_prop(row, "ZukanIndex") {
        Some(n) => if n > 0 {
            1
        } else {
            0
        },
        None => 0,
    };
    exact + dex
}

/// Copy one `DT_PalMonsterParameter` row onto the species it describes.
pub fn apply_row(species: &mut Species, row: &Properties)
    ensures
        final(species)@ == with_row(old(species)@, row.pairs()),
{
    species.dex_number = match int_of_prop(row, "ZukanIndex") {
        Some(n) => if n > 0 {
            Some(n as u32)
        } else {
            None
        },
        None => None,
    };
    species.dex_suffix = str_of_prop(row, "ZukanIndexSuffix").to_owned();
    species.rarity = count_of_prop(row, "Rarity");
    let mut elements: Vec<String> = Vec::new();
    proof {
        assert(strings_v(elements@) =~= Seq::<Seq<char>>::empty());
    }
    push_element(&mut elements, row, "ElementType1");
    push_element(&mut elements, row, "ElementType2");
    proof {
        assert(Seq::<Seq<char>>::empty() + element_prop(row.pairs(), "ElementType1"@) =~= element_prop(
            row.pairs(),
            "ElementType1"@,
        ));
    }
    species.elements = elements;
    species.stats = BaseStats {
        hp: count_of_prop(row, "Hp"),
        melee_attack: count_of_prop(row, "MeleeAttack"),
        shot_attack: count_of_prop(row, "ShotAttack"),
        defense: count_of_prop(row, "Defense"),
        support: count_of_prop(row, "Support"),
        craft_speed: count_of_prop(row, "CraftSpeed"),
    };
    let n = row.entry_count();
    let ghost ps = row.pairs();
    let mut works: StrMap<u32> = StrMap::new();
    let mut i: usize = 0;
    proof {
        assert(ps.take(0) =~= Seq::<(Seq<char>, ValueV)>::empty());
    }
    while i < n
        invariant
            n == ps.len(),
            ps == row.pairs(),
            i <= n,
            works@ == works_in(Map::empty(), ps.take(i as int)),
        decreases n - i,
    {
        let (k, v) = row.entry(i);
        proof {
            assert(ps.take(i + 1).drop_last() =~= ps.take(i as int));
            assert(ps.take(i + 1).last() == ps[i as int]);
        }
        let cs = chars_of(k);
        match strip_prefix(cs.as_slice(), WORK_SUITABILITY_PREFIX) {
            Some(p) => {
                let job = string_of(cs.as_slice(), p, cs.len());
                proof {
                    assert(job@ =~= k@.skip(WORK_SUITABILITY_PREFIX@.len() as int));
                }
                match v.as_i32() {
                    Some(level) => if level > 0 {
                        works.insert(job, level as u32);
                    } else {
                        works.remove(job.as_str());
                    },
                    None => works.remove(job.as_str()),
                }
            },
            None => {},
        }
        i += 1;
    }
    proof {
        assert(ps.take(n as int) =~= ps);
    }
    species.work_suitabilities = works;
}

/// Add the text of every entry keyed `prefix` + id to `map`, under the
/// lower-cased id.
fn add_named(map: &mut StrMap<String>, entries: &[TextEntry], prefix: &str)
    ensures
        strs_v(final(map)@) == named_in(strs_v(old(map)@), entries_v(entries@), prefix@),
{
    let ghost m0 = strs_v(map@);
    let ghost es = entries_v(entries@);
    let mut i: usize = 0;
    proof {
        assert(es.take(0) =~= Seq::<TextEntryV>::empty());
    }
    while i < entries.len()
        invariant
            i <= entries@.len(),
            es == entries_v(entries@),
            strs_v(map@) == named_in(m0, es.take(i as int), prefix@),
        decreases entries@.len() - i,
    {
        let e = &entries[i];
        proof {
            assert(es.take(i + 1).drop_last() =~= es.take(i as int));
            assert(es.take(i + 1).last() == e@);
        }
        let cs = chars_of(e.key.as_str());
        match strip_prefix(cs.as_slice(), prefix) {
            Some(n) => match &e.text {
                Some(t) => {
                    let id = string_of(cs.as_slice(), n, cs.len());
                    proof {
                        assert(id@ =~= e.key@.skip(prefix@.len() as int));
                    }
                    let key = to_ascii_lowercase(id.as_str());
                    let value = t.clone();
                    proof {
                        assert(strs_v(map@.insert(key@, value)) =~= strs_v(map@).insert(key@, value@));
                    }
                    map.insert(key, value);
                },
                None => {},
            },
            None => {},
        }
        i += 1;
    }
    proof {
        assert(es.take(entries@.len() as int) =~= es);
    }
}

/// The species key and icon entry a pak path names, if it is a species icon.
fn icon_of(path: &str) -> (r: Option<(String, String)>)
    ensures
        match icon_entry(path@) {
            Some((k, v)) => r matches Some((a, b)) && a@ == k && b@ == v,
            None => r is None,
        },
{
    proof {
        reveal_strlit(".uasset");
        reveal_strlit("T_");
    }
    let cs = chars_of(path);
    let dl = match strip_prefix(cs.as_slice(), ICON_DIR) {
        Some(n) => n,
        None => return None,
    };
    let len = cs.len();
    if len - dl < 7 {
        proof {
            assert(!ends_in(path@.skip(dl as int), ".uasset"@));
        }
        return None;
    }
    let tail = string_of(cs.as_slice(), len - 7, len);
    if !crate::text::str_eq(tail.as_str(), ".uasset") {
        proof {
            assert(path@.skip(dl as int).skip(path@.skip(dl as int).len() - 7) =~= tail@);
        }
        return None;
    }
    proof {
        assert(path@.skip(dl as int).skip(path@.skip(dl as int).len() - 7) =~= tail@);
    }
    let stem_end = len - 7;
    let stem = string_of(cs.as_slice(), dl, stem_end);
    let stem_cs = chars_of(stem.as_str());
    match strip_prefix(stem_cs.as_slice(), ICON_PREFIX) {
        Some(_) => {},
        None => return None,
    }
    let r2_len = stem_cs.len() - 2;
    if r2_len <= 12 {
        proof {
            reveal_strlit("_icon_normal");
        }
        return None;
    }
    let cut = r2_len - 12;
    let suffix = string_of(stem_cs.as_slice(), 2 + cut, stem_cs.len());
    proof {
        reveal_strlit("_icon_normal");
        assert(suffix@ =~= stem@.skip(2).skip(cut as int));
    }
    if !crate::text::eq_ignore_ascii_case(suffix.as_str(), ICON_SUFFIX) {
        return None;
    }
    let id = string_of(stem_cs.as_slice(), 2, 2 + cut);
    proof {
        assert(id@ =~= stem@.skip(2).take(cut as int));
    }
    let key = normalize_key(id.as_str());
    let value = string_of(cs.as_slice(), 0, stem_end);
    proof {
        assert(value@ =~= path@.take(path@.len() - 7));
    }
    Some((key, value))
}

/// Insert the lookup key of every name into `set`.
fn add_keys(set: &mut StrSet, names: &[String])
    ensures
        final(set)@ == old(set)@.union(keys_of_names(strings_v(names@))),
{
    let ghost s0 = old(set)@;
    let ghost ns = strings_v(names@);
    let mut i: usize = 0;
    while i < names.len()
        invariant
            i <= names@.len(),
            ns == strings_v(names@),
            set@ == s0.union(keys_of_names(ns.take(i as int))),
        decreases names@.len() - i,
    {
        let key = normalize_key(names[i].as_str());
        proof {
            let before = ns.take(i as int);
            let after = ns.take(i + 1);
            assert(after =~= before.push(names@[i as int]@));
            let mb = normalized_all(before);
            let ma = normalized_all(after);
            assert(ma =~= mb.push(key@));
            assert forall|y: Seq<char>| ma.to_set().contains(y) <==> mb.to_set().insert(key@).contains(y) by {
                if ma.contains(y) {
                    let j = choose|j: int| 0 <= j < ma.len() && ma[j] == y;
                    if j < mb.len() {
                        assert(mb[j] == y);
                    }
                }
                if mb.contains(y) {
                    let j = choose|j: int| 0 <= j < mb.len() && mb[j] == y;
                    assert(ma[j] == y);
                }
                if y == key@ {
                    assert(ma[mb.len() as int] == y);
                }
            }
            assert(keys_of_names(after) =~= keys_of_names(before).insert(key@));
        }
        set.insert(key);
        proof {
            assert(set@ =~= s0.union(keys_of_names(ns.take(i + 1))));
        }
        i += 1;
    }
    proof {
        assert(ns.take(names@.len() as int) =~= ns);
    }
}

/// Reference data extracted from a pak.
#[derive(Debug)]
pub struct ReferenceIndex {
    /// Named species by lookup key: the Paldeck-eligible set.
    species: StrMap<Species>,
    /// Every lookup key `DT_PalMonsterParameter` references: a superset of
    /// the species keys, sound for membership tests only.
    pal_keys: StrSet,
    passives: StrMap<PassiveSkill>,
    technologies: StrMap<String>,
    items: StrMap<String>,
    map_objects: StrMap<String>,
    /// Element enum name (lower-cased) to its label, e.g. `leaf` to `Grass`.
    element_names: StrMap<String>,
    /// Work suitability enum name (lower-cased) to its label.
    work_names: StrMap<String>,
    /// Work suitability names in the game's own display order.
    work_order: Vec<String>,
    human_npc_ids: StrSet,
    /// Species key to its icon's pak entry, without extension.
    icon_paths: StrMap<String>,
    language: String,
    breeding: BreedingIndex,
    /// Non-fatal problems met while extracting.
    warnings: Vec<String>,
}

/// [`ReferenceIndex`] as values.
pub struct ReferenceIndexV {
    pub species: Map<Seq<char>, SpeciesV>,
    pub pal_keys: Set<Seq<char>>,
    pub passives: Map<Seq<char>, PassiveSkillV>,
    pub technologies: Map<Seq<char>, Seq<char>>,
    pub items: Map<Seq<char>, Seq<char>>,
    pub map_objects: Map<Seq<char>, Seq<char>>,
    pub element_names: Map<Seq<char>, Seq<char>>,
    pub work_names: Map<Seq<char>, Seq<char>>,
    pub work_order: Seq<Seq<char>>,
    pub human_npc_ids: Set<Seq<char>>,
    pub icon_paths: Map<Seq<char>, Seq<char>>,
    pub language: Seq<char>,
    pub breeding: crate::data::breeding::BreedingIndexV,
    pub warnings: Seq<Seq<char>>,
}

impl View for ReferenceIndex {
    type V = ReferenceIndexV;

    closed spec fn view(&self) -> ReferenceIndexV {
        ReferenceIndexV {
            species: species_v(self.species@),
            pal_keys: self.pal_keys@,
            passives: passives_v(self.passives@),
            technologies: strs_v(self.technologies@),
            items: strs_v(self.items@),
            map_objects: strs_v(self.map_objects@),
            element_names: strs_v(self.element_names@),
            work_names: strs_v(self.work_names@),
            work_order: strings_v(self.work_order@),
            human_npc_ids: self.human_npc_ids@,
            icon_paths: strs_v(self.icon_paths@),
            language: self.language@,
            breeding: self.breeding@,
            warnings: strings_v(self.warnings@),
        }
    }
}

impl ReferenceIndex {
    #[verifier::type_invariant]
    closed spec fn inv(self) -> bool {
        &&& self.breeding.wf()
        &&& keyed_by_id(self.species@)
    }

    pub closed spec fn species_map(&self) -> Map<Seq<char>, Species> {
        self.species@
    }

    pub closed spec fn species_entries(&self) -> Seq<(Seq<char>, Species)> {
        self.species.pairs()
    }

    pub closed spec fn pal_key_set(&self) -> Set<Seq<char>> {
        self.pal_keys@
    }

    pub closed spec fn human_npc_set(&self) -> Set<Seq<char>> {
        self.human_npc_ids@
    }

    pub closed spec fn passive_map(&self) -> Map<Seq<char>, PassiveSkill> {
        self.passives@
    }

    pub closed spec fn technology_map(&self) -> Map<Seq<char>, String> {
        self.technologies@
    }

    pub closed spec fn item_map(&self) -> Map<Seq<char>, String> {
        self.items@
    }

    pub closed spec fn map_object_map(&self) -> Map<Seq<char>, String> {
        self.map_objects@
    }

    pub closed spec fn element_map(&self) -> Map<Seq<char>, String> {
        self.element_names@
    }

    pub closed spec fn work_map(&self) -> Map<Seq<char>, String> {
        self.work_names@
    }

    pub closed spec fn icon_map(&self) -> Map<Seq<char>, String> {
        self.icon_paths@
    }

    pub closed spec fn language_view(&self) -> Seq<char> {
        self.language@
    }

    pub closed spec fn warning_list(&self) -> Seq<String> {
        self.warnings@
    }

    pub closed spec fn work_order_list(&self) -> Seq<String> {
        self.work_order@
    }

    pub closed spec fn breeding_view(&self) -> crate::data::breeding::BreedingIndexV {
        self.breeding@
    }

    /// An index with nothing in it.
    pub fn new() -> (r: Self)
        ensures
            r.species_map() == Map::<Seq<char>, Species>::empty(),
            r.pal_key_set() == Set::<Seq<char>>::empty(),
            r.human_npc_set() == Set::<Seq<char>>::empty(),
            r.passive_map() == Map::<Seq<char>, PassiveSkill>::empty(),
            r.technology_map() == Map::<Seq<char>, String>::empty(),
            r.item_map() == Map::<Seq<char>, String>::empty(),
            r.map_object_map() == Map::<Seq<char>, String>::empty(),
            r.element_map() == Map::<Seq<char>, String>::empty(),
            r.work_map() == Map::<Seq<char>, String>::empty(),
            r.icon_map() == Map::<Seq<char>, String>::empty(),
            r.language_view() == Seq::<char>::empty(),
            r.warning_list() == Seq::<String>::empty(),
            r.work_order_list() == Seq::<String>::empty(),
    {
        ReferenceIndex {
            species: StrMap::new(),
            pal_keys: StrSet::new(),
            passives: StrMap::new(),
            technologies: StrMap::new(),
            items: StrMap::new(),
            map_objects: StrMap::new(),
            element_names: StrMap::new(),
            work_names: StrMap::new(),
            work_order: Vec::new(),
            human_npc_ids: StrSet::new(),
            icon_paths: StrMap::new(),
            language: String::new(),
            breeding: BreedingIndex::new(),
            warnings: Vec::new(),
        }
    }

    /// Record a named species under its lookup key.
    pub fn insert_species(&mut self, key: String, species: Species)
        requires
            key@ == normalized(species.character_id@),
        ensures
            final(self).species_map() == old(self).species_map().insert(key@, species),
            final(self).pal_key_set() == old(self).pal_key_set(),
            final(self).human_npc_set() == old(self).human_npc_set(),
    {
        proof {
            use_type_invariant(&*self);
        }
        let mut m = StrMap::new();
        std::mem::swap(&mut m, &mut self.species);
        m.insert(key, species);
        self.species = m;
    }

    /// Record a lookup key the monster parameter table references.
    pub fn insert_pal_key(&mut self, key: String)
        ensures
            final(self).species_map() == old(self).species_map(),
            final(self).pal_key_set() == old(self).pal_key_set().insert(key@),
            final(self).human_npc_set() == old(self).human_npc_set(),
    {
        proof {
            use_type_invariant(&*self);
        }
        let mut s = StrSet::new();
        std::mem::swap(&mut s, &mut self.pal_keys);
        s.insert(key);
        self.pal_keys = s;
    }

    /// Record a lookup key the human parameter table references.
    pub fn insert_human_npc(&mut self, key: String)
        ensures
            final(self).species_map() == old(self).species_map(),
            final(self).pal_key_set() == old(self).pal_key_set(),
            final(self).human_npc_set() == old(self).human_npc_set().insert(key@),
    {
        proof {
            use_type_invariant(&*self);
        }
        let mut s = StrSet::new();
        std::mem::swap(&mut s, &mut self.human_npc_ids);
        s.insert(key);
        self.human_npc_ids = s;
    }

    /// Record a passive skill under its text-table key.
    pub fn insert_passive(&mut self, key: String, passive: PassiveSkill)
        ensures
            final(self).passive_map() == old(self).passive_map().insert(key@, passive),
    {
        proof {
            use_type_invariant(&*self);
        }
        let mut m = StrMap::new();
        std::mem::swap(&mut m, &mut self.passives);
        m.insert(key, passive);
        self.passives = m;
    }

    /// The index's view agrees with the maps its lookups are stated over.
    pub proof fn lemma_view(&self)
        ensures
            self@.species == species_v(self.species_map()),
            self@.pal_keys == self.pal_key_set(),
            self@.human_npc_ids == self.human_npc_set(),
            self@.passives == passives_v(self.passive_map()),
            self@.technologies == strs_v(self.technology_map()),
            self@.items == strs_v(self.item_map()),
            self@.map_objects == strs_v(self.map_object_map()),
            self@.element_names == strs_v(self.element_map()),
            self@.work_names == strs_v(self.work_map()),
            self@.work_order == strings_v(self.work_order_list()),
            self@.icon_paths == strs_v(self.icon_map()),
            self@.language == self.language_view(),
            self@.breeding == self.breeding_view(),
            self@.warnings == strings_v(self.warning_list()),
    {
    }

    /// An empty index whose display names will be in `language`.
    pub fn with_language(language: &str) -> (r: Self)
        ensures
            r@.language == language@,
            r@.species == Map::<Seq<char>, SpeciesV>::empty(),
            r@.pal_keys == Set::<Seq<char>>::empty(),
            r@.human_npc_ids == Set::<Seq<char>>::empty(),
            r@.passives == Map::<Seq<char>, PassiveSkillV>::empty(),
            r@.technologies == Map::<Seq<char>, Seq<char>>::empty(),
            r@.items == Map::<Seq<char>, Seq<char>>::empty(),
            r@.map_objects == Map::<Seq<char>, Seq<char>>::empty(),
            r@.element_names == Map::<Seq<char>, Seq<char>>::empty(),
            r@.work_names == Map::<Seq<char>, Seq<char>>::empty(),
            r@.work_order == Seq::<Seq<char>>::empty(),
            r@.icon_paths == Map::<Seq<char>, Seq<char>>::empty(),
            r@.warnings == Seq::<Seq<char>>::empty(),
            r@.breeding.parents == Map::<Seq<char>, crate::data::breeding::ParentV>::empty(),
            r@.breeding.unique == Map::<(Seq<char>, Seq<char>), Seq<char>>::empty(),
            r@.breeding.pool == Seq::<crate::data::breeding::CandidateV>::empty(),
            r@.breeding.ignored == Seq::<(Seq<char>, Seq<char>)>::empty(),
    {
        let r = ReferenceIndex {
            species: StrMap::new(),
            pal_keys: StrSet::new(),
            passives: StrMap::new(),
            technologies: StrMap::new(),
            items: StrMap::new(),
            map_objects: StrMap::new(),
            element_names: StrMap::new(),
            work_names: StrMap::new(),
            work_order: Vec::new(),
            human_npc_ids: StrSet::new(),
            icon_paths: StrMap::new(),
            language: language.to_owned(),
            breeding: BreedingIndex::new(),
            warnings: Vec::new(),
        };
        proof {
            assert(r@.species =~= Map::<Seq<char>, SpeciesV>::empty());
            assert(r@.passives =~= Map::<Seq<char>, PassiveSkillV>::empty());
            assert(r@.technologies =~= Map::<Seq<char>, Seq<char>>::empty());
            assert(r@.items =~= Map::<Seq<char>, Seq<char>>::empty());
            assert(r@.map_objects =~= Map::<Seq<char>, Seq<char>>::empty());
            assert(r@.element_names =~= Map::<Seq<char>, Seq<char>>::empty());
            assert(r@.work_names =~= Map::<Seq<char>, Seq<char>>::empty());
            assert(r@.work_order =~= Seq::<Seq<char>>::empty());
            assert(r@.icon_paths =~= Map::<Seq<char>, Seq<char>>::empty());
            assert(r@.warnings =~= Seq::<Seq<char>>::empty());
        }
        r
    }

    /// Record a non-fatal problem met while extracting.
    pub fn warn(&mut self, message: String)
        ensures
            final(self)@ == (ReferenceIndexV { warnings: old(self)@.warnings.push(message@), ..old(self)@ }),
    {
        proof {
            use_type_invariant(&*self);
            assert(strings_v(self.warnings@.push(message)) =~= strings_v(self.warnings@).push(message@));
        }
        let mut w: Vec<String> = Vec::new();
        std::mem::swap(&mut w, &mut self.warnings);
        w.push(message);
        self.warnings = w;
    }

    /// Add a species for every row of `DT_PalNameText_Common`.
    pub fn apply_pal_names(&mut self, entries: &[TextEntry])
        ensures
            final(self)@ == (ReferenceIndexV {
                species: species_named_in(old(self)@.species, entries_v(entries@)),
                ..old(self)@
            }),
    {
        proof {
            use_type_invariant(&*self);
        }
        let mut m = StrMap::new();
        std::mem::swap(&mut m, &mut self.species);
        let ghost m0 = species_v(m@);
        let ghost es = entries_v(entries@);
        let mut i: usize = 0;
        proof {
            assert(es.take(0) =~= Seq::<TextEntryV>::empty());
        }
        while i < entries.len()
            invariant
                i <= entries@.len(),
                es == entries_v(entries@),
                species_v(m@) == species_named_in(m0, es.take(i as int)),
                keyed_by_id(m@),
            decreases entries@.len() - i,
        {
            let e = &entries[i];
            proof {
                assert(es.take(i + 1).drop_last() =~= es.take(i as int));
                assert(es.take(i + 1).last() == e@);
            }
            let cs = chars_of(e.key.as_str());
            match strip_prefix(cs.as_slice(), PAL_NAME_PREFIX) {
                Some(n) => {
                    let id = string_of(cs.as_slice(), n, cs.len());
                    proof {
                        assert(id@ =~= e.key@.skip(PAL_NAME_PREFIX@.len() as int));
                    }
                    let display = match &e.text {
                        Some(t) => t.clone(),
                        None => id.clone(),
                    };
                    let key = normalize_key(id.as_str());
                    let mut sp = Species::default();
                    sp.character_id = id;
                    sp.display_name = display;
                    proof {
                        assert(sp.elements@ =~= Seq::<String>::empty());
                        assert(sp@.elements =~= Seq::<Seq<char>>::empty());
                        assert(sp@ == named_species(sp.character_id@, sp.display_name@));
                        assert(species_v(m@.insert(key@, sp)) =~= species_v(m@).insert(key@, sp@));
                    }
                    m.insert(key, sp);
                },
                None => {},
            }
            i += 1;
        }
        proof {
            assert(es.take(entries@.len() as int) =~= es);
        }
        self.species = m;
    }

    /// Add a passive skill for every row of `DT_SkillNameText_Common`.
    pub fn apply_skill_names(&mut self, entries: &[TextEntry])
        ensures
            final(self)@ == (ReferenceIndexV {
                passives: passives_named_in(old(self)@.passives, entries_v(entries@)),
                ..old(self)@
            }),
    {
        proof {
            use_type_invariant(&*self);
        }
        let mut m = StrMap::new();
        std::mem::swap(&mut m, &mut self.passives);
        let ghost m0 = passives_v(m@);
        let ghost es = entries_v(entries@);
        let mut i: usize = 0;
        proof {
            assert(es.take(0) =~= Seq::<TextEntryV>::empty());
        }
        while i < entries.len()
            invariant
                i <= entries@.len(),
                es == entries_v(entries@),
                passives_v(m@) == passives_named_in(m0, es.take(i as int)),
            decreases entries@.len() - i,
        {
            let e = &entries[i];
            proof {
                assert(es.take(i + 1).drop_last() =~= es.take(i as int));
                assert(es.take(i + 1).last() == e@);
            }
            let display_name = match &e.text {
                Some(t) => t.clone(),
                None => e.key.clone(),
            };
            let p = PassiveSkill { id: e.key.clone(), display_name };
            proof {
                assert(passives_v(m@.insert(e.key@, p)) =~= passives_v(m@).insert(e.key@, p@));
            }
            m.insert(e.key.clone(), p);
            i += 1;
        }
        proof {
            assert(es.take(entries@.len() as int) =~= es);
        }
        self.passives = m;
    }

    /// Add the element and work suitability labels, and the work suitability
    /// display order, from the UI string table.
    pub fn apply_ui_labels(&mut self, entries: &[TextEntry])
        ensures
            ({
                let after = ui_in(
                    old(self)@.element_names,
                    old(self)@.work_names,
                    old(self)@.work_order,
                    entries_v(entries@),
                );
                final(self)@ == (ReferenceIndexV {
                    element_names: after.0,
                    work_names: after.1,
                    work_order: after.2,
                    ..old(self)@
                })
            }),
    {
        proof {
            use_type_invariant(&*self);
        }
        let mut el = StrMap::new();
        std::mem::swap(&mut el, &mut self.element_names);
        let mut wn = StrMap::new();
        std::mem::swap(&mut wn, &mut self.work_names);
        let mut order: Vec<String> = Vec::new();
        std::mem::swap(&mut order, &mut self.work_order);
        let ghost start = (strs_v(el@), strs_v(wn@), strings_v(order@));
        let ghost es = entries_v(entries@);
        let mut i: usize = 0;
        proof {
            assert(es.take(0) =~= Seq::<TextEntryV>::empty());
        }
        while i < entries.len()
            invariant
                i <= entries@.len(),
                es == entries_v(entries@),
                (strs_v(el@), strs_v(wn@), strings_v(order@)) == ui_in(start.0, start.1, start.2, es.take(i as int)),
            decreases entries@.len() - i,
        {
            let e = &entries[i];
            proof {
                assert(es.take(i + 1).drop_last() =~= es.take(i as int));
                assert(es.take(i + 1).last() == e@);
            }
            match &e.text {
                None => {},
                Some(t) => {
                    let cs = chars_of(e.key.as_str());
                    match strip_prefix(cs.as_slice(), ELEMENT_NAME_PREFIX) {
                        Some(n) => {
                            let id = string_of(cs.as_slice(), n, cs.len());
                            proof {
                                assert(id@ =~= e.key@.skip(ELEMENT_NAME_PREFIX@.len() as int));
                            }
                            let key = to_ascii_lowercase(id.as_str());
                            let label = t.clone();
                            proof {
                                assert(strs_v(el@.insert(key@, label)) =~= strs_v(el@).insert(key@, t@));
                            }
                            el.insert(key, label);
                        },
                        None => match strip_prefix(cs.as_slice(), WORK_SUITABILITY_NAME_PREFIX) {
                            Some(n) => {
                                if n < cs.len() {
                                    let id = string_of(cs.as_slice(), n, cs.len());
                                    proof {
                                        assert(id@ =~= e.key@.skip(WORK_SUITABILITY_NAME_PREFIX@.len() as int));
                                    }
                                    let key = to_ascii_lowercase(id.as_str());
                                    let label = t.clone();
                                    proof {
                                        assert(strs_v(wn@.insert(key@, label)) =~= strs_v(wn@).insert(key@, t@));
                                        assert(strings_v(order@.push(id)) =~= strings_v(order@).push(id@));
                                    }
                                    wn.insert(key, label);
                                    order.push(id);
                                }
                            },
                            None => {},
                        },
                    }
                },
            }
            i += 1;
        }
        proof {
            assert(es.take(entries@.len() as int) =~= es);
        }
        self.element_names = el;
        self.work_names = wn;
        self.work_order = order;
    }

    /// Index the species icons among the pak's file paths.
    pub fn apply_icons(&mut self, files: &[String])
        ensures
            final(self)@ == (ReferenceIndexV {
                icon_paths: icons_in(old(self)@.icon_paths, strings_v(files@)),
                ..old(self)@
            }),
    {
        proof {
            use_type_invariant(&*self);
        }
        let mut m = StrMap::new();
        std::mem::swap(&mut m, &mut self.icon_paths);
        let ghost m0 = strs_v(m@);
        let ghost fs = strings_v(files@);
        let mut i: usize = 0;
        proof {
            assert(fs.take(0) =~= Seq::<Seq<char>>::empty());
        }
        while i < files.len()
            invariant
                i <= files@.len(),
                fs == strings_v(files@),
                strs_v(m@) == icons_in(m0, fs.take(i as int)),
            decreases files@.len() - i,
        {
            proof {
                assert(fs.take(i + 1).drop_last() =~= fs.take(i as int));
                assert(fs.take(i + 1).last() == files@[i as int]@);
            }
            match icon_of(files[i].as_str()) {
                Some((k, v)) => {
                    proof {
                        assert(strs_v(m@.insert(k@, v)) =~= strs_v(m@).insert(k@, v@));
                    }
                    m.insert(k, v);
                },
                None => {},
            }
            i += 1;
        }
        proof {
            assert(fs.take(files@.len() as int) =~= fs);
        }
        self.icon_paths = m;
    }

    /// Add the lookup keys of a monster parameter table's name table.
    pub fn add_pal_keys(&mut self, names: &[String])
        ensures
            final(self)@ == (ReferenceIndexV {
                pal_keys: old(self)@.pal_keys.union(keys_of_names(strings_v(names@))),
                ..old(self)@
            }),
    {
        proof {
            use_type_invariant(&*self);
        }
        let mut set = StrSet::new();
        std::mem::swap(&mut set, &mut self.pal_keys);
        add_keys(&mut set, names);
        self.pal_keys = set;
    }

    /// Add the lookup keys of a human parameter table's name table.
    pub fn add_human_npcs(&mut self, names: &[String])
        ensures
            final(self)@ == (ReferenceIndexV {
                human_npc_ids: old(self)@.human_npc_ids.union(keys_of_names(strings_v(names@))),
                ..old(self)@
            }),
    {
        proof {
            use_type_invariant(&*self);
        }
        let mut set = StrSet::new();
        std::mem::swap(&mut set, &mut self.human_npc_ids);
        add_keys(&mut set, names);
        self.human_npc_ids = set;
    }

    /// Attach Paldeck numbers, elements, stats, rarity and work suitabilities
    /// from one `DT_PalMonsterParameter` table, and add every row to the
    /// breeding rules. Several rows can normalize onto one species (the
    /// alpha and quest forms of a Pal), so `best` keeps the best rank seen per
    /// species, across tables, and only a row at least that good overwrites.
    #[verifier::loop_isolation(false)]
    pub fn apply_parameter_rows(&mut self, rows: &[Row], best: &mut StrMap<u8>)
        ensures
            (final(self)@, final(best)@) == params_in(old(self)@, old(best)@, rows_v(rows@)),
    {
        let ghost start = (self@, best@);
        let ghost rs = rows_v(rows@);
        let mut i: usize = 0;
        proof {
            assert(rs.take(0) =~= Seq::<RowV>::empty());
        }
        while i < rows.len()
            invariant
                i <= rows@.len(),
                rs == rows_v(rows@),
                (self@, best@) == params_in(start.0, start.1, rs.take(i as int)),
            decreases rows@.len() - i,
        {
            proof {
                use_type_invariant(&*self);
                assert(rs.take(i + 1).drop_last() =~= rs.take(i as int));
                assert(rs.take(i + 1).last() == rows@[i as int]@);
            }
            let row = &rows[i];
            let key = normalize_key(row.name.as_str());
            let props = &row.properties;
            let species_row = SpeciesRow {
                key: key.as_str(),
                character_id: row.name.as_str(),
                tribe: str_of_prop(props, "Tribe"),
                rank: count_of_prop(props, "CombiRank"),
                is_pal: flag_of_prop(props, "IsPal"),
                ignore_combi: flag_of_prop(props, "IgnoreCombi"),
                zukan: count_of_prop(props, "ZukanIndex"),
            };
            let mut b = BreedingIndex::new();
            std::mem::swap(&mut b, &mut self.breeding);
            b.add_species(&species_row);
            self.breeding = b;
            let updated = match self.species.get(key.as_str()) {
                Some(sp) => {
                    let rank = row_rank(row.name.as_str(), key.as_str(), props);
                    let before: u8 = match best.get(key.as_str()) {
                        Some(x) => *x,
                        None => 0,
                    };
                    if rank >= before {
                        let mut fresh = Species {
                            character_id: sp.character_id.clone(),
                            display_name: sp.display_name.clone(),
                            dex_number: None,
                            dex_suffix: String::new(),
                            elements: Vec::new(),
                            rarity: 0,
                            stats: BaseStats::default(),
                            work_suitabilities: StrMap::new(),
                        };
                        apply_row(&mut fresh, props);
                        Some((rank, fresh))
                    } else {
                        None
                    }
                },
                None => None,
            };
            match updated {
                Some((rank, fresh)) => {
                    best.insert(key.clone(), rank);
                    let mut m = StrMap::new();
                    std::mem::swap(&mut m, &mut self.species);
                    proof {
                        assert(species_v(m@.insert(key@, fresh)) =~= species_v(m@).insert(key@, fresh@));
                    }
                    m.insert(key, fresh);
                    self.species = m;
                },
                None => {},
            }
            i += 1;
        }
        proof {
            assert(rs.take(rows@.len() as int) =~= rs);
        }
    }

    /// Add the unique parent-pair overrides of `DT_PalCombiUnique`.
    #[verifier::loop_isolation(false)]
    pub fn apply_unique_rows(&mut self, rows: &[Row])
        ensures
            final(self)@ == (ReferenceIndexV { breeding: uniques_in(old(self)@.breeding, rows_v(rows@)), ..old(self)@ }),
    {
        let ghost start = self@;
        let ghost rs = rows_v(rows@);
        let mut i: usize = 0;
        proof {
            assert(rs.take(0) =~= Seq::<RowV>::empty());
        }
        while i < rows.len()
            invariant
                i <= rows@.len(),
                rs == rows_v(rows@),
                self@ == (ReferenceIndexV { breeding: uniques_in(start.breeding, rs.take(i as int)), ..start }),
            decreases rows@.len() - i,
        {
            proof {
                use_type_invariant(&*self);
                assert(rs.take(i + 1).drop_last() =~= rs.take(i as int));
                assert(rs.take(i + 1).last() == rows@[i as int]@);
            }
            let props = &rows[i].properties;
            let mut b = BreedingIndex::new();
            std::mem::swap(&mut b, &mut self.breeding);
            b.add_unique(
                str_of_prop(props, "ParentTribeA"),
                str_of_prop(props, "ParentTribeB"),
                str_of_prop(props, "ChildCharacterID"),
            );
            self.breeding = b;
            i += 1;
        }
        proof {
            assert(rs.take(rows@.len() as int) =~= rs);
        }
    }

    /// Settle the breeding rules once every parameter row is in: see
    /// [`BreedingIndex::finish`].
    pub fn finish_breeding(&mut self)
        ensures
            final(self)@ == (ReferenceIndexV { breeding: final(self)@.breeding, ..old(self)@ }),
            final(self)@.breeding.pool.to_multiset() == old(self)@.breeding.pool.to_multiset(),
            sorted_pool(final(self)@.breeding.pool),
            final(self)@.breeding.parents == old(self)@.breeding.parents.remove_keys(unbred(old(self)@.breeding)),
            final(self)@.breeding.unique == old(self)@.breeding.unique,
            final(self)@.breeding.ignored == Seq::<(Seq<char>, Seq<char>)>::empty(),
    {
        proof {
            use_type_invariant(&*self);
        }
        let mut b = BreedingIndex::new();
        std::mem::swap(&mut b, &mut self.breeding);
        b.finish();
        self.breeding = b;
    }

    /// Add item names from `DT_ItemNameText_Common`.
    pub fn apply_item_names(&mut self, entries: &[TextEntry])
        ensures
            final(self)@ == (ReferenceIndexV {
                items: named_in(old(self)@.items, entries_v(entries@), ITEM_NAME_PREFIX@),
                ..old(self)@
            }),
    {
        proof {
            use_type_invariant(&*self);
        }
        let mut m = StrMap::new();
        std::mem::swap(&mut m, &mut self.items);
        add_named(&mut m, entries, ITEM_NAME_PREFIX);
        self.items = m;
    }

    /// Add buildable structure names from `DT_MapObjectNameText_Common`.
    pub fn apply_map_object_names(&mut self, entries: &[TextEntry])
        ensures
            final(self)@ == (ReferenceIndexV {
                map_objects: named_in(old(self)@.map_objects, entries_v(entries@), MAP_OBJECT_NAME_PREFIX@),
                ..old(self)@
            }),
    {
        proof {
            use_type_invariant(&*self);
        }
        let mut m = StrMap::new();
        std::mem::swap(&mut m, &mut self.map_objects);
        add_named(&mut m, entries, MAP_OBJECT_NAME_PREFIX);
        self.map_objects = m;
    }

    /// Add technology names from `DT_TechnologyNameText_Common`.
    pub fn apply_technology_names(&mut self, entries: &[TextEntry])
        ensures
            final(self)@ == (ReferenceIndexV {
                technologies: named_in(old(self)@.technologies, entries_v(entries@), TECH_NAME_PREFIX@),
                ..old(self)@
            }),
    {
        proof {
            use_type_invariant(&*self);
        }
        let mut m = StrMap::new();
        std::mem::swap(&mut m, &mut self.technologies);
        add_named(&mut m, entries, TECH_NAME_PREFIX);
        self.technologies = m;
    }

    /// How many species carry a Paldeck number: the real Paldeck
    /// denominator, unlike [`Self::species_count`].
    pub fn dex_entry_count(&self) -> (n: usize)
        ensures
            n == numbered(self.species_entries()),
    {
        let total = self.species.entry_count();
        let mut n: usize = 0;
        let mut i: usize = 0;
        while i < total
            invariant
                total == self.species_entries().len(),
                i <= total,
                n <= i,
                n == numbered(self.species_entries().take(i as int)),
            decreases total - i,
        {
            proof {
                assert(self.species_entries().take(i + 1).drop_last() =~= self.species_entries().take(i as int));
            }
            if self.species.value_at(i).dex_number.is_some() {
                n += 1;
            }
            i += 1;
        }
        proof {
            assert(self.species_entries().take(total as int) =~= self.species_entries());
        }
        n
    }

    /// Non-fatal problems met while extracting; empty on a healthy pak.
    pub fn warnings(&self) -> (r: &[String])
        ensures
            r@ == self.warning_list(),
    {
        self.warnings.as_slice()
    }

    pub fn language(&self) -> (r: &str)
        ensures
            r@ == self.language_view(),
    {
        self.language.as_str()
    }

    /// Number of named species: an upper bound on the Paldeck.
    pub fn species_count(&self) -> (n: usize)
        ensures
            n == self.species_map().dom().len(),
    {
        self.species.len()
    }

    /// Every named species, unordered.
    pub fn species_iter(&self) -> (r: Vec<&Species>)
        ensures
            r@.len() == self.species_map().dom().len(),
            r@.len() == self.species_entries().len(),
            forall|i: int| 0 <= i < r@.len() ==> *#[trigger] r@[i] == self.species_entries()[i].1,
            forall|i: int| 0 <= i < r@.len() ==> self.species_map().values().contains(*#[trigger] r@[i]),
            forall|k: Seq<char>|
                #[trigger] self.species_map().contains_key(k) ==> exists|i: int|
                    0 <= i < r@.len() && *r@[i] == self.species_map()[k],
            keyed_by_id(self.species_map()),
            forall|i: int, j: int|
                0 <= i < j < r@.len() ==> normalized(#[trigger] r@[i].character_id@) != normalized(
                    #[trigger] r@[j].character_id@,
                ),
    {
        proof {
            use_type_invariant(self);
        }
        let r = self.species.values();
        proof {
            let s = self.species.pairs();
            assert forall|i: int, j: int|
                0 <= i < j < r@.len() implies normalized(#[trigger] r@[i].character_id@) != normalized(
                    #[trigger] r@[j].character_id@,
                ) by {
                crate::assoc::lemma_as_map_index(s, i);
                crate::assoc::lemma_as_map_index(s, j);
                assert(self.species@.contains_key(s[i].0));
                assert(self.species@.contains_key(s[j].0));
            }
        }
        r
    }

    pub fn passive_count(&self) -> (n: usize)
        ensures
            n == self.passive_map().dom().len(),
    {
        self.passives.len()
    }

    pub fn technology_count(&self) -> (n: usize)
        ensures
            n == self.technology_map().dom().len(),
    {
        self.technologies.len()
    }

    pub fn item_count(&self) -> (n: usize)
        ensures
            n == self.item_map().dom().len(),
    {
        self.items.len()
    }

    pub fn map_object_count(&self) -> (n: usize)
        ensures
            n == self.map_object_map().dom().len(),
    {
        self.map_objects.len()
    }

    pub fn icon_count(&self) -> (n: usize)
        ensures
            n == self.icon_map().dom().len(),
    {
        self.icon_paths.len()
    }

    /// A technology's display name, matched case-insensitively: saves store
    /// e.g. `AIcore` where the text table keys it `NAME_RECIPE_AICORE`.
    pub fn technology(&self, id: &str) -> (r: Option<&str>)
        ensures
            opt_str(r) == match self.technology_map().get(ascii_lowercase(id@)) {
                Some(s) => Some(s@),
                None => None,
            },
    {
        match self.technologies.get(to_ascii_lowercase(id).as_str()) {
            Some(s) => Some(s.as_str()),
            None => None,
        }
    }

    /// An item's display name, matched case-insensitively.
    pub fn item(&self, id: &str) -> (r: Option<&str>)
        ensures
            opt_str(r) == match self.item_map().get(ascii_lowercase(id@)) {
                Some(s) => Some(s@),
                None => None,
            },
    {
        match self.items.get(to_ascii_lowercase(id).as_str()) {
            Some(s) => Some(s.as_str()),
            None => None,
        }
    }

    /// A buildable structure's display name, matched case-insensitively.
    pub fn map_object(&self, id: &str) -> (r: Option<&str>)
        ensures
            opt_str(r) == match self.map_object_map().get(ascii_lowercase(id@)) {
                Some(s) => Some(s@),
                None => None,
            },
    {
        match self.map_objects.get(to_ascii_lowercase(id).as_str()) {
            Some(s) => Some(s.as_str()),
            None => None,
        }
    }

    /// The label the game shows for an element enum name, e.g. `Leaf` to
    /// `Grass`.
    pub fn element_name(&self, id: &str) -> (r: Option<&str>)
        ensures
            opt_str(r) == match self.element_map().get(ascii_lowercase(id@)) {
                Some(s) => Some(s@),
                None => None,
            },
    {
        match self.element_names.get(to_ascii_lowercase(id).as_str()) {
            Some(s) => Some(s.as_str()),
            None => None,
        }
    }

    /// The label the game shows for a work suitability enum name, e.g.
    /// `Handcraft` to `Handiwork`.
    pub fn work_suitability_name(&self, id: &str) -> (r: Option<&str>)
        ensures
            opt_str(r) == match self.work_map().get(ascii_lowercase(id@)) {
                Some(s) => Some(s@),
                None => None,
            },
    {
        match self.work_names.get(to_ascii_lowercase(id).as_str()) {
            Some(s) => Some(s.as_str()),
            None => None,
        }
    }

    /// Work suitability names in the game's own display order.
    pub fn work_suitability_order(&self) -> (r: &[String])
        ensures
            r@ == self.work_order_list(),
    {
        self.work_order.as_slice()
    }

    /// Whether a lookup key is a Pal: a named species or a key the monster
    /// parameter table references.
    pub fn is_pal_key(&self, key: &str) -> (b: bool)
        ensures
            b == (self.species_map().contains_key(key@) || self.pal_key_set().contains(key@)),
    {
        self.species.contains_key(key) || self.pal_keys.contains(key)
    }

    /// Whether `character_id` is a Pal.
    pub fn is_pal(&self, character_id: &str) -> (b: bool)
        ensures
            b == (self.species_map().contains_key(normalized(character_id@)) || self.pal_key_set().contains(
                normalized(character_id@),
            )),
    {
        let key = normalize_key(character_id);
        self.is_pal_key(key.as_str())
    }

    /// Whether `character_id` is a human NPC rather than a Pal: a key of the
    /// human parameter table that is not a Pal's, since the species table is
    /// the more specific signal.
    pub fn is_human_npc(&self, character_id: &str) -> (b: bool)
        ensures
            b == (self.human_npc_set().contains(normalized(character_id@)) && !(self.species_map().contains_key(
                normalized(character_id@),
            ) || self.pal_key_set().contains(normalized(character_id@)))),
    {
        let key = normalize_key(character_id);
        self.human_npc_ids.contains(key.as_str()) && !self.is_pal_key(key.as_str())
    }

    /// Whether `character_id` resolves to anything the pak knows.
    pub fn is_known(&self, character_id: &str) -> (b: bool)
        ensures
            b == (self.species_map().contains_key(normalized(character_id@)) || self.pal_key_set().contains(
                normalized(character_id@),
            ) || self.human_npc_set().contains(normalized(character_id@))),
    {
        let key = normalize_key(character_id);
        self.is_pal_key(key.as_str()) || self.human_npc_ids.contains(key.as_str())
    }
}

impl ReferenceData for ReferenceIndex {
    fn species(&self, character_id: &str) -> (r: Option<&Species>)
        ensures
            match r {
                Some(s) => self.species_map().contains_key(normalized(character_id@)) && *s
                    == self.species_map()[normalized(character_id@)],
                None => !self.species_map().contains_key(normalized(character_id@)),
            },
    {
        let key = normalize_key(character_id);
        self.species.get(key.as_str())
    }

    /// Accepts the text-table key (`PASSIVE_CraftSpeed_up2`) or the bare id a
    /// save's `PassiveSkillList` stores (`CraftSpeed_up2`).
    fn passive(&self, id: &str) -> (r: Option<&PassiveSkill>)
        ensures
            self.passive_map().contains_key(id@) ==> (r matches Some(p) && *p == self.passive_map()[id@]),
            !self.passive_map().contains_key(id@) ==> match r {
                Some(p) => self.passive_map().contains_key(passive_prefix() + id@) && *p
                    == self.passive_map()[passive_prefix() + id@],
                None => !self.passive_map().contains_key(passive_prefix() + id@),
            },
    {
        match self.passives.get(id) {
            Some(p) => Some(p),
            None => {
                let mut key = String::from_str("PASSIVE_");
                key.append(id);
                self.passives.get(key.as_str())
            },
        }
    }

    /// Resolved from the unique combos first, then the generic rule.
    fn breeding_result(&self, a: &str, b: &str) -> (r: Option<&str>)
        ensures
            opt_str(r) == child_spec(self.breeding_view(), normalized(a@), normalized(b@)),
    {
        proof {
            use_type_invariant(self);
        }
        let ka = normalize_key(a);
        let kb = normalize_key(b);
        self.breeding.child_of(ka.as_str(), kb.as_str())
    }

    fn icon_path(&self, character_id: &str) -> (r: Option<&str>)
        ensures
            opt_str(r) == match self.icon_map().get(normalized(character_id@)) {
                Some(s) => Some(s@),
                None => None,
            },
    {
        let key = normalize_key(character_id);
        match self.icon_paths.get(key.as_str()) {
            Some(s) => Some(s.as_str()),
            None => None,
        }
    }
}

impl Default for ReferenceIndex {
    fn default() -> (r: Self)
        ensures
            r.species_map() == Map::<Seq<char>, Species>::empty(),
            r.pal_key_set() == Set::<Seq<char>>::empty(),
            r.human_npc_set() == Set::<Seq<char>>::empty(),
            r.passive_map() == Map::<Seq<char>, PassiveSkill>::empty(),
    {
        ReferenceIndex::new()
    }
}

/// The `DT_PalMonsterParameter` table, whose rows carry species parameters
/// and breeding ranks.
pub const MONSTER_PARAMETERS: &'static str = "Pal/Content/Pal/DataTable/Character/DT_PalMonsterParameter";

/// Its `_Common` companion, to which later content was added.
pub const MONSTER_PARAMETERS_COMMON: &'static str =
    "Pal/Content/Pal/DataTable/Character/DT_PalMonsterParameter_Common";

/// The parent pairings that override the generic breeding rule.
pub const COMBI_UNIQUE: &'static str = "Pal/Content/Pal/DataTable/Character/DT_PalCombiUnique";

/// The human NPC parameter table.
pub const HUMAN_PARAMETERS: &'static str = "Pal/Content/Pal/DataTable/Character/DT_PalHumanParameter";

/// Its `_Common` companion.
pub const HUMAN_PARAMETERS_COMMON: &'static str = "Pal/Content/Pal/DataTable/Character/DT_PalHumanParameter_Common";

pub const PAL_NAMES: &'static str = "DT_PalNameText_Common";
pub const SKILL_NAMES: &'static str = "DT_SkillNameText_Common";
pub const TECH_NAMES: &'static str = "DT_TechnologyNameText_Common";
pub const ITEM_NAMES: &'static str = "DT_ItemNameText_Common";
pub const MAP_OBJECT_NAMES: &'static str = "DT_MapObjectNameText_Common";
pub const UI_NAMES: &'static str = "DT_UI_Common_Text_Common";

/// Why reference data could not be extracted.
#[derive(Debug)]
pub enum ExtractError {
    /// A table the index cannot do without is not in the pak.
    Missing(String),
    /// A package header did not parse.
    Uasset { entry: String, source: UassetError },
    /// The pak has no species names in the language asked for.
    NoTextTables(String),
}

/// [`ExtractError`] as values.
pub enum ExtractErrorV {
    Missing(Seq<char>),
    Uasset { entry: Seq<char>, source: UassetError },
    NoTextTables(Seq<char>),
}

impl View for ExtractError {
    type V = ExtractErrorV;

    open spec fn view(&self) -> ExtractErrorV {
        match self {
            ExtractError::Missing(e) => ExtractErrorV::Missing(e@),
            ExtractError::Uasset { entry, source } => ExtractErrorV::Uasset { entry: entry@, source: *source },
            ExtractError::NoTextTables(l) => ExtractErrorV::NoTextTables(l@),
        }
    }
}

/// An extraction error as a sentence.
pub open spec fn extract_message(e: ExtractErrorV) -> Seq<char> {
    match e {
        ExtractErrorV::Missing(entry) => "reading entry "@ + entry + ": not in the pak"@,
        ExtractErrorV::Uasset { entry, source } => "parsing "@ + entry + ": "@ + uasset_message(source),
        ExtractErrorV::NoTextTables(l) => "no text tables found for language "@ + debug_str(l)
            + " — is this a Palworld pak?"@,
    }
}

impl ExtractError {
    /// The error as a sentence.
    pub fn message(&self) -> (r: String)
        ensures
            r@ == extract_message(self@),
    {
        match self {
            ExtractError::Missing(entry) => {
                let mut s = String::from_str("reading entry ");
                s.append(entry.as_str());
                s.append(": not in the pak");
                s
            },
            ExtractError::Uasset { entry, source } => {
                let mut s = String::from_str("parsing ");
                s.append(entry.as_str());
                s.append(": ");
                s.append(source.message().as_str());
                s
            },
            ExtractError::NoTextTables(l) => {
                let mut s = String::from_str("no text tables found for language ");
                s.append(debug_quoted(l.as_str()).as_str());
                s.append(" — is this a Palworld pak?");
                s
            },
        }
    }
}

/// The bytes of pak entry `k`, if the pak has it.
pub open spec fn table_bytes(tables: Map<Seq<char>, Vec<u8>>, k: Seq<char>) -> Option<Seq<u8>> {
    if tables.contains_key(k) {
        Some(tables[k]@)
    } else {
        None
    }
}

/// The name table of the package `base`; none when the pak lacks it.
pub open spec fn package_names_at(tables: Map<Seq<char>, Vec<u8>>, base: Seq<char>) -> Result<
    Seq<Seq<char>>,
    ExtractErrorV,
> {
    let k = base + ".uasset"@;
    match table_bytes(tables, k) {
        None => Ok(Seq::empty()),
        Some(b) => match summary_at(b) {
            Ok((s, _, _)) => Ok(s.names),
            Err(e) => Err(ExtractErrorV::Uasset { entry: k, source: e }),
        },
    }
}

/// The name tables of a base table and its companion, in that order.
pub open spec fn table_pair_names(tables: Map<Seq<char>, Vec<u8>>, a: Seq<char>, b: Seq<char>) -> Result<
    Seq<Seq<char>>,
    ExtractErrorV,
> {
    match package_names_at(tables, a) {
        Err(e) => Err(e),
        Ok(x) => match package_names_at(tables, b) {
            Err(e) => Err(e),
            Ok(y) => Ok(x + y),
        },
    }
}

/// Where a text table's rows are in the pak.
pub open spec fn text_entry_path(root: Seq<char>, name: Seq<char>) -> Seq<char> {
    root + "/"@ + name + ".uexp"@
}

/// The rows of text table `name` under `root`.
pub open spec fn text_table_at(tables: Map<Seq<char>, Vec<u8>>, root: Seq<char>, name: &str) -> Result<
    Seq<TextEntryV>,
    ExtractErrorV,
> {
    let k = text_entry_path(root, name@);
    match table_bytes(tables, k) {
        None => Err(ExtractErrorV::Missing(k)),
        Some(b) => Ok(text_rows(b, encoded_fstring(name.spec_bytes()), 0, Set::empty())),
    }
}

/// `r` with one more warning.
pub open spec fn warned(r: ReferenceIndexV, w: Seq<char>) -> ReferenceIndexV {
    ReferenceIndexV { warnings: r.warnings.push(w), ..r }
}

/// Whether the pak holds both halves of the table `base`.
pub open spec fn table_present(tables: Map<Seq<char>, Vec<u8>>, base: Seq<char>) -> bool {
    table_bytes(tables, base + ".uasset"@) is Some && table_bytes(tables, base + ".uexp"@) is Some
}

/// `r` with a warning when the pak holds neither monster parameter table,
/// so that a game patch that moves them shows instead of passing silently.
pub open spec fn parameters_missing(r: ReferenceIndexV, tables: Map<Seq<char>, Vec<u8>>) -> ReferenceIndexV {
    if !table_present(tables, MONSTER_PARAMETERS@) && !table_present(tables, MONSTER_PARAMETERS_COMMON@) {
        warned(r, MONSTER_PARAMETERS@ + " is missing from the pak"@)
    } else {
        r
    }
}

/// One monster parameter table applied: skipped when absent (the two tables
/// together are checked by [`parameters_missing`]), a warning when it does
/// not decode.
pub open spec fn parameter_table(
    r: ReferenceIndexV,
    best: Map<Seq<char>, u8>,
    tables: Map<Seq<char>, Vec<u8>>,
    base: Seq<char>,
    u: UsmapV,
) -> (ReferenceIndexV, Map<Seq<char>, u8>) {
    match (table_bytes(tables, base + ".uasset"@), table_bytes(tables, base + ".uexp"@)) {
        (Some(a), Some(x)) => match datatable_at(a, x, u) {
            Ok(t) => params_in(r, best, t.rows),
            Err(e) => (warned(r, "reading "@ + base + ": "@ + datatable_message(e)), best),
        },
        _ => (r, best),
    }
}

/// The unique combos applied: a warning when the table is absent or does not
/// decode.
pub open spec fn unique_table(r: ReferenceIndexV, tables: Map<Seq<char>, Vec<u8>>, u: UsmapV) -> ReferenceIndexV {
    let base = COMBI_UNIQUE@;
    match (table_bytes(tables, base + ".uasset"@), table_bytes(tables, base + ".uexp"@)) {
        (Some(a), Some(x)) => match datatable_at(a, x, u) {
            Ok(t) => ReferenceIndexV { breeding: uniques_in(r.breeding, t.rows), ..r },
            Err(e) => warned(r, "reading "@ + base + ": "@ + datatable_message(e)),
        },
        _ => warned(r, base + " is missing from the pak"@),
    }
}

/// Parameters, stats and breeding rules from the parameter tables, and
/// whether the breeding rules are then settled. Failures here are warnings,
/// never errors: an unusable `.usmap` leaves them all out, and a missing or
/// undecodable table is reported and skipped, since names, classification
/// and artwork do not need them.
#[verifier::opaque]
pub open spec fn parameters_stage(r: ReferenceIndexV, tables: Map<Seq<char>, Vec<u8>>, mappings: Seq<u8>) -> (
    ReferenceIndexV,
    bool,
) {
    match usmap_at(mappings) {
        Err(e) => (warned(r, "Mappings.usmap is unusable: "@ + usmap_message(e)), false),
        Ok(u) => {
            let (r1, b1) = parameter_table(r, Map::empty(), tables, MONSTER_PARAMETERS@, u);
            let (r2, _) = parameter_table(r1, b1, tables, MONSTER_PARAMETERS_COMMON@, u);
            (unique_table(parameters_missing(r2, tables), tables, u), true)
        },
    }
}

/// An empty index in `language`.
pub open spec fn empty_index(language: Seq<char>) -> ReferenceIndexV {
    ReferenceIndexV {
        species: Map::empty(),
        pal_keys: Set::empty(),
        passives: Map::empty(),
        technologies: Map::empty(),
        items: Map::empty(),
        map_objects: Map::empty(),
        element_names: Map::empty(),
        work_names: Map::empty(),
        work_order: Seq::empty(),
        human_npc_ids: Set::empty(),
        icon_paths: Map::empty(),
        language,
        breeding: BreedingIndexV {
            parents: Map::empty(),
            unique: Map::empty(),
            pool: Seq::empty(),
            ignored: Seq::empty(),
        },
        warnings: Seq::empty(),
    }
}

/// The UI labels applied; a warning when their table is missing.
pub open spec fn ui_stage(r: ReferenceIndexV, tables: Map<Seq<char>, Vec<u8>>, root: Seq<char>) -> ReferenceIndexV {
    match text_table_at(tables, root, UI_NAMES) {
        Err(e) => warned(r, "reading "@ + UI_NAMES@ + ": "@ + extract_message(e)),
        Ok(es) => {
            let after = ui_in(r.element_names, r.work_names, r.work_order, es);
            ReferenceIndexV { element_names: after.0, work_names: after.1, work_order: after.2, ..r }
        },
    }
}

/// Every table after the parameters: skills, items and map objects, then
/// technologies (whose names point into those), then the UI labels.
#[verifier::opaque]
pub open spec fn names_stage(r: ReferenceIndexV, tables: Map<Seq<char>, Vec<u8>>, root: Seq<char>) -> Result<
    ReferenceIndexV,
    ExtractErrorV,
> {
    match text_table_at(tables, root, SKILL_NAMES) {
        Err(e) => Err(e),
        Ok(sk) => {
            let r1 = ReferenceIndexV { passives: passives_named_in(r.passives, sk), ..r };
            match text_table_at(tables, root, ITEM_NAMES) {
                Err(e) => Err(e),
                Ok(it) => {
                    let r2 = ReferenceIndexV { items: named_in(r1.items, it, ITEM_NAME_PREFIX@), ..r1 };
                    match text_table_at(tables, root, MAP_OBJECT_NAMES) {
                        Err(e) => Err(e),
                        Ok(mo) => {
                            let r3 = ReferenceIndexV {
                                map_objects: named_in(r2.map_objects, mo, MAP_OBJECT_NAME_PREFIX@),
                                ..r2
                            };
                            match text_table_at(tables, root, TECH_NAMES) {
                                Err(e) => Err(e),
                                Ok(te) => {
                                    let r4 = ReferenceIndexV {
                                        technologies: named_in(r3.technologies, te, TECH_NAME_PREFIX@),
                                        ..r3
                                    };
                                    Ok(ui_stage(r4, tables, root))
                                },
                            }
                        },
                    }
                },
            }
        },
    }
}

/// What extraction makes of a pak's tables and file list: the index (its
/// breeding rules not yet settled) and whether they are then settled, or the
/// first error. In order: icons from the file list; the monster and then the
/// human parameter tables' names as Pal and NPC keys; the species names,
/// which must be there and not empty; the parameters and breeding rules;
/// then the remaining names.
pub open spec fn extract_outcome(
    tables: Map<Seq<char>, Vec<u8>>,
    files: Seq<Seq<char>>,
    language: Seq<char>,
    mappings: Seq<u8>,
) -> Result<(ReferenceIndexV, bool), ExtractErrorV> {
    let r0 = ReferenceIndexV { icon_paths: icons_in(Map::empty(), files), ..empty_index(language) };
    match table_pair_names(tables, MONSTER_PARAMETERS@, MONSTER_PARAMETERS_COMMON@) {
        Err(e) => Err(e),
        Ok(pn) => match table_pair_names(tables, HUMAN_PARAMETERS@, HUMAN_PARAMETERS_COMMON@) {
            Err(e) => Err(e),
            Ok(hn) => {
                let r1 = ReferenceIndexV {
                    pal_keys: r0.pal_keys.union(keys_of_names(pn)),
                    human_npc_ids: r0.human_npc_ids.union(keys_of_names(hn)),
                    ..r0
                };
                let root = text_root_of(language);
                match text_table_at(tables, root, PAL_NAMES) {
                    Err(e) => Err(e),
                    Ok(pal) => if pal.len() == 0 {
                        Err(ExtractErrorV::NoTextTables(language))
                    } else {
                        let r2 = ReferenceIndexV { species: species_named_in(r1.species, pal), ..r1 };
                        let (r3, finished) = parameters_stage(r2, tables, mappings);
                        match names_stage(r3, tables, root) {
                            Err(e) => Err(e),
                            Ok(r4) => Ok((r4, finished)),
                        }
                    },
                }
            },
        },
    }
}

/// A pak that holds neither monster parameter table still extracts when all
/// else is there, but never silently: the index it gives carries a warning.
pub proof fn lemma_missing_parameters_warned(
    tables: Map<Seq<char>, Vec<u8>>,
    files: Seq<Seq<char>>,
    language: Seq<char>,
    mappings: Seq<u8>,
)
    requires
        !table_present(tables, MONSTER_PARAMETERS@),
        !table_present(tables, MONSTER_PARAMETERS_COMMON@),
    ensures
        extract_outcome(tables, files, language, mappings) matches Ok((v, _)) ==> v.warnings.len() > 0,
{
    reveal(parameters_stage);
    reveal(names_stage);
}

/// What settling the breeding rules does: the pool sorted, the parents
/// nothing breeds into dropped, the unique combos kept.
pub open spec fn settled(before: BreedingIndexV, after: BreedingIndexV) -> bool {
    &&& after.pool.to_multiset() == before.pool.to_multiset()
    &&& sorted_pool(after.pool)
    &&& after.parents == before.parents.remove_keys(unbred(before))
    &&& after.unique == before.unique
    &&& after.ignored == Seq::<(Seq<char>, Seq<char>)>::empty()
}

fn entry_path(base: &str, ext: &str) -> (r: String)
    ensures
        r@ == base@ + ext@,
{
    let mut s = String::from_str(base);
    s.append(ext);
    s
}

fn package_names(tables: &StrMap<Vec<u8>>, base: &str) -> (r: Result<Vec<String>, ExtractError>)
    ensures
        match package_names_at(tables@, base@) {
            Ok(ns) => r matches Ok(v) && strings_v(v@) == ns,
            Err(e) => r matches Err(x) && x@ == e,
        },
{
    let k = entry_path(base, ".uasset");
    match tables.get(k.as_str()) {
        None => {
            let v: Vec<String> = Vec::new();
            proof {
                assert(strings_v(v@) =~= Seq::<Seq<char>>::empty());
            }
            Ok(v)
        },
        Some(bytes) => match parse_summary(bytes.as_slice()) {
            Ok(summary) => Ok(summary.names),
            Err(e) => Err(ExtractError::Uasset { entry: k, source: e }),
        },
    }
}

fn pair_names(tables: &StrMap<Vec<u8>>, a: &str, b: &str) -> (r: Result<Vec<String>, ExtractError>)
    ensures
        match table_pair_names(tables@, a@, b@) {
            Ok(ns) => r matches Ok(v) && strings_v(v@) == ns,
            Err(e) => r matches Err(x) && x@ == e,
        },
{
    let mut x = package_names(tables, a)?;
    let mut y = package_names(tables, b)?;
    let ghost (x0, y0) = (x@, y@);
    x.append(&mut y);
    proof {
        assert(strings_v(x0 + y0) =~= strings_v(x0) + strings_v(y0));
    }
    Ok(x)
}

proof fn lemma_ascii_name_len(s: &str)
    requires
        vstd::string::is_ascii(s),
        s@.len() < 100,
    ensures
        s.spec_bytes().len() < 0x7fff_ffff,
{
    broadcast use vstd::string::is_ascii_spec_bytes;

}

fn text_table(tables: &StrMap<Vec<u8>>, root: &str, name: &str) -> (r: Result<Vec<TextEntry>, ExtractError>)
    requires
        name.spec_bytes().len() < 0x7fff_ffff,
    ensures
        match text_table_at(tables@, root@, name) {
            Ok(es) => r matches Ok(v) && entries_v(v@) == es,
            Err(e) => r matches Err(x) && x@ == e,
        },
{
    let k = text_path(root, name);
    match tables.get(k.as_str()) {
        None => Err(ExtractError::Missing(k)),
        Some(bytes) => match crate::data::text_table::parse(bytes.as_slice(), name) {
            Ok(v) => Ok(v),
            Err(e) => Err(ExtractError::Uasset { entry: k, source: e }),
        },
    }
}

fn warn_reading(index: &mut ReferenceIndex, base: &str, e: &DataTableError)
    ensures
        final(index)@ == warned(old(index)@, "reading "@ + base@ + ": "@ + datatable_message(e@)),
{
    let mut w = String::from_str("reading ");
    w.append(base);
    w.append(": ");
    w.append(e.message().as_str());
    index.warn(w);
}

fn apply_parameter_table(
    index: &mut ReferenceIndex,
    best: &mut StrMap<u8>,
    tables: &StrMap<Vec<u8>>,
    base: &str,
    usmap: &Usmap,
)
    ensures
        (final(index)@, final(best)@) == parameter_table(old(index)@, old(best)@, tables@, base@, usmap@),
{
    let ka = entry_path(base, ".uasset");
    let kx = entry_path(base, ".uexp");
    match (tables.get(ka.as_str()), tables.get(kx.as_str())) {
        (Some(a), Some(x)) => match crate::data::datatable::read(a.as_slice(), x.as_slice(), usmap) {
            Ok(t) => index.apply_parameter_rows(t.rows.as_slice(), best),
            Err(e) => warn_reading(index, base, &e),
        },
        _ => {},
    }
}

/// Whether the pak holds both halves of the table `base`.
fn has_table(tables: &StrMap<Vec<u8>>, base: &str) -> (b: bool)
    ensures
        b == table_present(tables@, base@),
{
    let ka = entry_path(base, ".uasset");
    let kx = entry_path(base, ".uexp");
    tables.get(ka.as_str()).is_some() && tables.get(kx.as_str()).is_some()
}

fn apply_unique_table(index: &mut ReferenceIndex, tables: &StrMap<Vec<u8>>, usmap: &Usmap)
    ensures
        final(index)@ == unique_table(old(index)@, tables@, usmap@),
{
    let ka = entry_path(COMBI_UNIQUE, ".uasset");
    let kx = entry_path(COMBI_UNIQUE, ".uexp");
    match (tables.get(ka.as_str()), tables.get(kx.as_str())) {
        (Some(a), Some(x)) => match crate::data::datatable::read(a.as_slice(), x.as_slice(), usmap) {
            Ok(t) => index.apply_unique_rows(t.rows.as_slice()),
            Err(e) => warn_reading(index, COMBI_UNIQUE, &e),
        },
        _ => {
            let mut w = String::from_str(COMBI_UNIQUE);
            w.append(" is missing from the pak");
            index.warn(w);
        },
    }
}

/// The parameter stage run on `index`.
fn apply_parameters(index: &mut ReferenceIndex, tables: &StrMap<Vec<u8>>, mappings: &[u8]) -> (finished: bool)
    ensures
        ({
            let (v, f) = parameters_stage(old(index)@, tables@, mappings@);
            &&& finished == f
            &&& final(index)@ == (ReferenceIndexV { breeding: final(index)@.breeding, ..v })
            &&& if f {
                settled(v.breeding, final(index)@.breeding)
            } else {
                final(index)@.breeding == v.breeding
            }
        }),
{
    proof {
        reveal(parameters_stage);
    }
    match Usmap::parse(mappings) {
        Err(e) => {
            let mut w = String::from_str("Mappings.usmap is unusable: ");
            w.append(e.message().as_str());
            index.warn(w);
            false
        },
        Ok(usmap) => {
            let mut best: StrMap<u8> = StrMap::new();
            proof {
                assert(best@ == Map::<Seq<char>, u8>::empty());
            }
            apply_parameter_table(index, &mut best, tables, MONSTER_PARAMETERS, &usmap);
            apply_parameter_table(index, &mut best, tables, MONSTER_PARAMETERS_COMMON, &usmap);
            if !has_table(tables, MONSTER_PARAMETERS) && !has_table(tables, MONSTER_PARAMETERS_COMMON) {
                let mut w = String::from_str(MONSTER_PARAMETERS);
                w.append(" is missing from the pak");
                index.warn(w);
            }
            apply_unique_table(index, tables, &usmap);
            index.finish_breeding();
            true
        },
    }
}

/// The name tables after the parameters, run on `index`.
#[verifier::spinoff_prover]
#[verifier::rlimit(100)]
fn apply_names(index: &mut ReferenceIndex, tables: &StrMap<Vec<u8>>, root: &str) -> (r: Result<(), ExtractError>)
    ensures
        match names_stage(old(index)@, tables@, root@) {
            Ok(v) => r is Ok && final(index)@ == v,
            Err(e) => r matches Err(x) && x@ == e,
        },
{
    proof {
        reveal(names_stage);
        reveal_strlit("DT_SkillNameText_Common");
        reveal_strlit("DT_TechnologyNameText_Common");
        reveal_strlit("DT_ItemNameText_Common");
        reveal_strlit("DT_MapObjectNameText_Common");
        reveal_strlit("DT_UI_Common_Text_Common");
        lemma_ascii_name_len(SKILL_NAMES);
        lemma_ascii_name_len(TECH_NAMES);
        lemma_ascii_name_len(ITEM_NAMES);
        lemma_ascii_name_len(MAP_OBJECT_NAMES);
        lemma_ascii_name_len(UI_NAMES);
    }
    let skills = text_table(tables, root, SKILL_NAMES)?;
    index.apply_skill_names(skills.as_slice());
    let items = text_table(tables, root, ITEM_NAMES)?;
    index.apply_item_names(items.as_slice());
    let objects = text_table(tables, root, MAP_OBJECT_NAMES)?;
    index.apply_map_object_names(objects.as_slice());
    let techs = text_table(tables, root, TECH_NAMES)?;
    index.apply_technology_names(techs.as_slice());
    match text_table(tables, root, UI_NAMES) {
        Ok(entries) => index.apply_ui_labels(entries.as_slice()),
        Err(e) => {
            let mut w = String::from_str("reading ");
            w.append(UI_NAMES);
            w.append(": ");
            w.append(e.message().as_str());
            index.warn(w);
        },
    }
    Ok(())
}

/// The name stage does not read the breeding rules, nor change them.
proof fn lemma_names_stage_breeding(r: ReferenceIndexV, b: BreedingIndexV, tables: Map<Seq<char>, Vec<u8>>, root: Seq<char>)
    ensures
        names_stage(ReferenceIndexV { breeding: b, ..r }, tables, root) == match names_stage(r, tables, root) {
            Ok(v) => Ok::<ReferenceIndexV, ExtractErrorV>(ReferenceIndexV { breeding: b, ..v }),
            Err(e) => Err(e),
        },
{
    reveal(names_stage);
}

/// Extract the reference index from a pak: `tables` holds the pak's entries
/// by path (an entry [`extract`] reads and the pak lacks is simply absent;
/// see [`reference_entries`]), `files` lists every entry path, display names
/// are in `language`, and `mappings` is the `.usmap` the parameter tables
/// decode against. Missing species names, and a missing skill, item,
/// map-object or technology table, are errors; the parameter tables, the
/// unique combos and the UI labels only warn.
#[verifier::rlimit(50)]
pub fn extract(tables: &StrMap<Vec<u8>>, files: &[String], language: &str, mappings: &[u8]) -> (r: Result<
    ReferenceIndex,
    ExtractError,
>)
    ensures
        match extract_outcome(tables@, strings_v(files@), language@, mappings@) {
            Err(e) => r matches Err(x) && x@ == e,
            Ok((v, finished)) => r matches Ok(index) && index@ == (ReferenceIndexV { breeding: index@.breeding, ..v })
                && if finished {
                settled(v.breeding, index@.breeding)
            } else {
                index@.breeding == v.breeding
            },
        },
{
    proof {
        reveal_strlit("DT_PalNameText_Common");
        lemma_ascii_name_len(PAL_NAMES);
    }
    let mut index = ReferenceIndex::with_language(language);
    proof {
        assert(index@ == empty_index(language@));
    }
    index.apply_icons(files);
    let ghost r0 = index@;
    assert(r0 == (ReferenceIndexV { icon_paths: icons_in(Map::empty(), strings_v(files@)), ..empty_index(language@) }));
    let pal_names = pair_names(tables, MONSTER_PARAMETERS, MONSTER_PARAMETERS_COMMON)?;
    let human_names = pair_names(tables, HUMAN_PARAMETERS, HUMAN_PARAMETERS_COMMON)?;
    index.add_pal_keys(pal_names.as_slice());
    index.add_human_npcs(human_names.as_slice());
    let ghost r1 = index@;
    assert(r1 == (ReferenceIndexV {
        pal_keys: r0.pal_keys.union(keys_of_names(strings_v(pal_names@))),
        human_npc_ids: r0.human_npc_ids.union(keys_of_names(strings_v(human_names@))),
        ..r0
    }));
    let root = text_root(language);
    let pal_text = text_table(tables, root.as_str(), PAL_NAMES)?;
    if pal_text.len() == 0 {
        return Err(ExtractError::NoTextTables(language.to_owned()));
    }
    index.apply_pal_names(pal_text.as_slice());
    let ghost r2 = index@;
    assert(r2 == (ReferenceIndexV { species: species_named_in(r1.species, entries_v(pal_text@)), ..r1 }));
    let finished = apply_parameters(&mut index, tables, mappings);
    let ghost r3 = index@;
    let ghost v = parameters_stage(r2, tables@, mappings@).0;
    proof {
        assert(r3 == (ReferenceIndexV { breeding: r3.breeding, ..v }));
        lemma_names_stage_breeding(v, r3.breeding, tables@, root@);
        lemma_names_stage_breeding(v, v.breeding, tables@, root@);
        assert((ReferenceIndexV { breeding: v.breeding, ..v }) == v);
    }
    let res = apply_names(&mut index, tables, root.as_str());
    match res {
        Ok(()) => {
            proof {
                let v4 = names_stage(v, tables@, root@)->Ok_0;
                assert(v4.breeding == v.breeding);
                assert(index@ == (ReferenceIndexV { breeding: index@.breeding, ..v4 }));
            }
            Ok(index)
        },
        Err(e) => Err(e),
    }
}

/// Every pak entry [`extract`] may read for `language`.
pub open spec fn reference_entries_of(language: Seq<char>) -> Seq<Seq<char>> {
    let root = text_root_of(language);
    seq![
        MONSTER_PARAMETERS@ + ".uasset"@,
        MONSTER_PARAMETERS@ + ".uexp"@,
        MONSTER_PARAMETERS_COMMON@ + ".uasset"@,
        MONSTER_PARAMETERS_COMMON@ + ".uexp"@,
        COMBI_UNIQUE@ + ".uasset"@,
        COMBI_UNIQUE@ + ".uexp"@,
        HUMAN_PARAMETERS@ + ".uasset"@,
        HUMAN_PARAMETERS_COMMON@ + ".uasset"@,
        text_entry_path(root, PAL_NAMES@),
        text_entry_path(root, SKILL_NAMES@),
        text_entry_path(root, ITEM_NAMES@),
        text_entry_path(root, MAP_OBJECT_NAMES@),
        text_entry_path(root, TECH_NAMES@),
        text_entry_path(root, UI_NAMES@),
    ]
}

fn text_path(root: &str, name: &str) -> (r: String)
    ensures
        r@ == text_entry_path(root@, name@),
{
    let mut k = String::from_str(root);
    k.append("/");
    k.append(name);
    k.append(".uexp");
    k
}

/// Every pak entry [`extract`] may read for `language`: the parameter and
/// combo tables, and the text tables, in the order it reads them.
pub fn reference_entries(language: &str) -> (r: Vec<String>)
    ensures
        strings_v(r@) == reference_entries_of(language@),
{
    let root = text_root(language);
    let r = vec![
        entry_path(MONSTER_PARAMETERS, ".uasset"),
        entry_path(MONSTER_PARAMETERS, ".uexp"),
        entry_path(MONSTER_PARAMETERS_COMMON, ".uasset"),
        entry_path(MONSTER_PARAMETERS_COMMON, ".uexp"),
        entry_path(COMBI_UNIQUE, ".uasset"),
        entry_path(COMBI_UNIQUE, ".uexp"),
        entry_path(HUMAN_PARAMETERS, ".uasset"),
        entry_path(HUMAN_PARAMETERS_COMMON, ".uasset"),
        text_path(root.as_str(), PAL_NAMES),
        text_path(root.as_str(), SKILL_NAMES),
        text_path(root.as_str(), ITEM_NAMES),
        text_path(root.as_str(), MAP_OBJECT_NAMES),
        text_path(root.as_str(), TECH_NAMES),
        text_path(root.as_str(), UI_NAMES),
    ];
    proof {
        assert(strings_v(r@) =~= reference_entries_of(language@));
    }
    r
}

/// The languages the pak ships text tables for. Japanese, the source
/// language, keeps its tables outside `L10N/` (see [`text_root`]).
pub open spec fn shipped_languages() -> Seq<Seq<char>> {
    seq!["en"@, "de"@, "es"@, "es-MX"@, "fr"@, "id"@, "it"@, "ja"@, "ko"@, "pl"@, "pt-BR"@, "ru"@, "th"@, "tr"@, "vi"@, "zh-Hans"@, "zh-Hant"@]
}

/// The languages the pak ships text tables for.
pub fn text_languages() -> (r: Vec<&'static str>)
    ensures
        r@.map_values(|s: &str| s@) == shipped_languages(),
{
    let r = vec!["en", "de", "es", "es-MX", "fr", "id", "it", "ja", "ko", "pl", "pt-BR", "ru", "th", "tr", "vi", "zh-Hans", "zh-Hant"];
    proof {
        assert(r@.map_values(|s: &str| s@) =~= shipped_languages());
    }
    r
}

} // verus!
