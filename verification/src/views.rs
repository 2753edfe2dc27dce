//! The shapes the desktop front end renders, and the joins that fill them
//! from a world's stored facts and the pak's reference data.

use vstd::prelude::*;

use crate::assoc::StrMap;
use crate::data::breeding::child_spec;
use crate::data::extract::{normalized, ReferenceIndex, ReferenceIndexV};
use crate::data::reference::{dex_label_of, decimal, decimal_digits, ReferenceData, Species, SpeciesV};
use crate::data::uasset::strings_v;
use crate::locate::{SaveRoot, World};
use crate::assoc::{as_map, distinct_keys, lemma_as_map_dom, lemma_as_map_index};
use crate::order::{lemma_insert_sorted, sorted_by};
use crate::text::{ascii_lowercase, eq_ignore_ascii_case, lemma_lex_total, lemma_lex_transitive, lex_le, push_char, str_le};

verus! {

broadcast use vstd::seq_lib::group_to_multiset_ensures;

/// Whose progress a query reports: every player in the world aggregated, or
/// one player by `player_uid`. Capture counts, bonuses, tech and quests are
/// earned per player, so aggregating them has to be asked for by name.
#[derive(Debug, Clone, Copy, PartialEq, Eq)]
pub enum PlayerScope<'a> {
    All,
    Only(&'a str),
}

impl<'a> PlayerScope<'a> {
    /// The uid to bind, when this scope narrows to one player.
    pub fn uid(self) -> (r: Option<&'a str>)
        ensures
            match self {
                PlayerScope::All => r is None,
                PlayerScope::Only(u) => r == Some(u),
            },
    {
        match self {
            PlayerScope::All => None,
            PlayerScope::Only(uid) => Some(uid),
        }
    }

    /// The extra `AND player_uid = ?n` clause this scope needs, bound to the
    /// caller's next free parameter index.
    pub fn clause(self, index: usize) -> (r: String)
        ensures
            r@ == match self {
                PlayerScope::All => Seq::<char>::empty(),
                PlayerScope::Only(_) => " AND player_uid = ?"@ + decimal(index as nat),
            },
    {
        match self {
            PlayerScope::All => String::new(),
            PlayerScope::Only(_) => {
                let mut s = String::from_str(" AND player_uid = ?");
                let digits = decimal_digits(index as u64);
                let ghost head = s@;
                let mut i: usize = 0;
                while i < digits.len()
                    invariant
                        i <= digits@.len(),
                        s@ =~= head + digits@.take(i as int),
                    decreases digits@.len() - i,
                {
                    push_char(&mut s, digits[i]);
                    i += 1;
                }
                proof {
                    assert(digits@.take(digits@.len() as int) =~= digits@);
                }
                s
            },
        }
    }
}

/// Turn the front end's optional uid into a scope: an absent or empty uid is
/// every player.
pub fn player_scope(player_uid: Option<&str>) -> (r: PlayerScope<'_>)
    ensures
        match player_uid {
            Some(u) => if u@.len() > 0 {
                r == PlayerScope::Only(u)
            } else {
                r == PlayerScope::All
            },
            None => r == PlayerScope::All,
        },
{
    match player_uid {
        Some(uid) => if uid.unicode_len() > 0 {
            PlayerScope::Only(uid)
        } else {
            PlayerScope::All
        },
        None => PlayerScope::All,
    }
}

/// Whether Pals with no owner (base-camp workers) count as part of the
/// roster being asked for. Orthogonal to [`PlayerScope`]: a base Pal belongs
/// to the guild, not a player.
#[derive(Debug, Clone, Copy, PartialEq, Eq, Structural)]
pub enum BasePals {
    Include,
    Exclude,
}

/// Every screen's "base pals too" switch, which defaults to on under every
/// scope.
pub fn base_pals(wanted: Option<bool>) -> (r: BasePals)
    ensures
        r == (if wanted != Some(false) {
            BasePals::Include
        } else {
            BasePals::Exclude
        }),
{
    match wanted {
        Some(false) => BasePals::Exclude,
        _ => BasePals::Include,
    }
}

/// An unresolved id is shown as-is rather than blanked.
pub fn resolve_or_id(resolved: Option<&str>, id: &str) -> (r: String)
    ensures
        r@ == match resolved {
            Some(s) => s@,
            None => id@,
        },
{
    match resolved {
        Some(s) => s.to_owned(),
        None => id.to_owned(),
    }
}

/// The label a lookup map gives `id`, matched case-insensitively, or `id`
/// itself.
pub open spec fn label_or_id(m: Map<Seq<char>, Seq<char>>, id: Seq<char>) -> Seq<char> {
    if m.contains_key(ascii_lowercase(id)) {
        m[ascii_lowercase(id)]
    } else {
        id
    }
}

/// One of a species' elements: its internal enum name, which the interface
/// colours by, and the label the game shows.
#[derive(Debug, Clone)]
pub struct ElementView {
    pub id: String,
    pub name: String,
}

/// [`ElementView`] as values.
pub struct ElementViewV {
    pub id: Seq<char>,
    pub name: Seq<char>,
}

impl View for ElementView {
    type V = ElementViewV;

    open spec fn view(&self) -> ElementViewV {
        ElementViewV { id: self.id@, name: self.name@ }
    }
}

pub open spec fn elements_v(v: Seq<ElementView>) -> Seq<ElementViewV> {
    v.map_values(|e: ElementView| e@)
}

/// The element views of a list of element enum names.
pub open spec fn element_list(r: ReferenceIndexV, ids: Seq<Seq<char>>) -> Seq<ElementViewV> {
    ids.map_values(|id: Seq<char>| ElementViewV { id, name: label_or_id(r.element_names, id) })
}

/// Pair each element enum name with its localized label.
#[verifier::loop_isolation(false)]
pub fn element_views(elements: &[String], reference: &ReferenceIndex) -> (r: Vec<ElementView>)
    ensures
        elements_v(r@) == element_list(reference@, strings_v(elements@)),
{
    proof {
        reference.lemma_view();
    }
    let mut out: Vec<ElementView> = Vec::new();
    let mut i: usize = 0;
    while i < elements.len()
        invariant
            i <= elements@.len(),
            elements_v(out@) =~= element_list(reference@, strings_v(elements@)).take(i as int),
        decreases elements@.len() - i,
    {
        let id = &elements[i];
        let name = resolve_or_id(reference.element_name(id.as_str()), id.as_str());
        let v = ElementView { id: id.clone(), name };
        proof {
            assert(strings_v(elements@)[i as int] == id@);
            assert(v@ == ElementViewV { id: id@, name: label_or_id(reference@.element_names, id@) });
        }
        proof {
            assert(elements_v(out@.push(v)) =~= elements_v(out@).push(v@));
        }
        out.push(v);
        i += 1;
    }
    proof {
        assert(element_list(reference@, strings_v(elements@)).take(elements@.len() as int) =~= element_list(
            reference@,
            strings_v(elements@),
        ));
    }
    out
}

/// A job a species can do, and how well.
#[derive(Debug, Clone)]
pub struct WorkSuitabilityView {
    pub id: String,
    pub name: String,
    pub level: u32,
}

/// [`WorkSuitabilityView`] as values.
pub struct WorkViewV {
    pub id: Seq<char>,
    pub name: Seq<char>,
    pub level: u32,
}

impl View for WorkSuitabilityView {
    type V = WorkViewV;

    open spec fn view(&self) -> WorkViewV {
        WorkViewV { id: self.id@, name: self.name@, level: self.level }
    }
}

pub open spec fn works_v(v: Seq<WorkSuitabilityView>) -> Seq<WorkViewV> {
    v.map_values(|w: WorkSuitabilityView| w@)
}

/// The position of `id` in the display order from `i` on, matched
/// case-insensitively; `usize::MAX` when it is not listed.
pub open spec fn rank_from(order: Seq<Seq<char>>, id: Seq<char>, i: int) -> int
    decreases order.len() - i,
{
    if i < 0 || i >= order.len() {
        usize::MAX as int
    } else if ascii_lowercase(order[i]) == ascii_lowercase(id) {
        i
    } else {
        rank_from(order, id, i + 1)
    }
}

/// Where a job sits in the game's display order.
pub open spec fn work_rank(order: Seq<Seq<char>>, id: Seq<char>) -> int {
    rank_from(order, id, 0)
}

/// Display order for work suitabilities: by the game's order, then by id.
pub open spec fn work_le(order: Seq<Seq<char>>, a: WorkViewV, b: WorkViewV) -> bool {
    work_rank(order, a.id) < work_rank(order, b.id) || (work_rank(order, a.id) == work_rank(order, b.id)
        && lex_le(a.id, b.id))
}

pub open spec fn work_order_le(order: Seq<Seq<char>>) -> spec_fn(WorkViewV, WorkViewV) -> bool {
    |a: WorkViewV, b: WorkViewV| work_le(order, a, b)
}

/// The views of a species' work suitabilities: one per job, labelled.
pub open spec fn work_set(r: ReferenceIndexV, m: Map<Seq<char>, u32>) -> Set<WorkViewV> {
    Set::new(
        |v: WorkViewV| m.contains_key(v.id) && v.level == m[v.id] && v.name == label_or_id(r.work_names, v.id),
    )
}

/// `s` lists the work suitabilities `m` once each, in display order.
pub open spec fn is_work_list(r: ReferenceIndexV, m: Map<Seq<char>, u32>, s: Seq<WorkViewV>) -> bool {
    &&& s.no_duplicates()
    &&& s.to_set() == work_set(r, m)
    &&& sorted_by(s, work_order_le(r.work_order))
}

/// The view of the `k`th job of a work suitability list.
pub open spec fn pair_work(names: Map<Seq<char>, Seq<char>>, ps: Seq<(Seq<char>, u32)>, k: int) -> WorkViewV {
    WorkViewV { id: ps[k].0, name: label_or_id(names, ps[k].0), level: ps[k].1 }
}

/// Where `id` sits in `order`, matched case-insensitively, or `usize::MAX`.
fn rank_in(order: &[String], id: &str) -> (r: usize)
    ensures
        r as int == work_rank(strings_v(order@), id@),
{
    let ghost so = strings_v(order@);
    let mut i: usize = 0;
    while i < order.len()
        invariant
            so == strings_v(order@),
            i <= order@.len(),
            rank_from(so, id@, i as int) == rank_from(so, id@, 0),
        decreases order@.len() - i,
    {
        if eq_ignore_ascii_case(order[i].as_str(), id) {
            return i;
        }
        i += 1;
    }
    usize::MAX
}

proof fn lemma_work_transitive(order: Seq<Seq<char>>, a: WorkViewV, b: WorkViewV, c: WorkViewV)
    requires
        work_le(order, a, b),
        work_le(order, b, c),
    ensures
        work_le(order, a, c),
{
    if work_rank(order, a.id) == work_rank(order, b.id) && work_rank(order, b.id) == work_rank(order, c.id) {
        lemma_lex_transitive(a.id, b.id, c.id);
    }
}

/// A species' work suitabilities, labelled, in the game's own display order;
/// jobs the order table does not list come after the listed ones.
#[verifier::loop_isolation(false)]
pub fn work_views(species: &Species, reference: &ReferenceIndex) -> (r: Vec<WorkSuitabilityView>)
    ensures
        is_work_list(reference@, species@.work_suitabilities, works_v(r@)),
{
    proof {
        reference.lemma_view();
    }
    let order = reference.work_suitability_order();
    let ghost so = strings_v(order@);
    let ghost le = work_order_le(so);
    let n = species.work_suitabilities.entry_count();
    let ghost ps = species.work_suitabilities.pairs();
    let ghost m = species@.work_suitabilities;
    let mut sorted: Vec<WorkSuitabilityView> = Vec::new();
    let mut i: usize = 0;
    proof {
        assert(works_v(sorted@) =~= Seq::<WorkViewV>::empty());
    }
    while i < n
        invariant
            n == ps.len(),
            i <= n,
            distinct_keys(ps),
            as_map(ps) == m,
            so == reference@.work_order,
            le == work_order_le(so),
            works_v(sorted@).len() == i,
            sorted_by(works_v(sorted@), le),
            forall|a: int, b: int|
                0 <= a < b < works_v(sorted@).len() ==> works_v(sorted@)[a].id != works_v(sorted@)[b].id,
            forall|v: WorkViewV|
                works_v(sorted@).contains(v) <==> (exists|k: int|
                    0 <= k < i && v == pair_work(reference@.work_names, ps, k)),
        decreases n - i,
    {
        let key = species.work_suitabilities.key_at(i);
        let level = *species.work_suitabilities.value_at(i);
        let name = resolve_or_id(reference.work_suitability_name(key), key);
        let w = WorkSuitabilityView { id: key.to_owned(), name, level };
        let rank = rank_in(order, key);
        let ghost sv = works_v(sorted@);
        proof {
            assert(w@ == pair_work(reference@.work_names, ps, i as int));
        }
        let mut p: usize = 0;
        while p < sorted.len()
            invariant
                sv == works_v(sorted@),
                p <= sv.len(),
                forall|k: int| 0 <= k < p ==> work_le(so, #[trigger] sv[k], w@),
            decreases sv.len() - p,
        {
            let other_rank = rank_in(order, sorted[p].id.as_str());
            let before = rank < other_rank || (rank == other_rank && !str_le(sorted[p].id.as_str(), key));
            proof {
                assert(sv[p as int] == sorted@[p as int]@);
                lemma_lex_total(sv[p as int].id, w@.id);
            }
            if before {
                break;
            }
            p += 1;
        }
        proof {
            assert forall|k: int| p <= k < sv.len() implies work_le(so, w@, #[trigger] sv[k]) by {
                if p < sv.len() {
                    assert(work_le(so, w@, sv[p as int]));
                    if k > p {
                        assert(le(sv[p as int], sv[k]));
                        lemma_work_transitive(so, w@, sv[p as int], sv[k]);
                    }
                }
            }
            assert forall|k: int| 0 <= k < p implies le(#[trigger] sv[k], w@) by {
                assert(work_le(so, sv[k], w@));
            }
            assert forall|k: int| p <= k < sv.len() implies le(w@, #[trigger] sv[k]) by {
                assert(work_le(so, w@, sv[k]));
            }
            lemma_insert_sorted(sv, p as int, w@, le);
            assert(works_v(sorted@.insert(p as int, w)) =~= sv.insert(p as int, w@));
            // the new id is not among the earlier ones
            assert forall|k: int| 0 <= k < sv.len() implies sv[k].id != w@.id by {
                assert(sv.contains(sv[k]));
                let j = choose|j: int|
                    0 <= j < i && sv[k] == pair_work(reference@.work_names, ps, j);
                assert(ps[j].0 != ps[i as int].0);
            }
            let t = sv.insert(p as int, w@);
            assert forall|a: int, b: int| 0 <= a < b < t.len() implies t[a].id != t[b].id by {
                if a < p && b < p {
                    assert(t[a] == sv[a] && t[b] == sv[b]);
                } else if a < p && b == p {
                    assert(t[a] == sv[a] && t[b] == w@);
                } else if a < p {
                    assert(t[a] == sv[a] && t[b] == sv[b - 1]);
                } else if a == p {
                    assert(t[a] == w@ && t[b] == sv[b - 1]);
                } else {
                    assert(t[a] == sv[a - 1] && t[b] == sv[b - 1]);
                }
            }
            assert forall|v: WorkViewV| t.contains(v) <==> (exists|k: int|
                0 <= k < i + 1 && v == pair_work(reference@.work_names, ps, k)) by {
                if t.contains(v) {
                    let q = choose|q: int| 0 <= q < t.len() && t[q] == v;
                    if q < p {
                        assert(sv[q] == v && sv.contains(v));
                    } else if q > p {
                        assert(sv[q - 1] == v && sv.contains(v));
                    }
                }
                if exists|k: int|
                    0 <= k < i + 1 && v == pair_work(reference@.work_names, ps, k) {
                    let k = choose|k: int|
                        0 <= k < i + 1 && v == pair_work(reference@.work_names, ps, k);
                    if k < i {
                        assert(sv.contains(v));
                        let q = choose|q: int| 0 <= q < sv.len() && sv[q] == v;
                        if q < p {
                            assert(t[q] == v);
                        } else {
                            assert(t[q + 1] == v);
                        }
                    } else {
                        assert(t[p as int] == v);
                    }
                }
            }
        }
        sorted.insert(p, w);
        i += 1;
    }
    proof {
        let sv = works_v(sorted@);
        assert(sv.no_duplicates());
        assert forall|v: WorkViewV| sv.to_set().contains(v) <==> work_set(reference@, m).contains(v) by {
            if sv.contains(v) {
                let k = choose|k: int|
                    0 <= k < n && v == pair_work(reference@.work_names, ps, k);
                lemma_as_map_index(ps, k);
            }
            if work_set(reference@, m).contains(v) {
                lemma_as_map_dom(ps, v.id);
                let k = choose|k: int| 0 <= k < ps.len() && ps[k].0 == v.id;
                lemma_as_map_index(ps, k);
                assert(v == pair_work(reference@.work_names, ps, k));
            }
        }
        assert(sv.to_set() =~= work_set(reference@, m));
    }
    sorted
}

/// A species' authored base stats: the per-species inputs the game combines
/// with level, IVs and souls.
#[derive(Debug, Clone, Copy, PartialEq, Eq, Structural)]
pub struct BaseStatsView {
    pub hp: u32,
    pub melee_attack: u32,
    pub shot_attack: u32,
    pub defense: u32,
    pub support: u32,
    pub craft_speed: u32,
}

/// One Pal in the roster.
#[derive(Debug, Clone)]
pub struct PalView {
    pub instance_id: String,
    pub character_id: String,
    /// Localized species name; `None` without reference data, in which case
    /// the interface falls back to `character_id`.
    pub display_name: Option<String>,
    pub elements: Vec<ElementView>,
    /// Species rarity tier; 0 without reference data.
    pub rarity: u32,
    pub owner: Option<String>,
    pub level: i64,
    pub rank: i64,
    pub soul_hp: i64,
    pub soul_attack: i64,
    pub soul_defense: i64,
    pub soul_craft_speed: i64,
    pub iv_hp: i64,
    pub iv_shot: i64,
    pub iv_defense: i64,
    pub gender: String,
    pub is_lucky: bool,
    pub is_boss: bool,
    pub is_predator: bool,
    pub nickname: Option<String>,
    pub location_kind: Option<String>,
    pub passives: Vec<String>,
    /// Localized passive names, parallel to `passives`, falling back to the
    /// raw id; empty without reference data.
    pub passive_names: Vec<String>,
    pub equipped_moves: Vec<String>,
    pub mastered_moves: Vec<String>,
}

/// The owner filter a roster query adds for a scope and a base-pal choice:
/// a base Pal has no owner, so including base Pals admits the ownerless rows
/// under either scope.
pub open spec fn owner_clause_spec(scope: PlayerScope, base_pals: BasePals) -> Seq<char> {
    match (scope, base_pals) {
        (PlayerScope::All, BasePals::Include) => ""@,
        (PlayerScope::All, BasePals::Exclude) => " AND owner IS NOT NULL"@,
        (PlayerScope::Only(_), BasePals::Include) => " AND (owner = ?2 OR owner IS NULL)"@,
        (PlayerScope::Only(_), BasePals::Exclude) => " AND owner = ?2"@,
    }
}

/// The owner filter of a roster query, its uid bound as the second
/// parameter.
pub fn roster_owner_clause(scope: PlayerScope, base_pals: BasePals) -> (r: &'static str)
    ensures
        r@ == owner_clause_spec(scope, base_pals),
{
    match (scope, base_pals) {
        (PlayerScope::All, BasePals::Include) => "",
        (PlayerScope::All, BasePals::Exclude) => " AND owner IS NOT NULL",
        (PlayerScope::Only(_), BasePals::Include) => " AND (owner = ?2 OR owner IS NULL)",
        (PlayerScope::Only(_), BasePals::Exclude) => " AND owner = ?2",
    }
}

/// The passives the rows give Pal `id`, in row order.
pub open spec fn passives_of(rows: Seq<(Seq<char>, Seq<char>)>, id: Seq<char>) -> Seq<Seq<char>>
    decreases rows.len(),
{
    if rows.len() == 0 {
        Seq::empty()
    } else {
        let rest = passives_of(rows.drop_last(), id);
        if rows.last().0 == id {
            rest.push(rows.last().1)
        } else {
            rest
        }
    }
}

/// The moves of `kind` the rows give Pal `id`, in row order.
pub open spec fn moves_of(rows: Seq<(Seq<char>, Seq<char>, Seq<char>)>, id: Seq<char>, kind: Seq<char>) -> Seq<
    Seq<char>,
>
    decreases rows.len(),
{
    if rows.len() == 0 {
        Seq::empty()
    } else {
        let rest = moves_of(rows.drop_last(), id, kind);
        if rows.last().0 == id && rows.last().2 == kind {
            rest.push(rows.last().1)
        } else {
            rest
        }
    }
}

pub open spec fn pair_rows_v(v: Seq<(String, String)>) -> Seq<(Seq<char>, Seq<char>)> {
    v.map_values(|r: (String, String)| (r.0@, r.1@))
}

pub open spec fn triple_rows_v(v: Seq<(String, String, String)>) -> Seq<(Seq<char>, Seq<char>, Seq<char>)> {
    v.map_values(|r: (String, String, String)| (r.0@, r.1@, r.2@))
}

/// `b` is roster row `a` with its passives and moves from the rows.
pub open spec fn with_rows(
    a: PalView,
    b: PalView,
    passive_rows: Seq<(Seq<char>, Seq<char>)>,
    move_rows: Seq<(Seq<char>, Seq<char>, Seq<char>)>,
) -> bool {
    &&& b == (PalView { passives: b.passives, equipped_moves: b.equipped_moves, mastered_moves: b.mastered_moves, ..a })
    &&& strings_v(b.passives@) == passives_of(passive_rows, a.instance_id@)
    &&& strings_v(b.equipped_moves@) == moves_of(move_rows, a.instance_id@, "equipped"@)
    &&& strings_v(b.mastered_moves@) == moves_of(move_rows, a.instance_id@, "mastered"@)
}

/// The second column of the rows whose first column is `id` and whose third
/// is `kind`, in row order.
fn column_for(rows: &[(String, String, String)], id: &str, kind: &str) -> (r: Vec<String>)
    ensures
        strings_v(r@) == moves_of(triple_rows_v(rows@), id@, kind@),
{
    let ghost rs = triple_rows_v(rows@);
    let mut out: Vec<String> = Vec::new();
    let mut i: usize = 0;
    proof {
        assert(strings_v(out@) =~= moves_of(rs.take(0), id@, kind@));
    }
    while i < rows.len()
        invariant
            i <= rows@.len(),
            rs == triple_rows_v(rows@),
            strings_v(out@) == moves_of(rs.take(i as int), id@, kind@),
        decreases rows@.len() - i,
    {
        proof {
            assert(rs.take(i + 1).drop_last() =~= rs.take(i as int));
            assert(rs.take(i + 1).last() == rs[i as int]);
        }
        let (row_id, value, row_kind) = &rows[i];
        if crate::text::str_eq(row_id.as_str(), id) && crate::text::str_eq(row_kind.as_str(), kind) {
            let v = value.clone();
            proof {
                assert(strings_v(out@.push(v)) =~= strings_v(out@).push(v@));
            }
            out.push(v);
        }
        i += 1;
    }
    proof {
        assert(rs.take(rows@.len() as int) =~= rs);
    }
    out
}

fn passives_for(rows: &[(String, String)], id: &str) -> (r: Vec<String>)
    ensures
        strings_v(r@) == passives_of(pair_rows_v(rows@), id@),
{
    let ghost rs = pair_rows_v(rows@);
    let mut out: Vec<String> = Vec::new();
    let mut i: usize = 0;
    proof {
        assert(strings_v(out@) =~= passives_of(rs.take(0), id@));
    }
    while i < rows.len()
        invariant
            i <= rows@.len(),
            rs == pair_rows_v(rows@),
            strings_v(out@) == passives_of(rs.take(i as int), id@),
        decreases rows@.len() - i,
    {
        proof {
            assert(rs.take(i + 1).drop_last() =~= rs.take(i as int));
            assert(rs.take(i + 1).last() == rs[i as int]);
        }
        let (row_id, value) = &rows[i];
        if crate::text::str_eq(row_id.as_str(), id) {
            let v = value.clone();
            proof {
                assert(strings_v(out@.push(v)) =~= strings_v(out@).push(v@));
            }
            out.push(v);
        }
        i += 1;
    }
    proof {
        assert(rs.take(rows@.len() as int) =~= rs);
    }
    out
}

/// Give each roster row its passives and its equipped and mastered moves,
/// from the snapshot's passive rows `(instance_id, passive_id)` and move rows
/// `(instance_id, move_id, kind)`, each in row order.
#[verifier::loop_isolation(false)]
pub fn attach_pal_rows(
    pals: &mut Vec<PalView>,
    passive_rows: &[(String, String)],
    move_rows: &[(String, String, String)],
)
    ensures
        final(pals)@.len() == old(pals)@.len(),
        forall|i: int|
            0 <= i < final(pals)@.len() ==> with_rows(
                old(pals)@[i],
                #[trigger] final(pals)@[i],
                pair_rows_v(passive_rows@),
                triple_rows_v(move_rows@),
            ),
{
    proof {
        reveal_strlit("equipped");
        reveal_strlit("mastered");
    }
    let ghost start = pals@;
    let mut i: usize = 0;
    while i < pals.len()
        invariant
            pals@.len() == start.len(),
            i <= pals@.len(),
            forall|j: int| i <= j < pals@.len() ==> pals@[j] == start[j],
            forall|j: int|
                0 <= j < i ==> with_rows(
                    start[j],
                    #[trigger] pals@[j],
                    pair_rows_v(passive_rows@),
                    triple_rows_v(move_rows@),
                ),
        decreases pals@.len() - i,
    {
        let passives = passives_for(passive_rows, pals[i].instance_id.as_str());
        let equipped = column_for(move_rows, pals[i].instance_id.as_str(), "equipped");
        let mastered = column_for(move_rows, pals[i].instance_id.as_str(), "mastered");
        let mut pal = pals.remove(i);
        pal.passives = passives;
        pal.equipped_moves = equipped;
        pal.mastered_moves = mastered;
        pals.insert(i, pal);
        i += 1;
    }
}

/// A character the reference data knows as a human NPC rather than a Pal.
pub open spec fn is_human(r: ReferenceIndexV, id: Seq<char>) -> bool {
    r.human_npc_ids.contains(normalized(id)) && !(r.species.contains_key(normalized(id)) || r.pal_keys.contains(
        normalized(id),
    ))
}

/// The roster without its human NPCs.
pub open spec fn kept_pals(r: ReferenceIndexV, ps: Seq<PalView>) -> Seq<PalView>
    decreases ps.len(),
{
    if ps.len() == 0 {
        Seq::empty()
    } else if is_human(r, ps.last().character_id@) {
        kept_pals(r, ps.drop_last())
    } else {
        kept_pals(r, ps.drop_last()).push(ps.last())
    }
}

/// The display name of a passive skill id, as stored or with the text
/// table's `PASSIVE_` prefix, or the id itself.
pub open spec fn passive_label(r: ReferenceIndexV, id: Seq<char>) -> Seq<char> {
    if r.passives.contains_key(id) {
        r.passives[id].display_name
    } else if r.passives.contains_key("PASSIVE_"@ + id) {
        r.passives["PASSIVE_"@ + id].display_name
    } else {
        id
    }
}

/// `b` is the roster row `a` with its species and passive names attached.
pub open spec fn enriched(r: ReferenceIndexV, a: PalView, b: PalView) -> bool {
    let key = normalized(a.character_id@);
    &&& b.instance_id == a.instance_id
    &&& b.character_id == a.character_id
    &&& b.owner == a.owner
    &&& b.level == a.level
    &&& b.rank == a.rank
    &&& b.soul_hp == a.soul_hp
    &&& b.soul_attack == a.soul_attack
    &&& b.soul_defense == a.soul_defense
    &&& b.soul_craft_speed == a.soul_craft_speed
    &&& b.iv_hp == a.iv_hp
    &&& b.iv_shot == a.iv_shot
    &&& b.iv_defense == a.iv_defense
    &&& b.gender == a.gender
    &&& b.is_lucky == a.is_lucky
    &&& b.is_boss == a.is_boss
    &&& b.is_predator == a.is_predator
    &&& b.nickname == a.nickname
    &&& b.location_kind == a.location_kind
    &&& b.passives == a.passives
    &&& b.equipped_moves == a.equipped_moves
    &&& b.mastered_moves == a.mastered_moves
    &&& if r.species.contains_key(key) {
        &&& b.display_name matches Some(n) && n@ == r.species[key].display_name
        &&& elements_v(b.elements@) == element_list(r, r.species[key].elements)
        &&& b.rarity == r.species[key].rarity
    } else {
        &&& b.display_name == a.display_name
        &&& b.elements == a.elements
        &&& b.rarity == a.rarity
    }
    &&& strings_v(b.passive_names@) == strings_v(a.passives@).map_values(|id: Seq<char>| passive_label(r, id))
}

/// Drop human NPCs from the roster and attach localized species and passive
/// names, plus the species facts the roster shows per Pal.
#[verifier::loop_isolation(false)]
pub fn enrich_roster(roster: &mut Vec<PalView>, reference: &ReferenceIndex)
    ensures
        final(roster)@.len() == kept_pals(reference@, old(roster)@).len(),
        forall|i: int|
            0 <= i < final(roster)@.len() ==> enriched(
                reference@,
                kept_pals(reference@, old(roster)@)[i],
                #[trigger] final(roster)@[i],
            ),
{
    proof {
        reference.lemma_view();
    }
    let ghost start = roster@;
    let ghost n = start.len();
    let mut src: Vec<PalView> = Vec::new();
    std::mem::swap(&mut src, roster);
    let mut rest: Vec<PalView> = Vec::new();
    while src.len() > 0
        invariant
            n == start.len(),
            src@.len() + rest@.len() == n,
            forall|j: int| 0 <= j < src@.len() ==> src@[j] == start[j],
            forall|j: int| 0 <= j < rest@.len() ==> rest@[j] == start[n - 1 - j],
        decreases src@.len(),
    {
        let p = src.pop().unwrap();
        rest.push(p);
    }
    let mut out: Vec<PalView> = Vec::new();
    proof {
        assert(start.take(0) =~= Seq::<PalView>::empty());
    }
    while rest.len() > 0
        invariant
            n == start.len(),
            rest@.len() <= n,
            forall|j: int| 0 <= j < rest@.len() ==> rest@[j] == start[n - 1 - j],
            out@.len() == kept_pals(reference@, start.take(n - rest@.len())).len(),
            forall|i: int|
                0 <= i < out@.len() ==> enriched(
                    reference@,
                    kept_pals(reference@, start.take(n - rest@.len()))[i],
                    #[trigger] out@[i],
                ),
        decreases rest@.len(),
    {
        let ghost done = n - rest@.len();
        let mut pal = rest.pop().unwrap();
        let ghost a = pal;
        proof {
            assert(start.take(done + 1).drop_last() =~= start.take(done));
            assert(start.take(done + 1).last() == a);
        }
        if reference.is_human_npc(pal.character_id.as_str()) {
            proof {
                assert(is_human(reference@, a.character_id@));
            }
            continue;
        }
        match reference.species(pal.character_id.as_str()) {
            Some(species) => {
                pal.display_name = Some(species.display_name.clone());
                pal.elements = element_views(species.elements.as_slice(), reference);
                pal.rarity = species.rarity;
            },
            None => {},
        }
        let mut names: Vec<String> = Vec::new();
        let mut k: usize = 0;
        while k < pal.passives.len()
            invariant
                pal.passives == a.passives,
                k <= pal.passives@.len(),
                strings_v(names@) =~= strings_v(pal.passives@).map_values(
                    |id: Seq<char>| passive_label(reference@, id),
                ).take(k as int),
            decreases pal.passives@.len() - k,
        {
            let id = &pal.passives[k];
            let name = match reference.passive(id.as_str()) {
                Some(p) => p.display_name.clone(),
                None => id.clone(),
            };
            proof {
                reveal_strlit("PASSIVE_");
                assert(strings_v(pal.passives@)[k as int] == id@);
                assert(name@ == passive_label(reference@, id@));
                assert(strings_v(names@.push(name)) =~= strings_v(names@).push(name@));
            }
            names.push(name);
            k += 1;
        }
        proof {
            assert(strings_v(pal.passives@).map_values(|id: Seq<char>| passive_label(reference@, id)).take(
                pal.passives@.len() as int,
            ) =~= strings_v(pal.passives@).map_values(|id: Seq<char>| passive_label(reference@, id)));
        }
        pal.passive_names = names;
        out.push(pal);
    }
    proof {
        assert(start.take(n as int) =~= start);
    }
    *roster = out;
}

/// Localized passive names, falling back to the raw ids when no reference
/// data supplied a name for each.
pub fn passive_labels(view: &PalView) -> (r: Vec<String>)
    ensures
        strings_v(r@) == if view.passive_names@.len() == view.passives@.len() {
            strings_v(view.passive_names@)
        } else {
            strings_v(view.passives@)
        },
{
    let source = if view.passive_names.len() == view.passives.len() {
        &view.passive_names
    } else {
        &view.passives
    };
    let mut out: Vec<String> = Vec::new();
    let mut i: usize = 0;
    while i < source.len()
        invariant
            i <= source@.len(),
            strings_v(out@) =~= strings_v(source@).take(i as int),
        decreases source@.len() - i,
    {
        proof {
            assert(strings_v(out@.push(source@[i as int])) =~= strings_v(out@).push(source@[i as int]@));
        }
        out.push(source[i].clone());
        i += 1;
    }
    proof {
        assert(strings_v(source@).take(source@.len() as int) =~= strings_v(source@));
    }
    out
}

/// One player's dex progress.
#[derive(Debug)]
pub struct DexProgressView {
    /// Species unlocked in the scope asked for.
    pub unlocked_species_count: i64,
    pub unlocked_species: Vec<String>,
    /// Paldeck entries: species that carry a Paldeck number; 0 without
    /// reference data.
    pub total_species_count: i64,
    pub entries: Vec<DexEntryView>,
}

/// A single species' dex state.
#[derive(Debug)]
pub struct DexEntryView {
    pub character_id: String,
    pub display_name: String,
    /// Paldeck number as the game shows it, e.g. `005B`.
    pub dex_label: Option<String>,
    pub caught: bool,
    pub capture_count: i64,
    /// Capture-bonus tier; 0 is "never caught".
    pub bonus_tier: i64,
    pub elements: Vec<ElementView>,
    pub rarity: u32,
    pub stats: Option<BaseStatsView>,
    pub work_suitabilities: Vec<WorkSuitabilityView>,
}

/// [`DexEntryView`] as values; work suitabilities as the set of them (each
/// entry lists them in display order).
pub struct DexEntryViewV {
    pub character_id: Seq<char>,
    pub display_name: Seq<char>,
    pub dex_label: Option<Seq<char>>,
    pub caught: bool,
    pub capture_count: i64,
    pub bonus_tier: i64,
    pub elements: Seq<ElementViewV>,
    pub rarity: u32,
    pub stats: Option<BaseStatsView>,
    pub works: Set<WorkViewV>,
}

impl View for DexEntryView {
    type V = DexEntryViewV;

    open spec fn view(&self) -> DexEntryViewV {
        DexEntryViewV {
            character_id: self.character_id@,
            display_name: self.display_name@,
            dex_label: crate::data::usmap::opt_string_v(self.dex_label),
            caught: self.caught,
            capture_count: self.capture_count,
            bonus_tier: self.bonus_tier,
            elements: elements_v(self.elements@),
            rarity: self.rarity,
            stats: self.stats,
            works: works_v(self.work_suitabilities@).to_set(),
        }
    }
}

pub open spec fn dex_entries_v(v: Seq<DexEntryView>) -> Seq<DexEntryViewV> {
    v.map_values(|e: DexEntryView| e@)
}

/// The Paldeck label an entry sorts by; empty when it has none.
pub open spec fn label_key(l: Option<Seq<char>>) -> Seq<char> {
    match l {
        Some(x) => x,
        None => Seq::empty(),
    }
}

/// Paldeck order: numbered entries by label, then unnumbered ones; ties by
/// display name.
pub open spec fn dex_le(la: Option<Seq<char>>, na: Seq<char>, lb: Option<Seq<char>>, nb: Seq<char>) -> bool {
    (la is Some && lb is None) || ((la is None) == (lb is None) && ((lex_le(label_key(la), label_key(lb))
        && label_key(la) != label_key(lb)) || (label_key(la) == label_key(lb) && lex_le(na, nb))))
}

/// The order a dex grid lists entries in: Paldeck order when `numbered`,
/// else by display name.
pub open spec fn entry_order(numbered: bool) -> spec_fn(DexEntryViewV, DexEntryViewV) -> bool {
    |a: DexEntryViewV, b: DexEntryViewV|
        if numbered {
            dex_le(a.dex_label, a.display_name, b.dex_label, b.display_name)
        } else {
            lex_le(a.display_name, b.display_name)
        }
}

proof fn lemma_dex_total(la: Option<Seq<char>>, na: Seq<char>, lb: Option<Seq<char>>, nb: Seq<char>)
    ensures
        dex_le(la, na, lb, nb) || dex_le(lb, nb, la, na),
{
    lemma_lex_total(label_key(la), label_key(lb));
    lemma_lex_total(na, nb);
}

proof fn lemma_dex_transitive(
    la: Option<Seq<char>>,
    na: Seq<char>,
    lb: Option<Seq<char>>,
    nb: Seq<char>,
    lc: Option<Seq<char>>,
    nc: Seq<char>,
)
    requires
        dex_le(la, na, lb, nb),
        dex_le(lb, nb, lc, nc),
    ensures
        dex_le(la, na, lc, nc),
{
    let (a, b, c) = (label_key(la), label_key(lb), label_key(lc));
    if (la is None) == (lb is None) && (lb is None) == (lc is None) {
        if lex_le(a, b) && lex_le(b, c) {
            lemma_lex_transitive(a, b, c);
            if a == c && a != b {
                crate::text::lemma_lex_antisymmetric(a, b);
            }
        }
        if a == b && b == c {
            lemma_lex_transitive(na, nb, nc);
        }
    }
}

/// Whether entry `a` goes no later than entry `b`.
fn entry_le(a: &DexEntryView, b: &DexEntryView, numbered: bool) -> (r: bool)
    ensures
        r == entry_order(numbered)(a@, b@),
{
    if !numbered {
        return str_le(a.display_name.as_str(), b.display_name.as_str());
    }
    match (&a.dex_label, &b.dex_label) {
        (Some(x), Some(y)) => if crate::text::str_eq(x.as_str(), y.as_str()) {
            str_le(a.display_name.as_str(), b.display_name.as_str())
        } else {
            str_le(x.as_str(), y.as_str())
        },
        (Some(_), None) => true,
        (None, Some(_)) => false,
        (None, None) => str_le(a.display_name.as_str(), b.display_name.as_str()),
    }
}

/// The entries in dex-grid order.
#[verifier::loop_isolation(false)]
fn sort_entries(entries: Vec<DexEntryView>, numbered: bool) -> (r: Vec<DexEntryView>)
    ensures
        dex_entries_v(r@).to_multiset() == dex_entries_v(entries@).to_multiset(),
        r@.to_multiset() == entries@.to_multiset(),
        sorted_by(dex_entries_v(r@), entry_order(numbered)),
{
    let ghost le = entry_order(numbered);
    let ghost all = dex_entries_v(entries@);
    let mut rest = entries;
    let mut sorted: Vec<DexEntryView> = Vec::new();
    proof {
        assert(dex_entries_v(sorted@) =~= Seq::<DexEntryViewV>::empty());
        assert(dex_entries_v(rest@).to_multiset().add(dex_entries_v(sorted@).to_multiset()) =~= all.to_multiset());
        assert(rest@.to_multiset().add(sorted@.to_multiset()) =~= entries@.to_multiset());
    }
    while rest.len() > 0
        invariant
            rest@.to_multiset().add(sorted@.to_multiset()) == entries@.to_multiset(),
            le == entry_order(numbered),
            sorted_by(dex_entries_v(sorted@), le),
            dex_entries_v(rest@).to_multiset().add(dex_entries_v(sorted@).to_multiset()) == all.to_multiset(),
        decreases rest@.len(),
    {
        let ghost rest_before = rest@;
        let e = rest.pop().unwrap();
        proof {
            assert(rest_before =~= rest@.push(e));
            assert(dex_entries_v(rest_before) =~= dex_entries_v(rest@).push(e@));
        }
        let ghost sv = dex_entries_v(sorted@);
        let mut p: usize = 0;
        while p < sorted.len()
            invariant
                sv == dex_entries_v(sorted@),
                p <= sv.len(),
                forall|k: int| 0 <= k < p ==> le(#[trigger] sv[k], e@),
            decreases sv.len() - p,
        {
            if !entry_le(&sorted[p], &e, numbered) {
                break;
            }
            p += 1;
        }
        proof {
            if p < sv.len() {
                if numbered {
                    lemma_dex_total(sv[p as int].dex_label, sv[p as int].display_name, e@.dex_label, e@.display_name);
                } else {
                    lemma_lex_total(sv[p as int].display_name, e@.display_name);
                }
            }
            assert forall|k: int| p <= k < sv.len() implies le(e@, #[trigger] sv[k]) by {
                if k > p {
                    assert(le(sv[p as int], sv[k]));
                    if numbered {
                        lemma_dex_transitive(
                            e@.dex_label,
                            e@.display_name,
                            sv[p as int].dex_label,
                            sv[p as int].display_name,
                            sv[k].dex_label,
                            sv[k].display_name,
                        );
                    } else {
                        lemma_lex_transitive(e@.display_name, sv[p as int].display_name, sv[k].display_name);
                    }
                }
            }
            lemma_insert_sorted(sv, p as int, e@, le);
            assert(dex_entries_v(sorted@.insert(p as int, e)) =~= sv.insert(p as int, e@));
        }
        sorted.insert(p, e);
    }
    proof {
        assert(dex_entries_v(rest@) =~= Seq::<DexEntryViewV>::empty());
        assert(dex_entries_v(sorted@).to_multiset() =~= all.to_multiset());
        assert(sorted@.to_multiset() =~= entries@.to_multiset());
    }
    sorted
}

/// A map's value at `id`, or 0.
pub open spec fn value_or_zero(m: Map<Seq<char>, i64>, id: Seq<char>) -> i64 {
    if m.contains_key(id) {
        m[id]
    } else {
        0
    }
}

/// The entry for a caught species when there is no reference data: named by
/// its save id, with nothing else known.
pub open spec fn plain_entry(counts: Map<Seq<char>, i64>, bonus: Map<Seq<char>, i64>, id: Seq<char>) -> DexEntryViewV {
    DexEntryViewV {
        character_id: id,
        display_name: id,
        dex_label: None,
        caught: true,
        capture_count: value_or_zero(counts, id),
        bonus_tier: value_or_zero(bonus, id),
        elements: Seq::empty(),
        rarity: 0,
        stats: None,
        works: Set::empty(),
    }
}

/// A copy of a list of strings.
fn copy_strings(v: &Vec<String>) -> (r: Vec<String>)
    ensures
        strings_v(r@) == strings_v(v@),
{
    let mut out: Vec<String> = Vec::new();
    let mut i: usize = 0;
    while i < v.len()
        invariant
            i <= v@.len(),
            strings_v(out@) =~= strings_v(v@).take(i as int),
        decreases v@.len() - i,
    {
        proof {
            assert(strings_v(out@.push(v@[i as int])) =~= strings_v(out@).push(v@[i as int]@));
        }
        out.push(v[i].clone());
        i += 1;
    }
    proof {
        assert(strings_v(v@).take(v@.len() as int) =~= strings_v(v@));
    }
    out
}

/// Dex progress with no game installed: the save alone knows what was caught
/// but not what exists, so the grid lists the caught species by name.
#[verifier::loop_isolation(false)]
pub fn dex_without_reference(facts: &DexFacts) -> (r: DexProgressView)
    ensures
        dex_entries_v(r.entries@).to_multiset() == strings_v(facts.unlocked@).map_values(
            |id: Seq<char>| plain_entry(facts.capture_counts@, facts.bonus_tiers@, id),
        ).to_multiset(),
        sorted_by(dex_entries_v(r.entries@), entry_order(false)),
        r.unlocked_species_count == facts.unlocked@.len() as i64,
        strings_v(r.unlocked_species@) == strings_v(facts.unlocked@),
        r.total_species_count == 0,
{
    let ghost src = strings_v(facts.unlocked@).map_values(
        |id: Seq<char>| plain_entry(facts.capture_counts@, facts.bonus_tiers@, id),
    );
    let mut entries: Vec<DexEntryView> = Vec::new();
    let mut i: usize = 0;
    while i < facts.unlocked.len()
        invariant
            i <= facts.unlocked@.len(),
            dex_entries_v(entries@) =~= src.take(i as int),
        decreases facts.unlocked@.len() - i,
    {
        let id = &facts.unlocked[i];
        let capture_count = match facts.capture_counts.get(id.as_str()) {
            Some(x) => *x,
            None => 0,
        };
        let bonus_tier = match facts.bonus_tiers.get(id.as_str()) {
            Some(x) => *x,
            None => 0,
        };
        let e = DexEntryView {
            character_id: id.clone(),
            display_name: id.clone(),
            dex_label: None,
            caught: true,
            capture_count,
            bonus_tier,
            elements: Vec::new(),
            rarity: 0,
            stats: None,
            work_suitabilities: Vec::new(),
        };
        proof {
            assert(elements_v(e.elements@) =~= Seq::<ElementViewV>::empty());
            assert(works_v(e.work_suitabilities@) =~= Seq::<WorkViewV>::empty());
            assert(works_v(e.work_suitabilities@).to_set() =~= Set::<WorkViewV>::empty());
            assert(e@ == src[i as int]);
            assert(dex_entries_v(entries@.push(e)) =~= dex_entries_v(entries@).push(e@));
        }
        entries.push(e);
        i += 1;
    }
    proof {
        assert(src.take(facts.unlocked@.len() as int) =~= src);
    }
    let n = entries.len();
    let sorted = sort_entries(entries, false);
    DexProgressView {
        unlocked_species_count: #[verifier::truncate] (n as i64),
        unlocked_species: copy_strings(&facts.unlocked),
        total_species_count: 0,
        entries: sorted,
    }
}

/// The canonical species id a save's id resolves to through the reference
/// data's normalization.
pub open spec fn canonical(r: ReferenceIndexV, id: Seq<char>) -> Option<Seq<char>> {
    if r.species.contains_key(normalized(id)) {
        Some(r.species[normalized(id)].character_id)
    } else {
        None
    }
}

/// The species caught, by canonical id.
pub open spec fn caught_set(r: ReferenceIndexV, unlocked: Seq<Seq<char>>) -> Set<Seq<char>> {
    Set::new(|c: Seq<char>| exists|i: int| 0 <= i < unlocked.len() && canonical(r, #[trigger] unlocked[i]) == Some(c))
}

/// `v` is the best value `m` holds for any save id resolving to `c`, and at
/// least 0: spellings and alpha or predator forms fold onto their species.
pub open spec fn is_best(m: Map<Seq<char>, i64>, r: ReferenceIndexV, c: Seq<char>, v: i64) -> bool {
    &&& v >= 0
    &&& forall|k: Seq<char>| #[trigger] m.contains_key(k) && canonical(r, k) == Some(c) ==> m[k] <= v
    &&& (v == 0 || exists|k: Seq<char>| #[trigger] m.contains_key(k) && canonical(r, k) == Some(c) && m[k] == v)
}

/// The best value `m` holds for species `c`.
pub open spec fn best_of(m: Map<Seq<char>, i64>, r: ReferenceIndexV, c: Seq<char>) -> i64 {
    choose|v: i64| is_best(m, r, c, v)
}

proof fn lemma_best_unique(m: Map<Seq<char>, i64>, r: ReferenceIndexV, c: Seq<char>, v: i64, w: i64)
    requires
        is_best(m, r, c, v),
        is_best(m, r, c, w),
    ensures
        v == w,
{
    if v != 0 {
        let k = choose|k: Seq<char>| #[trigger] m.contains_key(k) && canonical(r, k) == Some(c) && m[k] == v;
        assert(m[k] <= w);
    }
    if w != 0 {
        let k = choose|k: Seq<char>| #[trigger] m.contains_key(k) && canonical(r, k) == Some(c) && m[k] == w;
        assert(m[k] <= v);
    }
}

/// The dex entry of a species, given what was caught and the capture facts.
pub open spec fn species_entry(
    r: ReferenceIndexV,
    s: SpeciesV,
    caught: Set<Seq<char>>,
    counts: Map<Seq<char>, i64>,
    bonus: Map<Seq<char>, i64>,
) -> DexEntryViewV {
    DexEntryViewV {
        character_id: s.character_id,
        display_name: s.display_name,
        dex_label: match s.dex_number {
            Some(n) => Some(dex_label_of(n, s.dex_suffix)),
            None => None,
        },
        caught: caught.contains(s.character_id),
        capture_count: best_of(counts, r, s.character_id),
        bonus_tier: best_of(bonus, r, s.character_id),
        elements: element_list(r, s.elements),
        rarity: s.rarity,
        stats: Some(
            BaseStatsView {
                hp: s.stats.hp,
                melee_attack: s.stats.melee_attack,
                shot_attack: s.stats.shot_attack,
                defense: s.stats.defense,
                support: s.stats.support,
                craft_speed: s.stats.craft_speed,
            },
        ),
        works: work_set(r, s.work_suitabilities),
    }
}

/// The dex entries of the species in `es` that are Paldeck entries or were
/// caught, in the same order.
pub open spec fn dex_source(
    r: ReferenceIndexV,
    es: Seq<(Seq<char>, Species)>,
    caught: Set<Seq<char>>,
    counts: Map<Seq<char>, i64>,
    bonus: Map<Seq<char>, i64>,
) -> Seq<DexEntryViewV>
    decreases es.len(),
{
    if es.len() == 0 {
        Seq::empty()
    } else {
        let prev = dex_source(r, es.drop_last(), caught, counts, bonus);
        let s = es.last().1@;
        if s.dex_number is Some || caught.contains(s.character_id) {
            prev.push(species_entry(r, s, caught, counts, bonus))
        } else {
            prev
        }
    }
}

/// How many entries are caught.
pub open spec fn caught_count(es: Seq<DexEntryViewV>) -> nat
    decreases es.len(),
{
    if es.len() == 0 {
        0
    } else {
        caught_count(es.drop_last()) + if es.last().caught {
            1nat
        } else {
            0nat
        }
    }
}

/// The caught ids carried by the first `k` species of `es`.
pub open spec fn caught_among(es: Seq<(Seq<char>, Species)>, caught: Set<Seq<char>>, k: int) -> Set<Seq<char>>
    decreases k,
{
    if k <= 0 || k > es.len() {
        Set::empty()
    } else {
        let c = es[k - 1].1@.character_id;
        let prev = caught_among(es, caught, k - 1);
        if caught.contains(c) {
            prev.insert(c)
        } else {
            prev
        }
    }
}

/// What the first `k` species count among the caught, they carry and were
/// caught, and the count is a finite set.
proof fn lemma_caught_among(
    r: ReferenceIndexV,
    es: Seq<(Seq<char>, Species)>,
    caught: Set<Seq<char>>,
    counts: Map<Seq<char>, i64>,
    bonus: Map<Seq<char>, i64>,
    k: int,
)
    requires
        0 <= k <= es.len(),
        forall|i: int, j: int|
            0 <= i < j < es.len() ==> (#[trigger] es[i]).1@.character_id != (#[trigger] es[j]).1@.character_id,
    ensures
        caught_among(es, caught, k).finite(),
        forall|c: Seq<char>|
            #[trigger] caught_among(es, caught, k).contains(c) ==> caught.contains(c) && exists|i: int|
                0 <= i < k && es[i].1@.character_id == c,
        caught_count(dex_source(r, es.take(k), caught, counts, bonus)) == caught_among(es, caught, k).len(),
    decreases k,
{
    if k == 0 {
        assert(es.take(0) =~= Seq::<(Seq<char>, Species)>::empty());
    } else {
        lemma_caught_among(r, es, caught, counts, bonus, k - 1);
        assert(es.take(k).drop_last() =~= es.take(k - 1));
        assert(es.take(k).last() == es[k - 1]);
        let c = es[k - 1].1@.character_id;
        let prev = caught_among(es, caught, k - 1);
        if prev.contains(c) {
            let i = choose|i: int| 0 <= i < k - 1 && es[i].1@.character_id == c;
            assert(es[i].1@.character_id != es[k - 1].1@.character_id);
        }
        let src = dex_source(r, es.take(k), caught, counts, bonus);
        let before = dex_source(r, es.take(k - 1), caught, counts, bonus);
        if es[k - 1].1@.dex_number is Some || caught.contains(c) {
            assert(src == before.push(species_entry(r, es[k - 1].1@, caught, counts, bonus)));
            assert(src.drop_last() =~= before);
        }
        assert forall|x: Seq<char>| #[trigger] caught_among(es, caught, k).contains(x) implies caught.contains(x)
            && exists|i: int| 0 <= i < k && es[i].1@.character_id == x by {
            if x == c && caught.contains(c) {
                assert(es[k - 1].1@.character_id == x);
            } else {
                assert(prev.contains(x));
                let i = choose|i: int| 0 <= i < k - 1 && es[i].1@.character_id == x;
                assert(0 <= i < k && es[i].1@.character_id == x);
            }
        }
    }
}

/// The dex counts each caught species once: over species with distinct
/// ids, where every caught id is one of theirs, the caught entries are as
/// many as the caught ids.
pub proof fn lemma_caught_count(
    r: ReferenceIndexV,
    es: Seq<(Seq<char>, Species)>,
    caught: Set<Seq<char>>,
    counts: Map<Seq<char>, i64>,
    bonus: Map<Seq<char>, i64>,
)
    requires
        forall|i: int, j: int|
            0 <= i < j < es.len() ==> (#[trigger] es[i]).1@.character_id != (#[trigger] es[j]).1@.character_id,
        forall|c: Seq<char>|
            #[trigger] caught.contains(c) ==> exists|i: int| 0 <= i < es.len() && es[i].1@.character_id == c,
    ensures
        caught.finite(),
        caught_count(dex_source(r, es, caught, counts, bonus)) == caught.len(),
{
    lemma_caught_among(r, es, caught, counts, bonus, es.len() as int);
    assert(es.take(es.len() as int) =~= es);
    let all = caught_among(es, caught, es.len() as int);
    assert forall|c: Seq<char>| #[trigger] caught.contains(c) implies all.contains(c) by {
        let i = choose|i: int| 0 <= i < es.len() && es[i].1@.character_id == c;
        lemma_caught_among_has(es, caught, i, es.len() as int);
    }
    assert(all =~= caught);
}

/// A caught id carried by a species among the first `k` is counted there.
proof fn lemma_caught_among_has(es: Seq<(Seq<char>, Species)>, caught: Set<Seq<char>>, i: int, k: int)
    requires
        0 <= i < k <= es.len(),
        caught.contains(es[i].1@.character_id),
    ensures
        caught_among(es, caught, k).contains(es[i].1@.character_id),
    decreases k,
{
    if i < k - 1 {
        lemma_caught_among_has(es, caught, i, k - 1);
    }
}

/// The best value per canonical species over the pairs `ps`.
pub open spec fn best_in(ps: Seq<(Seq<char>, i64)>, r: ReferenceIndexV, c: Seq<char>, v: i64) -> bool {
    &&& v >= 0
    &&& forall|k: int| 0 <= k < ps.len() && canonical(r, #[trigger] ps[k].0) == Some(c) ==> ps[k].1 <= v
    &&& (v == 0 || exists|k: int| 0 <= k < ps.len() && canonical(r, #[trigger] ps[k].0) == Some(c) && ps[k].1 == v)
}

/// The best value for each canonical species: present for those some save id
/// resolves to, each at least 0.
#[verifier::loop_isolation(false)]
fn fold_best(source: &StrMap<i64>, index: &ReferenceIndex) -> (out: StrMap<i64>)
    ensures
        forall|c: Seq<char>| #[trigger] out@.contains_key(c) ==> is_best(source@, index@, c, out@[c]),
        forall|c: Seq<char>| !(#[trigger] out@.contains_key(c)) ==> is_best(source@, index@, c, 0),
{
    proof {
        index.lemma_view();
    }
    let n = source.entry_count();
    let ghost ps = source.pairs();
    let mut out: StrMap<i64> = StrMap::new();
    let mut i: usize = 0;
    while i < n
        invariant
            n == ps.len(),
            i <= n,
            forall|c: Seq<char>| #[trigger] out@.contains_key(c) ==> best_in(ps.take(i as int), index@, c, out@[c]),
            forall|c: Seq<char>| !(#[trigger] out@.contains_key(c)) ==> best_in(ps.take(i as int), index@, c, 0),
        decreases n - i,
    {
        let key = source.key_at(i);
        let value = *source.value_at(i);
        let ghost pre = ps.take(i as int);
        let ghost post = ps.take(i + 1);
        proof {
            assert(post =~= pre.push(ps[i as int]));
        }
        match index.species(key) {
            Some(sp) => {
                let cur: i64 = match out.get(sp.character_id.as_str()) {
                    Some(x) => *x,
                    None => 0,
                };
                let best = if value > cur {
                    value
                } else {
                    cur
                };
                proof {
                    let c0 = sp.character_id@;
                    assert(canonical(index@, key@) == Some(c0));
                    assert forall|c: Seq<char>| c != c0 && #[trigger] out@.contains_key(c) implies best_in(post, index@, c, out@[c]) by {
                        assert forall|k: int| 0 <= k < post.len() && canonical(index@, #[trigger] post[k].0) == Some(c) implies post[k].1 <= out@[c] by {
                            assert(k < pre.len());
                            assert(post[k] == pre[k]);
                        }
                        if out@[c] != 0 {
                            let k = choose|k: int| 0 <= k < pre.len() && canonical(index@, #[trigger] pre[k].0) == Some(c) && pre[k].1 == out@[c];
                            assert(post[k] == pre[k]);
                        }
                    }
                    assert forall|c: Seq<char>| c != c0 && !(#[trigger] out@.contains_key(c)) implies best_in(post, index@, c, 0) by {
                        assert forall|k: int| 0 <= k < post.len() && canonical(index@, #[trigger] post[k].0) == Some(c) implies post[k].1 <= 0 by {
                            assert(k < pre.len());
                            assert(post[k] == pre[k]);
                        }
                    }
                    assert(best_in(pre, index@, c0, cur));
                    assert forall|k: int| 0 <= k < post.len() && canonical(index@, #[trigger] post[k].0) == Some(c0) implies post[k].1 <= best by {
                        if k < pre.len() {
                            assert(post[k] == pre[k]);
                        }
                    }
                    if best != 0 {
                        if best == value {
                            assert(post[i as int].0 == key@ && post[i as int].1 == value);
                        } else {
                            let k = choose|k: int| 0 <= k < pre.len() && canonical(index@, #[trigger] pre[k].0) == Some(c0) && pre[k].1 == cur;
                            assert(post[k] == pre[k]);
                        }
                    }
                }
                out.insert(sp.character_id.clone(), best);
            },
            None => {
                proof {
                    assert(canonical(index@, key@) is None);
                    assert forall|c: Seq<char>| #[trigger] out@.contains_key(c) implies best_in(post, index@, c, out@[c]) by {
                        assert forall|k: int| 0 <= k < post.len() && canonical(index@, #[trigger] post[k].0) == Some(c) implies post[k].1 <= out@[c] by {
                            assert(k < pre.len());
                            assert(post[k] == pre[k]);
                        }
                        if out@[c] != 0 {
                            let k = choose|k: int| 0 <= k < pre.len() && canonical(index@, #[trigger] pre[k].0) == Some(c) && pre[k].1 == out@[c];
                            assert(post[k] == pre[k]);
                        }
                    }
                    assert forall|c: Seq<char>| !(#[trigger] out@.contains_key(c)) implies best_in(post, index@, c, 0) by {
                        assert forall|k: int| 0 <= k < post.len() && canonical(index@, #[trigger] post[k].0) == Some(c) implies post[k].1 <= 0 by {
                            assert(k < pre.len());
                            assert(post[k] == pre[k]);
                        }
                    }
                }
            },
        }
        i += 1;
    }
    proof {
        assert(ps.take(n as int) =~= ps);
        assert forall|c: Seq<char>, v: i64| best_in(ps, index@, c, v) implies is_best(source@, index@, c, v) by {
            assert forall|k: Seq<char>| #[trigger] source@.contains_key(k) && canonical(index@, k) == Some(c) implies source@[k] <= v by {
                lemma_as_map_dom(ps, k);
                let j = choose|j: int| 0 <= j < ps.len() && ps[j].0 == k;
                lemma_as_map_index(ps, j);
            }
            if v != 0 {
                let j = choose|j: int| 0 <= j < ps.len() && canonical(index@, #[trigger] ps[j].0) == Some(c) && ps[j].1 == v;
                lemma_as_map_index(ps, j);
                assert(source@.contains_key(ps[j].0));
            }
        }
    }
    out
}

/// Project the save's dex facts onto the reference data's species list, so
/// the grid shows what has not been caught yet as well as what has. Every
/// save id goes through the reference data's normalization; alpha and
/// predator forms fold onto their base species, keeping the best count of
/// each. Only Paldeck entries are listed, plus any caught species without a
/// number, in Paldeck order.
#[verifier::loop_isolation(false)]
pub fn dex_with_reference(facts: &DexFacts, index: &ReferenceIndex) -> (r: DexProgressView)
    ensures
        ({
            let caught = caught_set(index@, strings_v(facts.unlocked@));
            let src = dex_source(
                index@,
                index.species_entries(),
                caught,
                facts.capture_counts@,
                facts.bonus_tiers@,
            );
            &&& dex_entries_v(r.entries@).to_multiset() == src.to_multiset()
            &&& sorted_by(dex_entries_v(r.entries@), entry_order(true))
            &&& forall|i: int|
                0 <= i < r.entries@.len() ==> {
                    &&& works_v(#[trigger] r.entries@[i].work_suitabilities@).no_duplicates()
                    &&& sorted_by(works_v(r.entries@[i].work_suitabilities@), work_order_le(index@.work_order))
                }
            &&& r.unlocked_species_count == caught_count(src) as i64
            &&& r.unlocked_species_count == caught.len() as i64
            &&& strings_v(r.unlocked_species@) == strings_v(facts.unlocked@)
            &&& r.total_species_count == crate::data::extract::numbered(index.species_entries()) as i64
        }),
{
    proof {
        index.lemma_view();
    }
    let ghost ul = strings_v(facts.unlocked@);
    let ghost caught_spec = caught_set(index@, ul);
    let mut caught = crate::assoc::StrSet::new();
    let mut i: usize = 0;
    while i < facts.unlocked.len()
        invariant
            ul == strings_v(facts.unlocked@),
            i <= facts.unlocked@.len(),
            caught@ == Set::new(|c: Seq<char>| exists|j: int| 0 <= j < i && canonical(index@, #[trigger] ul[j]) == Some(c)),
        decreases facts.unlocked@.len() - i,
    {
        let id = &facts.unlocked[i];
        proof {
            assert(ul[i as int] == id@);
        }
        match index.species(id.as_str()) {
            Some(sp) => {
                proof {
                    assert(canonical(index@, ul[i as int]) == Some(sp.character_id@));
                }
                caught.insert(sp.character_id.clone());
                proof {
                    assert(caught@ =~= Set::new(|c: Seq<char>| exists|j: int| 0 <= j < i + 1 && canonical(index@, #[trigger] ul[j]) == Some(c)));
                }
            },
            None => {
                proof {
                    assert(canonical(index@, ul[i as int]) is None);
                    assert(caught@ =~= Set::new(|c: Seq<char>| exists|j: int| 0 <= j < i + 1 && canonical(index@, #[trigger] ul[j]) == Some(c)));
                }
            },
        }
        i += 1;
    }
    proof {
        assert(caught@ =~= caught_spec);
    }
    let counts = fold_best(&facts.capture_counts, index);
    let bonus = fold_best(&facts.bonus_tiers, index);
    let species = index.species_iter();
    let ghost es = index.species_entries();
    let ghost cm = facts.capture_counts@;
    let ghost bm = facts.bonus_tiers@;
    let mut entries: Vec<DexEntryView> = Vec::new();
    let mut n_caught: usize = 0;
    let mut k: usize = 0;
    proof {
        assert(es.take(0) =~= Seq::<(Seq<char>, Species)>::empty());
    }
    while k < species.len()
        invariant
            species@.len() == es.len(),
            k <= species@.len(),
            forall|q: int| 0 <= q < species@.len() ==> *#[trigger] species@[q] == es[q].1,
            dex_entries_v(entries@) == dex_source(index@, es.take(k as int), caught_spec, cm, bm),
            n_caught == caught_count(dex_entries_v(entries@)),
            n_caught <= k,
            forall|q: int|
                0 <= q < entries@.len() ==> {
                    &&& works_v(#[trigger] entries@[q].work_suitabilities@).no_duplicates()
                    &&& sorted_by(works_v(entries@[q].work_suitabilities@), work_order_le(index@.work_order))
                },
        decreases species@.len() - k,
    {
        let sp = species[k];
        proof {
            assert(es.take(k + 1).drop_last() =~= es.take(k as int));
            assert(es.take(k + 1).last().1@ == sp@);
        }
        let is_caught = caught.contains(sp.character_id.as_str());
        if sp.dex_number.is_some() || is_caught {
            let capture_count: i64 = match counts.get(sp.character_id.as_str()) {
                Some(x) => *x,
                None => 0,
            };
            let bonus_tier: i64 = match bonus.get(sp.character_id.as_str()) {
                Some(x) => *x,
                None => 0,
            };
            proof {
                let c = sp.character_id@;
                assert(is_best(cm, index@, c, capture_count));
                lemma_best_unique(cm, index@, c, capture_count, best_of(cm, index@, c));
                assert(is_best(bm, index@, c, bonus_tier));
                lemma_best_unique(bm, index@, c, bonus_tier, best_of(bm, index@, c));
            }
            let e = DexEntryView {
                character_id: sp.character_id.clone(),
                display_name: sp.display_name.clone(),
                dex_label: sp.dex_label(),
                caught: is_caught,
                capture_count,
                bonus_tier,
                elements: element_views(sp.elements.as_slice(), index),
                rarity: sp.rarity,
                stats: Some(
                    BaseStatsView {
                        hp: sp.stats.hp,
                        melee_attack: sp.stats.melee_attack,
                        shot_attack: sp.stats.shot_attack,
                        defense: sp.stats.defense,
                        support: sp.stats.support,
                        craft_speed: sp.stats.craft_speed,
                    },
                ),
                work_suitabilities: work_views(sp, index),
            };
            proof {
                assert(e@ == species_entry(index@, sp@, caught_spec, cm, bm));
                assert(dex_entries_v(entries@.push(e)) =~= dex_entries_v(entries@).push(e@));
                assert(dex_entries_v(entries@.push(e)).drop_last() =~= dex_entries_v(entries@));
            }
            entries.push(e);
            if is_caught {
                n_caught += 1;
            }
        }
        k += 1;
    }
    proof {
        assert(es.take(species@.len() as int) =~= es);
    }
    let sorted = sort_entries(entries, true);
    proof {
        // The work lists travel with their entries through the sort.
        let sv = dex_entries_v(sorted@);
        assert forall|i: int| 0 <= i < sorted@.len() implies {
            &&& works_v(#[trigger] sorted@[i].work_suitabilities@).no_duplicates()
            &&& sorted_by(works_v(sorted@[i].work_suitabilities@), work_order_le(index@.work_order))
        } by {
            assert(sorted@.contains(sorted@[i]));
            assert(sorted@.to_multiset().count(sorted@[i]) > 0);
            assert(entries@.to_multiset().count(sorted@[i]) > 0);
            assert(entries@.contains(sorted@[i]));
            let j = choose|j: int| 0 <= j < entries@.len() && entries@[j] == sorted@[i];
            assert(works_v(entries@[j].work_suitabilities@).no_duplicates());
        }
    }
    let total = index.dex_entry_count();
    proof {
        // Each caught species is counted once.
        assert forall|i: int, j: int| 0 <= i < j < es.len() implies (#[trigger] es[i]).1@.character_id
            != (#[trigger] es[j]).1@.character_id by {
            assert(*species@[i] == es[i].1 && *species@[j] == es[j].1);
        }
        assert forall|c: Seq<char>| #[trigger] caught_spec.contains(c) implies exists|i: int|
            0 <= i < es.len() && es[i].1@.character_id == c by {
            let j = choose|j: int| 0 <= j < ul.len() && canonical(index@, #[trigger] ul[j]) == Some(c);
            let key = normalized(ul[j]);
            assert(index.species_map().contains_key(key));
            let q = choose|q: int| 0 <= q < species@.len() && *species@[q] == index.species_map()[key];
            assert(es[q].1@.character_id == c);
        }
        lemma_caught_count(index@, es, caught_spec, cm, bm);
    }
    DexProgressView {
        unlocked_species_count: #[verifier::truncate] (n_caught as i64),
        unlocked_species: copy_strings(&facts.unlocked),
        total_species_count: #[verifier::truncate] (total as i64),
        entries: sorted,
    }
}

/// Dex facts as the store has them, keyed by the save's own species ids.
#[derive(Debug)]
pub struct DexFacts {
    pub unlocked: Vec<String>,
    /// Save species id to capture count, for the scope asked for.
    pub capture_counts: StrMap<i64>,
    /// Save species id to capture-bonus tier, same scope.
    pub bonus_tiers: StrMap<i64>,
}

impl Default for DexFacts {
    fn default() -> (r: Self)
        ensures
            r.unlocked@ == Seq::<String>::empty(),
            r.capture_counts@ == Map::<Seq<char>, i64>::empty(),
            r.bonus_tiers@ == Map::<Seq<char>, i64>::empty(),
    {
        DexFacts { unlocked: Vec::new(), capture_counts: StrMap::new(), bonus_tiers: StrMap::new() }
    }
}

/// One player, as the player selector lists them.
#[derive(Debug, Clone)]
pub struct WorldPlayerView {
    pub player_uid: String,
    /// `None` for a save whose world data did not name this player.
    pub name: Option<String>,
    pub level: Option<i64>,
}

/// A player's scalar progress counters.
#[derive(Debug)]
pub struct PlayerProgressView {
    pub player_uid: String,
    pub tech_points: i64,
    pub boss_tech_points: i64,
    pub pal_butcher_count: i64,
    pub mutation_count: i64,
    pub awakening_count: i64,
    pub camp_conquered_count: i64,
    pub normal_dungeon_clear_count: i64,
    pub fixed_dungeon_clear_count: i64,
    pub relic_possess_total: i64,
    pub treasures_found: i64,
}

/// A base camp.
#[derive(Debug)]
pub struct BaseCampView {
    pub id: String,
    pub guild_id: Option<String>,
}

/// One parent in a suggested pairing.
#[derive(Debug, Clone)]
pub struct BreedingParentView {
    pub instance_id: String,
    pub character_id: String,
    pub display_name: Option<String>,
    pub nickname: Option<String>,
    pub level: i64,
    pub gender: String,
    pub iv_hp: i64,
    pub iv_shot: i64,
    pub iv_defense: i64,
}

/// A species the breeding picker may offer as a target.
#[derive(Debug)]
pub struct BreedingTargetView {
    pub character_id: String,
    pub display_name: String,
    pub dex_label: Option<String>,
}

/// [`BreedingTargetView`] as values.
pub struct BreedingTargetViewV {
    pub character_id: Seq<char>,
    pub display_name: Seq<char>,
    pub dex_label: Option<Seq<char>>,
}

impl View for BreedingTargetView {
    type V = BreedingTargetViewV;

    open spec fn view(&self) -> BreedingTargetViewV {
        BreedingTargetViewV {
            character_id: self.character_id@,
            display_name: self.display_name@,
            dex_label: crate::data::usmap::opt_string_v(self.dex_label),
        }
    }
}

pub open spec fn targets_v(v: Seq<BreedingTargetView>) -> Seq<BreedingTargetViewV> {
    v.map_values(|t: BreedingTargetView| t@)
}

/// Whether a species breeds true: two of its own have it again as their
/// child, compared without regard to ASCII case. Exactly the species some
/// pairing can produce.
pub open spec fn breeds_true(index: ReferenceIndexV, id: Seq<char>) -> bool {
    match child_spec(index.breeding, normalized(id), normalized(id)) {
        Some(c) => ascii_lowercase(c) == ascii_lowercase(id),
        None => false,
    }
}

/// The picker entry for a species.
pub open spec fn target_of(s: Species) -> BreedingTargetViewV {
    BreedingTargetViewV {
        character_id: s.character_id@,
        display_name: s.display_name@,
        dex_label: match s.dex_number {
            Some(n) => Some(dex_label_of(n, s.dex_suffix@)),
            None => None,
        },
    }
}

/// The picker entries for the species among `entries` that breed true, in
/// the entries' order.
pub open spec fn targets_among(index: ReferenceIndexV, entries: Seq<(Seq<char>, Species)>) -> Seq<BreedingTargetViewV>
    decreases entries.len(),
{
    if entries.len() == 0 {
        Seq::empty()
    } else {
        let rest = targets_among(index, entries.drop_last());
        let s = entries.last().1;
        if breeds_true(index, s.character_id@) {
            rest.push(target_of(s))
        } else {
            rest
        }
    }
}

/// Two ids equal but for ASCII case share a lookup key.
proof fn lemma_normalized_ignores_case(a: Seq<char>, b: Seq<char>)
    requires
        ascii_lowercase(a) == ascii_lowercase(b),
    ensures
        normalized(a) == normalized(b),
{
}

/// Every species the breeding picker offers can be bred: its lookup key
/// names a candidate of the pool or the child of a unique combo.
pub proof fn lemma_targets_producible(index: ReferenceIndexV, entries: Seq<(Seq<char>, Species)>, i: int)
    requires
        0 <= i < targets_among(index, entries).len(),
    ensures
        exists|j: int|
            0 <= j < entries.len() && targets_among(index, entries)[i] == #[trigger] target_of(entries[j].1)
                && crate::data::breeding::producible(index.breeding.pool, index.breeding.unique).contains(
                normalized(entries[j].1.character_id@),
            ),
    decreases entries.len(),
{
    let rest = entries.drop_last();
    let s = entries.last().1;
    let id = s.character_id@;
    if i < targets_among(index, rest).len() {
        lemma_targets_producible(index, rest, i);
        let j = choose|j: int|
            0 <= j < rest.len() && targets_among(index, rest)[i] == #[trigger] target_of(rest[j].1)
                && crate::data::breeding::producible(index.breeding.pool, index.breeding.unique).contains(
                normalized(rest[j].1.character_id@),
            );
        assert(entries[j] == rest[j]);
    } else {
        let j = entries.len() - 1;
        assert(breeds_true(index, id));
        let c = child_spec(index.breeding, normalized(id), normalized(id))->Some_0;
        crate::data::breeding::lemma_child_producible(index.breeding, normalized(id), normalized(id));
        lemma_normalized_ignores_case(c, id);
        assert(targets_among(index, entries)[i] == target_of(entries[j].1));
    }
}

/// Paldeck order on picker entries.
pub open spec fn target_order() -> spec_fn(BreedingTargetViewV, BreedingTargetViewV) -> bool {
    |a: BreedingTargetViewV, b: BreedingTargetViewV| dex_le(a.dex_label, a.display_name, b.dex_label, b.display_name)
}

/// Whether picker entry `a` goes no later than `b`.
fn target_le(a: &BreedingTargetView, b: &BreedingTargetView) -> (r: bool)
    ensures
        r == target_order()(a@, b@),
{
    match (&a.dex_label, &b.dex_label) {
        (Some(x), Some(y)) => if crate::text::str_eq(x.as_str(), y.as_str()) {
            str_le(a.display_name.as_str(), b.display_name.as_str())
        } else {
            str_le(x.as_str(), y.as_str())
        },
        (Some(_), None) => true,
        (None, Some(_)) => false,
        (None, None) => str_le(a.display_name.as_str(), b.display_name.as_str()),
    }
}

/// The picker entries in Paldeck order.
#[verifier::loop_isolation(false)]
fn sort_targets(targets: Vec<BreedingTargetView>) -> (r: Vec<BreedingTargetView>)
    ensures
        targets_v(r@).to_multiset() == targets_v(targets@).to_multiset(),
        sorted_by(targets_v(r@), target_order()),
{
    let ghost le = target_order();
    let ghost all = targets_v(targets@);
    let mut rest = targets;
    let mut sorted: Vec<BreedingTargetView> = Vec::new();
    proof {
        assert(targets_v(sorted@) =~= Seq::<BreedingTargetViewV>::empty());
        assert(targets_v(rest@).to_multiset().add(targets_v(sorted@).to_multiset()) =~= all.to_multiset());
    }
    while rest.len() > 0
        invariant
            le == target_order(),
            sorted_by(targets_v(sorted@), le),
            targets_v(rest@).to_multiset().add(targets_v(sorted@).to_multiset()) == all.to_multiset(),
        decreases rest@.len(),
    {
        let ghost rest_before = rest@;
        let e = rest.pop().unwrap();
        proof {
            assert(rest_before =~= rest@.push(e));
            assert(targets_v(rest_before) =~= targets_v(rest@).push(e@));
        }
        let ghost sv = targets_v(sorted@);
        let mut p: usize = 0;
        while p < sorted.len()
            invariant
                sv == targets_v(sorted@),
                p <= sv.len(),
                forall|k: int| 0 <= k < p ==> le(#[trigger] sv[k], e@),
            decreases sv.len() - p,
        {
            if !target_le(&sorted[p], &e) {
                break;
            }
            p += 1;
        }
        proof {
            if p < sv.len() {
                lemma_dex_total(sv[p as int].dex_label, sv[p as int].display_name, e@.dex_label, e@.display_name);
            }
            assert forall|k: int| p <= k < sv.len() implies le(e@, #[trigger] sv[k]) by {
                if k > p {
                    assert(le(sv[p as int], sv[k]));
                    lemma_dex_transitive(
                        e@.dex_label,
                        e@.display_name,
                        sv[p as int].dex_label,
                        sv[p as int].display_name,
                        sv[k].dex_label,
                        sv[k].display_name,
                    );
                }
            }
            lemma_insert_sorted(sv, p as int, e@, le);
            assert(targets_v(sorted@.insert(p as int, e)) =~= sv.insert(p as int, e@));
        }
        sorted.insert(p, e);
    }
    proof {
        assert(targets_v(rest@) =~= Seq::<BreedingTargetViewV>::empty());
        assert(targets_v(sorted@).to_multiset() =~= all.to_multiset());
    }
    sorted
}

/// The species the breeding picker offers: those that breed true, each with
/// its Paldeck label, numbered species first in Paldeck order and the rest by
/// name.
#[verifier::loop_isolation(false)]
pub fn breeding_targets(index: &ReferenceIndex) -> (r: Vec<BreedingTargetView>)
    ensures
        targets_v(r@).to_multiset() == targets_among(index@, index.species_entries()).to_multiset(),
        sorted_by(targets_v(r@), target_order()),
{
    proof {
        index.lemma_view();
    }
    let all = index.species_iter();
    let ghost entries = index.species_entries();
    let mut found: Vec<BreedingTargetView> = Vec::new();
    let mut i: usize = 0;
    while i < all.len()
        invariant
            all@.len() == entries.len(),
            forall|k: int| 0 <= k < all@.len() ==> *#[trigger] all@[k] == entries[k].1,
            i <= all@.len(),
            targets_v(found@) == targets_among(index@, entries.take(i as int)),
        decreases all@.len() - i,
    {
        let s: &Species = all[i];
        proof {
            assert(entries.take(i as int + 1).drop_last() =~= entries.take(i as int));
            assert(entries.take(i as int + 1).last() == entries[i as int]);
        }
        let child = index.breeding_result(s.character_id.as_str(), s.character_id.as_str());
        let keep = match child {
            Some(c) => eq_ignore_ascii_case(c, s.character_id.as_str()),
            None => false,
        };
        if keep {
            let t = BreedingTargetView {
                character_id: s.character_id.clone(),
                display_name: s.display_name.clone(),
                dex_label: s.dex_label(),
            };
            proof {
                assert(targets_v(found@.push(t)) =~= targets_v(found@).push(t@));
            }
            found.push(t);
        }
        i += 1;
    }
    proof {
        assert(entries.take(all@.len() as int) =~= entries);
    }
    sort_targets(found)
}

/// One side of a pairing that involves a species the player does not own.
#[derive(Debug, Clone)]
pub struct PairingSideView {
    pub character_id: String,
    pub display_name: Option<String>,
    pub dex_label: Option<String>,
    /// The best specimen when this species is owned.
    pub owned: Option<BreedingParentView>,
}

/// A pairing needing a Pal the player does not have.
#[derive(Debug)]
pub struct UnownedPairingView {
    pub parent_a: PairingSideView,
    pub parent_b: PairingSideView,
    /// `secondSpecimen`, `oppositeGender`, `oneSpecies` or `twoSpecies`.
    pub need: String,
    /// The gender every owned candidate shares, for `oppositeGender`.
    pub blocking_gender: Option<String>,
    /// Species missing from the roster entirely.
    pub missing_species: Vec<String>,
}

/// The summary sent after a snapshot is taken.
#[derive(Debug, Clone, Copy, PartialEq, Eq, Structural)]
pub struct SnapshotSummaryView {
    pub snapshot_id: i64,
    pub pal_count: i64,
    pub player_count: i64,
    pub taken_at: i64,
}

/// Per-player tech, boss, quest and collectible detail.
#[derive(Debug)]
pub struct PlayerFlagsView {
    pub player_uid: String,
    pub unlocked_tech: Vec<String>,
    /// Localized technology names, parallel to `unlocked_tech`, falling back
    /// to the raw id; empty without reference data.
    pub unlocked_tech_names: Vec<String>,
    pub normal_boss_defeated: Vec<String>,
    pub tower_boss_defeated: Vec<String>,
    pub specific_boss_defeated: Vec<String>,
    pub completed_quests: Vec<String>,
    pub relics_obtained: Vec<String>,
    pub notes_obtained: Vec<String>,
    pub fast_travel_unlocked: Vec<String>,
}

/// Attach localized technology names to every player's unlocked tech.
#[verifier::loop_isolation(false)]
pub fn enrich_flags(flags: &mut Vec<PlayerFlagsView>, reference: &ReferenceIndex)
    ensures
        final(flags)@.len() == old(flags)@.len(),
        forall|i: int|
            0 <= i < final(flags)@.len() ==> {
                let (a, b) = (old(flags)@[i], #[trigger] final(flags)@[i]);
                &&& b.player_uid == a.player_uid
                &&& b.unlocked_tech == a.unlocked_tech
                &&& b.normal_boss_defeated == a.normal_boss_defeated
                &&& b.tower_boss_defeated == a.tower_boss_defeated
                &&& b.specific_boss_defeated == a.specific_boss_defeated
                &&& b.completed_quests == a.completed_quests
                &&& b.relics_obtained == a.relics_obtained
                &&& b.notes_obtained == a.notes_obtained
                &&& b.fast_travel_unlocked == a.fast_travel_unlocked
                &&& strings_v(b.unlocked_tech_names@) == strings_v(a.unlocked_tech@).map_values(
                    |id: Seq<char>| label_or_id(reference@.technologies, id),
                )
            },
{
    proof {
        reference.lemma_view();
    }
    let ghost start = flags@;
    let mut out: Vec<PlayerFlagsView> = Vec::new();
    let mut src: Vec<PlayerFlagsView> = Vec::new();
    std::mem::swap(&mut src, flags);
    let ghost n = start.len();
    let mut rest: Vec<PlayerFlagsView> = Vec::new();
    while src.len() > 0
        invariant
            n == start.len(),
            src@.len() + rest@.len() == n,
            forall|j: int| 0 <= j < src@.len() ==> src@[j] == start[j],
            forall|j: int| 0 <= j < rest@.len() ==> rest@[j] == start[n - 1 - j],
        decreases src@.len(),
    {
        let p = src.pop().unwrap();
        rest.push(p);
    }
    while rest.len() > 0
        invariant
            n == start.len(),
            out@.len() + rest@.len() == n,
            forall|j: int| 0 <= j < rest@.len() ==> rest@[j] == start[n - 1 - j],
            forall|i: int|
                0 <= i < out@.len() ==> {
                    let (a, b) = (start[i], #[trigger] out@[i]);
                    &&& b.player_uid == a.player_uid
                    &&& b.unlocked_tech == a.unlocked_tech
                    &&& b.normal_boss_defeated == a.normal_boss_defeated
                    &&& b.tower_boss_defeated == a.tower_boss_defeated
                    &&& b.specific_boss_defeated == a.specific_boss_defeated
                    &&& b.completed_quests == a.completed_quests
                    &&& b.relics_obtained == a.relics_obtained
                    &&& b.notes_obtained == a.notes_obtained
                    &&& b.fast_travel_unlocked == a.fast_travel_unlocked
                    &&& strings_v(b.unlocked_tech_names@) == strings_v(a.unlocked_tech@).map_values(
                        |id: Seq<char>| label_or_id(reference@.technologies, id),
                    )
                },
        decreases rest@.len(),
    {
        let mut player = rest.pop().unwrap();
        let ghost before = player;
        let mut names: Vec<String> = Vec::new();
        let mut k: usize = 0;
        while k < player.unlocked_tech.len()
            invariant
                player == before,
                k <= player.unlocked_tech@.len(),
                strings_v(names@) =~= strings_v(player.unlocked_tech@).map_values(
                    |id: Seq<char>| label_or_id(reference@.technologies, id),
                ).take(k as int),
            decreases player.unlocked_tech@.len() - k,
        {
            let id = &player.unlocked_tech[k];
            let name = resolve_or_id(reference.technology(id.as_str()), id.as_str());
            proof {
                assert(strings_v(player.unlocked_tech@)[k as int] == id@);
                assert(name@ == label_or_id(reference@.technologies, id@));
                assert(strings_v(names@.push(name)) =~= strings_v(names@).push(name@));
            }
            names.push(name);
            k += 1;
        }
        proof {
            assert(strings_v(player.unlocked_tech@).map_values(
                |id: Seq<char>| label_or_id(reference@.technologies, id),
            ).take(player.unlocked_tech@.len() as int) =~= strings_v(player.unlocked_tech@).map_values(
                |id: Seq<char>| label_or_id(reference@.technologies, id),
            ));
        }
        player.unlocked_tech_names = names;
        out.push(player);
    }
    *flags = out;
}

/// Whether pak-derived reference data is available.
#[derive(Debug)]
pub struct ReferenceStatusView {
    pub available: bool,
    pub language: Option<String>,
    pub species_count: usize,
}

impl ReferenceStatusView {
    /// The status for the reference data at hand, if any.
    pub fn of(reference: Option<&ReferenceIndex>) -> (r: Self)
        ensures
            match reference {
                Some(index) => r.available && (r.language matches Some(l) && l@ == index@.language)
                    && r.species_count == index@.species.dom().len(),
                None => !r.available && r.language is None && r.species_count == 0,
            },
    {
        match reference {
            Some(index) => {
                proof {
                    index.lemma_view();
                    assert(index@.species.dom() =~= index.species_map().dom());
                }
                ReferenceStatusView {
                    available: true,
                    language: Some(index.language().to_owned()),
                    species_count: index.species_count(),
                }
            },
            None => ReferenceStatusView { available: false, language: None, species_count: 0 },
        }
    }
}

/// A save root plus what the interface renders with it: the source's label
/// and the worlds inside.
#[derive(Debug)]
pub struct SaveRootView {
    pub root: SaveRoot,
    /// Human-readable rendering of the source, e.g. `CrossOver — Steam`.
    pub source_label: String,
    pub worlds: Vec<World>,
}

impl SaveRootView {
    /// The view of `root`, whose worlds are `worlds`.
    pub fn new(root: SaveRoot, worlds: Vec<World>) -> (r: Self)
        ensures
            r.root == root,
            r.worlds == worlds,
            r.source_label@ == root.source.label_spec(),
    {
        let source_label = root.source.label();
        SaveRootView { root, source_label, worlds }
    }
}

} // verus!
