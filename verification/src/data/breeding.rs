//! Palworld's breeding rules, built from `DT_PalMonsterParameter` and
//! `DT_PalCombiUnique`.
//!
//! Two rules, in order:
//!
//! 1. **Unique combos.** `DT_PalCombiUnique` lists parent pairings that
//!    produce a specific child. These override everything else.
//! 2. **The generic rule.** Otherwise the child is the species whose
//!    `CombiRank` sits closest to `floor((rankA + rankB + 1) / 2)`; a tie goes
//!    to the lower Paldeck number, a species without one sorting last.
//!
//! Everything keys on *tribe*: the candidate pool holds one entry per tribe.

use vstd::prelude::*;

use crate::assoc::{
    as_map, distinct_keys, lemma_as_map_dom, lemma_as_map_index, lemma_as_map_len,
    lemma_as_map_push, lemma_as_map_remove, lemma_as_map_update,
};
use crate::data::extract::{normalize_key, normalized};
use crate::text::{
    ascii_lowercase, eq_ignore_ascii_case, lemma_lex_antisymmetric, lemma_lex_total,
    lemma_lex_transitive, lex_le, str_le, to_ascii_lowercase,
};

verus! {

broadcast use vstd::seq_lib::group_to_multiset_ensures;

/// A `CombiRank` at or above this marks a species the generic rule never
/// produces; the shipped data uses it as a sentinel.
pub const RANK_SENTINEL: u32 = 9999;

/// A species the generic rule can produce.
#[derive(Debug)]
pub struct Candidate {
    pub rank: u32,
    /// Paldeck number, which resolves a tie; zero for a species without one.
    pub zukan: u32,
    pub tribe: String,
    pub character_id: String,
}

/// [`Candidate`] with its strings seen as characters.
pub struct CandidateV {
    pub rank: u32,
    pub zukan: u32,
    pub tribe: Seq<char>,
    pub character_id: Seq<char>,
}

impl View for Candidate {
    type V = CandidateV;

    open spec fn view(&self) -> CandidateV {
        CandidateV {
            rank: self.rank,
            zukan: self.zukan,
            tribe: self.tribe@,
            character_id: self.character_id@,
        }
    }
}

/// One parent's breeding-relevant parameters.
#[derive(Debug)]
pub struct Parent {
    pub tribe: String,
    pub rank: u32,
}

pub struct ParentV {
    pub tribe: Seq<char>,
    pub rank: u32,
}

impl View for Parent {
    type V = ParentV;

    open spec fn view(&self) -> ParentV {
        ParentV { tribe: self.tribe@, rank: self.rank }
    }
}

/// The breeding-relevant fields of one `DT_PalMonsterParameter` row.
#[derive(Debug, Clone, Copy)]
pub struct SpeciesRow<'a> {
    /// The caller's normalized lookup key.
    pub key: &'a str,
    /// The raw row name: what a unique combo names as its child.
    pub character_id: &'a str,
    pub tribe: &'a str,
    pub rank: u32,
    pub is_pal: bool,
    /// Kept out of the generic rule's results, though still a parent.
    pub ignore_combi: bool,
    /// Paldeck number, or zero when the species has none.
    pub zukan: u32,
}

/// Breeding lookups over the whole species set.
#[derive(Debug)]
pub struct BreedingIndex {
    /// Species lookup key to its tribe and combi rank.
    parents: Vec<(String, Parent)>,
    /// Lower-cased, order-independent tribe pair to child `CharacterID`.
    unique: Vec<((String, String), String)>,
    /// One entry per tribe; sorted by rank once [`BreedingIndex::finish`] ran.
    pool: Vec<Candidate>,
    /// Rows carrying `IgnoreCombi`, as (lookup key, `CharacterID`), settled
    /// by [`BreedingIndex::finish`].
    ignored: Vec<(String, String)>,
}

/// [`BreedingIndex`] as maps and sequences of values.
pub struct BreedingIndexV {
    pub parents: Map<Seq<char>, ParentV>,
    pub unique: Map<(Seq<char>, Seq<char>), Seq<char>>,
    pub pool: Seq<CandidateV>,
    pub ignored: Seq<(Seq<char>, Seq<char>)>,
}

pub open spec fn parents_seq(v: Seq<(String, Parent)>) -> Seq<(Seq<char>, ParentV)> {
    v.map_values(|e: (String, Parent)| (e.0@, e.1@))
}

pub open spec fn unique_seq(v: Seq<((String, String), String)>) -> Seq<((Seq<char>, Seq<char>), Seq<char>)> {
    v.map_values(|e: ((String, String), String)| ((e.0.0@, e.0.1@), e.1@))
}

pub open spec fn candidates_v(v: Seq<Candidate>) -> Seq<CandidateV> {
    v.map_values(|c: Candidate| c@)
}

pub open spec fn pairs_v(v: Seq<(String, String)>) -> Seq<(Seq<char>, Seq<char>)> {
    v.map_values(|e: (String, String)| (e.0@, e.1@))
}

impl View for BreedingIndex {
    type V = BreedingIndexV;

    closed spec fn view(&self) -> BreedingIndexV {
        BreedingIndexV {
            parents: as_map(parents_seq(self.parents@)),
            unique: as_map(unique_seq(self.unique@)),
            pool: candidates_v(self.pool@),
            ignored: pairs_v(self.ignored@),
        }
    }
}

/// Whether two tribe names match ignoring ASCII case.
pub open spec fn same_tribe(a: Seq<char>, b: Seq<char>) -> bool {
    ascii_lowercase(a) == ascii_lowercase(b)
}

/// The lower-cased tribe pair, smaller first: the key of a unique combo.
pub open spec fn tribe_pair_spec(a: Seq<char>, b: Seq<char>) -> (Seq<char>, Seq<char>) {
    let x = ascii_lowercase(a);
    let y = ascii_lowercase(b);
    if lex_le(x, y) {
        (x, y)
    } else {
        (y, x)
    }
}

/// The first candidate at or after `from` of the same tribe.
pub open spec fn tribe_slot(pool: Seq<CandidateV>, tribe: Seq<char>, from: int) -> Option<int>
    decreases pool.len() - from,
{
    if from < 0 || from >= pool.len() {
        None
    } else if same_tribe(pool[from].tribe, tribe) {
        Some(from)
    } else {
        tribe_slot(pool, tribe, from + 1)
    }
}

/// Whether species `a` better represents `tribe` than `b`: a row named after
/// the tribe beats one that is not, then one with a Paldeck number beats one
/// without.
pub open spec fn outranks(a_id: Seq<char>, a_zukan: u32, b_id: Seq<char>, b_zukan: u32, tribe: Seq<char>) -> bool {
    let (a1, a2) = (same_tribe(a_id, tribe), a_zukan > 0);
    let (b1, b2) = (same_tribe(b_id, tribe), b_zukan > 0);
    (a1 && !b1) || (a1 == b1 && a2 && !b2)
}

/// The pool after offering it a species: it joins as its tribe's entry, or
/// replaces the entry's rank, number and id when it represents the tribe
/// better, or leaves the pool as it was.
pub open spec fn pool_after(pool: Seq<CandidateV>, tribe: Seq<char>, id: Seq<char>, rank: u32, zukan: u32) -> Seq<CandidateV> {
    match tribe_slot(pool, tribe, 0) {
        Some(j) => if outranks(id, zukan, pool[j].character_id, pool[j].zukan, tribe) {
            pool.update(j, CandidateV { rank, zukan, tribe: pool[j].tribe, character_id: id })
        } else {
            pool
        },
        None => pool.push(CandidateV { rank, zukan, tribe, character_id: id }),
    }
}

/// The generic rule's target rank: the average, rounded up.
pub open spec fn target_rank(a: u32, b: u32) -> int {
    (a + b + 1) / 2
}

pub open spec fn rank_dist(c: CandidateV, target: int) -> int {
    if c.rank >= target {
        c.rank - target
    } else {
        target - c.rank
    }
}

/// What a tie is broken on: the Paldeck number, a species without one last.
pub open spec fn dex_key(c: CandidateV) -> int {
    if c.zukan == 0 {
        u32::MAX as int
    } else {
        c.zukan as int
    }
}

/// Candidate `i` is the generic rule's pick for `target`: closest in rank,
/// then lowest by Paldeck number, then first in the pool.
pub open spec fn is_pick(pool: Seq<CandidateV>, target: int, i: int) -> bool {
    &&& 0 <= i < pool.len()
    &&& forall|j: int| 0 <= j < pool.len() ==> rank_dist(pool[i], target) <= rank_dist(#[trigger] pool[j], target)
    &&& forall|j: int|
        0 <= j < pool.len() && rank_dist(#[trigger] pool[j], target) == rank_dist(pool[i], target) ==> dex_key(
            pool[i],
        ) <= dex_key(pool[j])
    &&& forall|j: int|
        0 <= j < i && rank_dist(#[trigger] pool[j], target) == rank_dist(pool[i], target) ==> dex_key(pool[i])
            < dex_key(pool[j])
}

/// The generic rule's child for `target`, if the pool has any candidate.
pub open spec fn generic_child(pool: Seq<CandidateV>, target: int) -> Option<Seq<char>> {
    if exists|i: int| is_pick(pool, target, i) {
        Some(pool[choose|i: int| is_pick(pool, target, i)].character_id)
    } else {
        None
    }
}

/// The child of parents `a` and `b` (lookup keys): their unique combo if one
/// names their tribes, otherwise the generic rule's pick; nothing when either
/// is not a parent.
pub open spec fn child_spec(s: BreedingIndexV, a: Seq<char>, b: Seq<char>) -> Option<Seq<char>> {
    if s.parents.contains_key(a) && s.parents.contains_key(b) {
        let pair = tribe_pair_spec(s.parents[a].tribe, s.parents[b].tribe);
        if s.unique.contains_key(pair) {
            Some(s.unique[pair])
        } else {
            generic_child(s.pool, target_rank(s.parents[a].rank, s.parents[b].rank))
        }
    } else {
        None
    }
}

/// Ordering of the sorted pool: by rank, then by tribe.
pub open spec fn candidate_le(a: CandidateV, b: CandidateV) -> bool {
    a.rank < b.rank || (a.rank == b.rank && lex_le(a.tribe, b.tribe))
}

pub open spec fn sorted_pool(pool: Seq<CandidateV>) -> bool {
    forall|i: int, j: int| 0 <= i < j < pool.len() ==> candidate_le(#[trigger] pool[i], #[trigger] pool[j])
}

/// The lookup keys of the species something breeds into: every candidate
/// and every unique combo's child.
pub open spec fn producible(pool: Seq<CandidateV>, unique: Map<(Seq<char>, Seq<char>), Seq<char>>) -> Set<Seq<char>> {
    Set::new(
        |n: Seq<char>|
            (exists|i: int| 0 <= i < pool.len() && normalized(pool[i].character_id) == n) || (exists|
                k: (Seq<char>, Seq<char>),
            | unique.contains_key(k) && normalized(unique[k]) == n),
    )
}

/// The `IgnoreCombi` parents nothing breeds into: dropped as parents.
pub open spec fn unbred(s: BreedingIndexV) -> Set<Seq<char>> {
    Set::new(
        |k: Seq<char>|
            (exists|i: int| 0 <= i < s.ignored.len() && s.ignored[i].0 == k) && !producible(
                s.pool,
                s.unique,
            ).contains(normalized(k)),
    )
}

/// The unique-combo key for two tribes: lower-cased, the smaller first.
pub fn tribe_pair(a: &str, b: &str) -> (r: (String, String))
    ensures
        (r.0@, r.1@) == tribe_pair_spec(a@, b@),
{
    let x = to_ascii_lowercase(a);
    let y = to_ascii_lowercase(b);
    if str_le(x.as_str(), y.as_str()) {
        (x, y)
    } else {
        (y, x)
    }
}

impl BreedingIndex {
    /// Keys are unique and every parent's rank lies below the sentinel.
    pub closed spec fn wf(&self) -> bool {
        &&& distinct_keys(parents_seq(self.parents@))
        &&& distinct_keys(unique_seq(self.unique@))
        &&& forall|i: int| 0 <= i < self.parents@.len() ==> #[trigger] self.parents@[i].1.rank < RANK_SENTINEL
    }

    /// An index with no species and no combos.
    pub fn new() -> (r: Self)
        ensures
            r.wf(),
            r@.parents == Map::<Seq<char>, ParentV>::empty(),
            r@.unique == Map::<(Seq<char>, Seq<char>), Seq<char>>::empty(),
            r@.pool == Seq::<CandidateV>::empty(),
            r@.ignored == Seq::<(Seq<char>, Seq<char>)>::empty(),
    {
        let r = BreedingIndex { parents: Vec::new(), unique: Vec::new(), pool: Vec::new(), ignored: Vec::new() };
        proof {
            assert(parents_seq(r.parents@) =~= Seq::empty());
            assert(unique_seq(r.unique@) =~= Seq::empty());
            assert(candidates_v(r.pool@) =~= Seq::empty());
            assert(pairs_v(r.ignored@) =~= Seq::empty());
        }
        r
    }

    /// The parent map's domain only holds ranks below the sentinel.
    pub proof fn lemma_parent_ranks(&self, k: Seq<char>)
        requires
            self.wf(),
            self@.parents.contains_key(k),
        ensures
            self@.parents[k].rank < RANK_SENTINEL,
    {
        let s = parents_seq(self.parents@);
        lemma_as_map_dom(s, k);
        let i = choose|i: int| 0 <= i < s.len() && s[i].0 == k;
        lemma_as_map_index(s, i);
        assert(self.parents@[i].1.rank < RANK_SENTINEL);
    }

    /// Set the parent entry for `key`.
    #[verifier::loop_isolation(false)]
    fn set_parent(&mut self, key: String, parent: Parent)
        requires
            old(self).wf(),
            parent.rank < RANK_SENTINEL,
        ensures
            final(self).wf(),
            final(self)@.parents == old(self)@.parents.insert(key@, parent@),
            final(self)@.unique == old(self)@.unique,
            final(self)@.pool == old(self)@.pool,
            final(self)@.ignored == old(self)@.ignored,
    {
        let ghost s = parents_seq(self.parents@);
        let mut i: usize = 0;
        while i < self.parents.len()
            invariant
                s == parents_seq(self.parents@),
                i <= self.parents@.len(),
                forall|j: int| 0 <= j < i ==> s[j].0 != key@,
            decreases self.parents@.len() - i,
        {
            if self.parents[i].0 == key {
                break;
            }
            i += 1;
        }
        if i < self.parents.len() {
            let ghost k = s[i as int].0;
            proof {
                lemma_as_map_update(s, i as int, parent@);
                assert(parents_seq(self.parents@.update(i as int, (key, parent))) =~= s.update(
                    i as int,
                    (k, parent@),
                ));
            }
            let ghost before = self.parents@;
            self.parents.set(i, (key, parent));
            proof {
                assert forall|j: int| 0 <= j < self.parents@.len() implies #[trigger] self.parents@[j].1.rank
                    < RANK_SENTINEL by {
                    if j != i {
                        assert(self.parents@[j] == before[j]);
                    }
                }
            }
            return;
        }
        proof {
            lemma_as_map_dom(s, key@);
            lemma_as_map_push(s, key@, parent@);
            assert(parents_seq(self.parents@.push((key, parent))) =~= s.push((key@, parent@)));
        }
        let ghost before = self.parents@;
        self.parents.push((key, parent));
        proof {
            assert forall|j: int| 0 <= j < self.parents@.len() implies #[trigger] self.parents@[j].1.rank
                < RANK_SENTINEL by {
                if j < before.len() {
                    assert(self.parents@[j] == before[j]);
                }
            }
        }
    }

    /// Register a species from a `DT_PalMonsterParameter` row.
    ///
    /// A row with no tribe, or a rank of zero or at the sentinel, is ignored.
    /// Any other becomes a parent. One that is not a Pal, or carries
    /// `IgnoreCombi`, is held back for [`BreedingIndex::finish`]; the rest are
    /// offered to the candidate pool, one entry per tribe.
    #[verifier::loop_isolation(false)]
    pub fn add_species(&mut self, row: &SpeciesRow)
        requires
            old(self).wf(),
        ensures
            final(self).wf(),
            final(self)@.unique == old(self)@.unique,
            (row.tribe@.len() == 0 || row.rank == 0 || row.rank >= RANK_SENTINEL) ==> final(self)@
                == old(self)@,
            !(row.tribe@.len() == 0 || row.rank == 0 || row.rank >= RANK_SENTINEL) ==> {
                &&& final(self)@.parents == old(self)@.parents.insert(
                    row.key@,
                    ParentV { tribe: row.tribe@, rank: row.rank },
                )
                &&& (!row.is_pal || row.ignore_combi) ==> final(self)@.pool == old(self)@.pool
                    && final(self)@.ignored == old(self)@.ignored.push((row.key@, row.character_id@))
                &&& (row.is_pal && !row.ignore_combi) ==> final(self)@.ignored == old(self)@.ignored
                    && final(self)@.pool == pool_after(
                    old(self)@.pool,
                    row.tribe@,
                    row.character_id@,
                    row.rank,
                    row.zukan,
                )
            },
    {
        if row.tribe.is_empty() || row.rank == 0 || row.rank >= RANK_SENTINEL {
            return;
        }
        self.set_parent(row.key.to_owned(), Parent { tribe: row.tribe.to_owned(), rank: row.rank });

        // `IgnoreCombi` keeps a species out of the candidate pool and nothing
        // more: it still breeds, and a unique combo may still produce it.
        if !row.is_pal || row.ignore_combi {
            let ghost before = self.ignored@;
            self.ignored.push((row.key.to_owned(), row.character_id.to_owned()));
            proof {
                assert(pairs_v(self.ignored@) =~= pairs_v(before).push((row.key@, row.character_id@)));
            }
            return;
        }
        let ghost pool = candidates_v(self.pool@);
        let mut j: usize = 0;
        while j < self.pool.len()
            invariant
                pool == candidates_v(self.pool@),
                j <= self.pool@.len(),
                tribe_slot(pool, row.tribe@, 0) == tribe_slot(pool, row.tribe@, j as int),
            decreases self.pool@.len() - j,
        {
            if eq_ignore_ascii_case(self.pool[j].tribe.as_str(), row.tribe) {
                break;
            }
            j += 1;
        }
        if j < self.pool.len() {
            let better = {
                let new_named = eq_ignore_ascii_case(row.character_id, row.tribe);
                let old_named = eq_ignore_ascii_case(self.pool[j].character_id.as_str(), row.tribe);
                let new_dex = row.zukan > 0;
                let old_dex = self.pool[j].zukan > 0;
                (new_named && !old_named) || (new_named == old_named && new_dex && !old_dex)
            };
            if better {
                let tribe = self.pool[j].tribe.clone();
                let c = Candidate { rank: row.rank, zukan: row.zukan, tribe, character_id: row.character_id.to_owned() };
                proof {
                    assert(candidates_v(self.pool@.update(j as int, c)) =~= pool.update(j as int, c@));
                }
                self.pool.set(j, c);
            }
        } else {
            let c = Candidate {
                rank: row.rank,
                zukan: row.zukan,
                tribe: row.tribe.to_owned(),
                character_id: row.character_id.to_owned(),
            };
            proof {
                assert(candidates_v(self.pool@.push(c)) =~= pool.push(c@));
            }
            self.pool.push(c);
        }
    }

    /// Register a `DT_PalCombiUnique` row; one with an empty field is
    /// ignored.
    #[verifier::loop_isolation(false)]
    pub fn add_unique(&mut self, tribe_a: &str, tribe_b: &str, child: &str)
        requires
            old(self).wf(),
        ensures
            final(self).wf(),
            final(self)@.parents == old(self)@.parents,
            final(self)@.pool == old(self)@.pool,
            final(self)@.ignored == old(self)@.ignored,
            (tribe_a@.len() == 0 || tribe_b@.len() == 0 || child@.len() == 0) ==> final(self)@.unique
                == old(self)@.unique,
            !(tribe_a@.len() == 0 || tribe_b@.len() == 0 || child@.len() == 0) ==> final(self)@.unique
                == old(self)@.unique.insert(tribe_pair_spec(tribe_a@, tribe_b@), child@),
    {
        if tribe_a.is_empty() || tribe_b.is_empty() || child.is_empty() {
            return;
        }
        let key = tribe_pair(tribe_a, tribe_b);
        let value = child.to_owned();
        let ghost s = unique_seq(self.unique@);
        let mut i: usize = 0;
        while i < self.unique.len()
            invariant
                s == unique_seq(self.unique@),
                i <= self.unique@.len(),
                forall|j: int| 0 <= j < i ==> s[j].0 != (key.0@, key.1@),
            decreases self.unique@.len() - i,
        {
            if self.unique[i].0.0 == key.0 && self.unique[i].0.1 == key.1 {
                break;
            }
            i += 1;
        }
        if i < self.unique.len() {
            let ghost k = s[i as int].0;
            proof {
                lemma_as_map_update(s, i as int, value@);
                assert(unique_seq(self.unique@.update(i as int, (key, value))) =~= s.update(
                    i as int,
                    (k, value@),
                ));
            }
            self.unique.set(i, (key, value));
            return;
        }
        proof {
            lemma_as_map_dom(s, (key.0@, key.1@));
            lemma_as_map_push(s, (key.0@, key.1@), value@);
            assert(unique_seq(self.unique@.push((key, value))) =~= s.push(((key.0@, key.1@), value@)));
        }
        self.unique.push((key, value));
    }

    /// Number of candidates the generic rule chooses from.
    pub fn candidate_count(&self) -> (n: usize)
        ensures
            n == self@.pool.len(),
    {
        self.pool.len()
    }

    /// Number of distinct unique combos.
    pub fn unique_combo_count(&self) -> (n: usize)
        requires
            self.wf(),
        ensures
            n == self@.unique.dom().len(),
    {
        proof {
            lemma_as_map_len(unique_seq(self.unique@));
        }
        self.unique.len()
    }

    /// The candidates, in pool order.
    pub fn candidates(&self) -> (r: &[Candidate])
        ensures
            candidates_v(r@) == self@.pool,
    {
        self.pool.as_slice()
    }
}

/// At most one candidate is the generic rule's pick.
pub proof fn lemma_pick_unique(pool: Seq<CandidateV>, target: int, i: int, j: int)
    requires
        is_pick(pool, target, i),
        is_pick(pool, target, j),
    ensures
        i == j,
{
    assert(rank_dist(pool[i], target) <= rank_dist(pool[j], target));
    assert(rank_dist(pool[j], target) <= rank_dist(pool[i], target));
    assert(dex_key(pool[i]) <= dex_key(pool[j]));
    assert(dex_key(pool[j]) <= dex_key(pool[i]));
    if i < j {
        assert(dex_key(pool[j]) < dex_key(pool[i]));
    } else if j < i {
        assert(dex_key(pool[i]) < dex_key(pool[j]));
    }
}

proof fn lemma_candidate_total(a: CandidateV, b: CandidateV)
    ensures
        candidate_le(a, b) || candidate_le(b, a),
{
    lemma_lex_total(a.tribe, b.tribe);
}

proof fn lemma_candidate_transitive(a: CandidateV, b: CandidateV, c: CandidateV)
    requires
        candidate_le(a, b),
        candidate_le(b, c),
    ensures
        candidate_le(a, c),
{
    if a.rank == b.rank && b.rank == c.rank {
        lemma_lex_transitive(a.tribe, b.tribe, c.tribe);
    }
}

/// Inserting where everything before is no greater and everything after no
/// smaller keeps a pool sorted.
proof fn lemma_insert_sorted(s: Seq<CandidateV>, p: int, c: CandidateV)
    requires
        sorted_pool(s),
        0 <= p <= s.len(),
        forall|k: int| 0 <= k < p ==> candidate_le(#[trigger] s[k], c),
        forall|k: int| p <= k < s.len() ==> candidate_le(c, #[trigger] s[k]),
    ensures
        sorted_pool(s.insert(p, c)),
{
    let t = s.insert(p, c);
    assert forall|i: int, j: int| 0 <= i < j < t.len() implies candidate_le(#[trigger] t[i], #[trigger] t[j]) by {
        if i < p && j < p {
            assert(t[i] == s[i] && t[j] == s[j]);
        } else if i < p && j == p {
            assert(t[i] == s[i]);
        } else if i < p && j > p {
            assert(t[i] == s[i] && t[j] == s[j - 1]);
        } else if i == p {
            assert(t[j] == s[j - 1]);
        } else {
            assert(t[i] == s[i - 1] && t[j] == s[j - 1]);
        }
    }
}

/// Whether `a` sorts no later than `b`.
fn candidate_before(a: &Candidate, b: &Candidate) -> (r: bool)
    ensures
        r == candidate_le(a@, b@),
{
    a.rank < b.rank || (a.rank == b.rank && str_le(a.tribe.as_str(), b.tribe.as_str()))
}

/// `|rank - target|`.
fn rank_distance(rank: u32, target: u32) -> (d: u32)
    ensures
        d == (if rank >= target { rank - target } else { target - rank }),
{
    if rank >= target {
        rank - target
    } else {
        target - rank
    }
}

/// The tie-break key: the Paldeck number, a species without one last.
fn dex_rank(zukan: u32) -> (k: u32)
    ensures
        k == (if zukan == 0 { u32::MAX } else { zukan }),
{
    if zukan == 0 {
        u32::MAX
    } else {
        zukan
    }
}

/// Whether `key` occurs in `keys`.
fn contains_key(keys: &Vec<String>, key: &String) -> (b: bool)
    ensures
        b == (exists|i: int| 0 <= i < keys@.len() && keys@[i]@ == key@),
{
    let mut i: usize = 0;
    while i < keys.len()
        invariant
            i <= keys@.len(),
            forall|j: int| 0 <= j < i ==> keys@[j]@ != key@,
        decreases keys@.len() - i,
    {
        if keys[i] == *key {
            return true;
        }
        i += 1;
    }
    false
}

impl BreedingIndex {
    /// Where `key`'s parent entry sits.
    #[verifier::loop_isolation(false)]
    fn parent_index(&self, key: &str) -> (r: Option<usize>)
        requires
            self.wf(),
        ensures
            match r {
                Some(i) => i < self.parents@.len() && self@.parents.contains_key(key@)
                    && self@.parents[key@] == self.parents@[i as int].1@,
                None => !self@.parents.contains_key(key@),
            },
    {
        let ghost s = parents_seq(self.parents@);
        let mut i: usize = 0;
        while i < self.parents.len()
            invariant
                s == parents_seq(self.parents@),
                i <= self.parents@.len(),
                forall|j: int| 0 <= j < i ==> s[j].0 != key@,
            decreases self.parents@.len() - i,
        {
            if crate::text::str_eq(self.parents[i].0.as_str(), key) {
                proof {
                    lemma_as_map_index(s, i as int);
                }
                return Some(i);
            }
            i += 1;
        }
        proof {
            lemma_as_map_dom(s, key@);
        }
        None
    }

    /// Where the unique combo for `pair` sits.
    #[verifier::loop_isolation(false)]
    fn unique_index(&self, pair: &(String, String)) -> (r: Option<usize>)
        requires
            self.wf(),
        ensures
            match r {
                Some(i) => i < self.unique@.len() && self@.unique.contains_key((pair.0@, pair.1@))
                    && self@.unique[(pair.0@, pair.1@)] == self.unique@[i as int].1@,
                None => !self@.unique.contains_key((pair.0@, pair.1@)),
            },
    {
        let ghost s = unique_seq(self.unique@);
        let mut i: usize = 0;
        while i < self.unique.len()
            invariant
                s == unique_seq(self.unique@),
                i <= self.unique@.len(),
                forall|j: int| 0 <= j < i ==> s[j].0 != (pair.0@, pair.1@),
            decreases self.unique@.len() - i,
        {
            if self.unique[i].0.0 == pair.0 && self.unique[i].0.1 == pair.1 {
                proof {
                    lemma_as_map_index(s, i as int);
                }
                return Some(i);
            }
            i += 1;
        }
        proof {
            lemma_as_map_dom(s, (pair.0@, pair.1@));
        }
        None
    }

    /// The child of two parents, as a `CharacterID`.
    ///
    /// Both arguments are normalized lookup keys. A unique combo naming the
    /// parents' tribes wins; otherwise the candidate closest in rank to the
    /// rounded-up average, ties going to the lower Paldeck number.
    #[verifier::loop_isolation(false)]
    pub fn child_of(&self, a: &str, b: &str) -> (r: Option<&str>)
        requires
            self.wf(),
        ensures
            match r {
                Some(c) => child_spec(self@, a@, b@) == Some(c@),
                None => child_spec(self@, a@, b@) is None,
            },
    {
        let ia = match self.parent_index(a) {
            Some(i) => i,
            None => {
                return None;
            },
        };
        let ib = match self.parent_index(b) {
            Some(i) => i,
            None => {
                return None;
            },
        };
        proof {
            self.lemma_parent_ranks(a@);
            self.lemma_parent_ranks(b@);
        }
        let pa = &self.parents[ia].1;
        let pb = &self.parents[ib].1;
        let pair = tribe_pair(pa.tribe.as_str(), pb.tribe.as_str());
        if let Some(j) = self.unique_index(&pair) {
            return Some(self.unique[j].1.as_str());
        }
        // `floor((a + b + 1) / 2)`: the average, rounded up.
        let target: u32 = (pa.rank + pb.rank + 1) / 2;
        let ghost pool = self@.pool;
        let n = self.pool.len();
        if n == 0 {
            proof {
                assert(!exists|i: int| is_pick(pool, target as int, i));
            }
            return None;
        }
        let mut best = rank_distance(self.pool[0].rank, target);
        proof {
            assert(pool[0].rank == self.pool@[0].rank);
            assert(rank_dist(pool[0], target as int) == best);
        }
        let mut i: usize = 1;
        while i < n
            invariant
                n == self.pool@.len() == pool.len(),
                pool == self@.pool,
                1 <= i <= n,
                exists|j: int| 0 <= j < i && rank_dist(pool[j], target as int) == best,
                forall|j: int| 0 <= j < i ==> best <= rank_dist(#[trigger] pool[j], target as int),
            decreases n - i,
        {
            let d = rank_distance(self.pool[i].rank, target);
            proof {
                assert(pool[i as int].rank == self.pool@[i as int].rank);
                assert(rank_dist(pool[i as int], target as int) == d);
            }
            if d < best {
                best = d;
            }
            i += 1;
        }
        // Ties go to the lower Paldeck number; the first such candidate wins.
        let mut pick: usize = n;
        let mut i: usize = 0;
        while i < n
            invariant
                n == self.pool@.len() == pool.len(),
                pool == self@.pool,
                i <= n,
                pick <= n,
                forall|j: int| 0 <= j < n ==> best <= rank_dist(#[trigger] pool[j], target as int),
                exists|j: int| 0 <= j < n && rank_dist(pool[j], target as int) == best,
                pick == n ==> forall|j: int| 0 <= j < i ==> rank_dist(#[trigger] pool[j], target as int) != best,
                pick < n ==> pick < i && rank_dist(pool[pick as int], target as int) == best,
                pick < n ==> forall|j: int|
                    0 <= j < i && rank_dist(#[trigger] pool[j], target as int) == best ==> dex_key(pool[pick as int])
                        <= dex_key(pool[j]),
                pick < n ==> forall|j: int|
                    0 <= j < pick && rank_dist(#[trigger] pool[j], target as int) == best ==> dex_key(pool[pick as int])
                        < dex_key(pool[j]),
            decreases n - i,
        {
            let di = rank_distance(self.pool[i].rank, target);
            let ki = dex_rank(self.pool[i].zukan);
            proof {
                assert(pool[i as int].rank == self.pool@[i as int].rank);
                assert(pool[i as int].zukan == self.pool@[i as int].zukan);
                assert(rank_dist(pool[i as int], target as int) == di);
                assert(dex_key(pool[i as int]) == ki);
                if pick < n {
                    assert(pool[pick as int].zukan == self.pool@[pick as int].zukan);
                }
            }
            if di == best {
                if pick == n || ki < dex_rank(self.pool[pick].zukan) {
                    pick = i;
                }
            }
            i += 1;
        }
        proof {
            if pick == n {
                let w = choose|j: int| 0 <= j < n && rank_dist(pool[j], target as int) == best;
                assert(rank_dist(pool[w], target as int) != best);
            }
            assert(pick < n);
            assert(is_pick(pool, target as int, pick as int));
            let c = choose|i: int| is_pick(pool, target as int, i);
            lemma_pick_unique(pool, target as int, c, pick as int);
        }
        Some(self.pool[pick].character_id.as_str())
    }
}

impl BreedingIndex {
    /// Drop `key`'s parent entry, if it has one.
    #[verifier::loop_isolation(false)]
    fn remove_parent(&mut self, key: &String)
        requires
            old(self).wf(),
        ensures
            final(self).wf(),
            final(self)@.parents == old(self)@.parents.remove(key@),
            final(self)@.unique == old(self)@.unique,
            final(self)@.pool == old(self)@.pool,
            final(self)@.ignored == old(self)@.ignored,
    {
        let ghost s = parents_seq(self.parents@);
        let mut i: usize = 0;
        while i < self.parents.len()
            invariant
                s == parents_seq(self.parents@),
                i <= self.parents@.len(),
                forall|j: int| 0 <= j < i ==> s[j].0 != key@,
            decreases self.parents@.len() - i,
        {
            if self.parents[i].0 == *key {
                break;
            }
            i += 1;
        }
        if i < self.parents.len() {
            proof {
                lemma_as_map_remove(s, i as int);
                assert(parents_seq(self.parents@.remove(i as int)) =~= s.remove(i as int));
            }
            let ghost before = self.parents@;
            self.parents.remove(i);
            proof {
                assert forall|j: int| 0 <= j < self.parents@.len() implies #[trigger] self.parents@[j].1.rank
                    < RANK_SENTINEL by {
                    if j < i {
                        assert(self.parents@[j] == before[j]);
                    } else {
                        assert(self.parents@[j] == before[j + 1]);
                    }
                }
            }
        } else {
            proof {
                lemma_as_map_dom(s, key@);
                assert(as_map(s).remove(key@) =~= as_map(s));
            }
        }
    }

    /// Sort the candidate pool by rank, then tribe.
    fn sort_pool(&mut self)
        requires
            old(self).wf(),
        ensures
            final(self).wf(),
            final(self)@.pool.to_multiset() == old(self)@.pool.to_multiset(),
            sorted_pool(final(self)@.pool),
            final(self)@.parents == old(self)@.parents,
            final(self)@.unique == old(self)@.unique,
            final(self)@.ignored == old(self)@.ignored,
    {
        let mut rest: Vec<Candidate> = Vec::new();
        std::mem::swap(&mut rest, &mut self.pool);
        let ghost all = candidates_v(rest@);
        let mut sorted: Vec<Candidate> = Vec::new();
        proof {
            assert(candidates_v(sorted@) =~= Seq::<CandidateV>::empty());
        }
        while rest.len() > 0
            invariant
                sorted_pool(candidates_v(sorted@)),
                candidates_v(rest@).to_multiset().add(candidates_v(sorted@).to_multiset()) == all.to_multiset(),
            decreases rest@.len(),
        {
            let ghost rest_before = candidates_v(rest@);
            let c = rest.pop().unwrap();
            proof {
                assert(rest_before =~= candidates_v(rest@).push(c@));
            }
            let ghost sv = candidates_v(sorted@);
            let mut p: usize = 0;
            while p < sorted.len() && !candidate_before(&c, &sorted[p])
                invariant
                    sv == candidates_v(sorted@),
                    p <= sv.len(),
                    forall|k: int| 0 <= k < p ==> candidate_le(#[trigger] sv[k], c@),
                decreases sv.len() - p,
            {
                proof {
                    lemma_candidate_total(c@, sv[p as int]);
                }
                p += 1;
            }
            proof {
                assert forall|k: int| p <= k < sv.len() implies candidate_le(c@, #[trigger] sv[k]) by {
                    if k > p {
                        lemma_candidate_transitive(c@, sv[p as int], sv[k]);
                    }
                }
                lemma_insert_sorted(sv, p as int, c@);
                assert(candidates_v(sorted@.insert(p as int, c)) =~= sv.insert(p as int, c@));
            }
            sorted.insert(p, c);
        }
        self.pool = sorted;
        proof {
            assert(candidates_v(rest@) =~= Seq::<CandidateV>::empty());
            assert(candidates_v(self.pool@).to_multiset() =~= all.to_multiset());
        }
    }

    /// The lookup keys of every species something breeds into.
    fn producible_keys(&self) -> (r: Vec<String>)
        requires
            self.wf(),
        ensures
            forall|n: Seq<char>| (exists|i: int| 0 <= i < r@.len() && r@[i]@ == n) <==> producible(
                self@.pool,
                self@.unique,
            ).contains(n),
    {
        let mut keys: Vec<String> = Vec::new();
        let mut i: usize = 0;
        while i < self.pool.len()
            invariant
                i <= self.pool@.len(),
                keys@.len() == i,
                forall|j: int| 0 <= j < i ==> #[trigger] keys@[j]@ == normalized(self@.pool[j].character_id),
            decreases self.pool@.len() - i,
        {
            keys.push(normalize_key(self.pool[i].character_id.as_str()));
            i += 1;
        }
        let ghost pool_count = keys@.len();
        let ghost u = unique_seq(self.unique@);
        let mut j: usize = 0;
        while j < self.unique.len()
            invariant
                j <= self.unique@.len(),
                u == unique_seq(self.unique@),
                pool_count == self@.pool.len(),
                keys@.len() == pool_count + j,
                forall|k: int| 0 <= k < pool_count ==> #[trigger] keys@[k]@ == normalized(self@.pool[k].character_id),
                forall|k: int| 0 <= k < j ==> #[trigger] keys@[pool_count + k]@ == normalized(u[k].1),
            decreases self.unique@.len() - j,
        {
            keys.push(normalize_key(self.unique[j].1.as_str()));
            j += 1;
        }
        proof {
            let m = as_map(u);
            assert(self@.unique == m);
            assert forall|n: Seq<char>| (exists|i: int| 0 <= i < keys@.len() && keys@[i]@ == n) implies producible(
                self@.pool,
                self@.unique,
            ).contains(n) by {
                let i = choose|i: int| 0 <= i < keys@.len() && keys@[i]@ == n;
                if i < pool_count {
                    assert(normalized(self@.pool[i].character_id) == n);
                } else {
                    let t = i - pool_count;
                    assert(keys@[pool_count + t]@ == normalized(u[t].1));
                    lemma_as_map_index(u, t);
                    assert(m.contains_key(u[t].0) && normalized(m[u[t].0]) == n);
                }
            }
            assert forall|n: Seq<char>| producible(self@.pool, self@.unique).contains(n) implies (exists|i: int|
                0 <= i < keys@.len() && keys@[i]@ == n) by {
                if exists|i: int| 0 <= i < self@.pool.len() && normalized(self@.pool[i].character_id) == n {
                    let i = choose|i: int| 0 <= i < self@.pool.len() && normalized(self@.pool[i].character_id) == n;
                    assert(keys@[i]@ == n);
                } else {
                    let k = choose|k: (Seq<char>, Seq<char>)| m.contains_key(k) && normalized(m[k]) == n;
                    lemma_as_map_dom(u, k);
                    let t = choose|t: int| 0 <= t < u.len() && u[t].0 == k;
                    lemma_as_map_index(u, t);
                    assert(keys@[pool_count + t]@ == n);
                }
            }
        }
        keys
    }

    /// Sort the candidate pool and drop the parents nothing breeds into.
    /// Call once, after every row is added.
    ///
    /// `IgnoreCombi` alone only keeps a species out of the generic rule's
    /// results. A species carrying it that no unique combo names either has
    /// no breeding route at all, and is not a breeding parent. Whether a
    /// unique combo names it is only known once every row is read.
    pub fn finish(&mut self)
        requires
            old(self).wf(),
        ensures
            final(self).wf(),
            final(self)@.pool.to_multiset() == old(self)@.pool.to_multiset(),
            sorted_pool(final(self)@.pool),
            final(self)@.parents == old(self)@.parents.remove_keys(unbred(old(self)@)),
            final(self)@.unique == old(self)@.unique,
            final(self)@.ignored == Seq::<(Seq<char>, Seq<char>)>::empty(),
    {
        let ghost start = self@;
        let keys = self.producible_keys();
        self.sort_pool();
        let mut ignored: Vec<(String, String)> = Vec::new();
        std::mem::swap(&mut ignored, &mut self.ignored);
        proof {
            assert(pairs_v(self.ignored@) =~= Seq::<(Seq<char>, Seq<char>)>::empty());
            assert(pairs_v(ignored@) == start.ignored);
        }
        let mut i: usize = 0;
        while i < ignored.len()
            invariant
                self.wf(),
                pairs_v(ignored@) == start.ignored,
                self@.pool.to_multiset() == start.pool.to_multiset(),
                sorted_pool(self@.pool),
                self@.unique == start.unique,
                self@.ignored == Seq::<(Seq<char>, Seq<char>)>::empty(),
                i <= ignored@.len(),
                forall|n: Seq<char>| (exists|k: int| 0 <= k < keys@.len() && keys@[k]@ == n) <==> producible(
                    start.pool,
                    start.unique,
                ).contains(n),
                self@.parents == start.parents.remove_keys(
                    Set::new(
                        |k: Seq<char>|
                            (exists|j: int| 0 <= j < i && start.ignored[j].0 == k) && !producible(
                                start.pool,
                                start.unique,
                            ).contains(normalized(k)),
                    ),
                ),
            decreases ignored@.len() - i,
        {
            let ghost done = Set::new(
                |k: Seq<char>|
                    (exists|j: int| 0 <= j < i && start.ignored[j].0 == k) && !producible(
                        start.pool,
                        start.unique,
                    ).contains(normalized(k)),
            );
            let ghost next = Set::new(
                |k: Seq<char>|
                    (exists|j: int| 0 <= j < i + 1 && start.ignored[j].0 == k) && !producible(
                        start.pool,
                        start.unique,
                    ).contains(normalized(k)),
            );
            let key = &ignored[i].0;
            let n = normalize_key(key.as_str());
            proof {
                assert(start.ignored[i as int].0 == key@);
            }
            if !contains_key(&keys, &n) {
                self.remove_parent(key);
                proof {
                    assert(next =~= done.insert(key@));
                    assert(start.parents.remove_keys(next) =~= start.parents.remove_keys(done).remove(key@));
                }
            } else {
                proof {
                    assert(next =~= done);
                }
            }
            i += 1;
        }
        proof {
            assert(Set::new(
                |k: Seq<char>|
                    (exists|j: int| 0 <= j < ignored@.len() && start.ignored[j].0 == k) && !producible(
                        start.pool,
                        start.unique,
                    ).contains(normalized(k)),
            ) =~= unbred(start));
        }
    }
}

/// The unique-combo key of two tribes does not depend on their order.
pub proof fn lemma_tribe_pair_symmetric(a: Seq<char>, b: Seq<char>)
    ensures
        tribe_pair_spec(a, b) == tribe_pair_spec(b, a),
{
    let x = ascii_lowercase(a);
    let y = ascii_lowercase(b);
    lemma_lex_total(x, y);
    if lex_le(x, y) && lex_le(y, x) {
        lemma_lex_antisymmetric(x, y);
    }
}

/// Breeding is symmetric: which parent is named first does not change the
/// child.
pub proof fn lemma_child_symmetric(s: BreedingIndexV, a: Seq<char>, b: Seq<char>)
    ensures
        child_spec(s, a, b) == child_spec(s, b, a),
{
    if s.parents.contains_key(a) && s.parents.contains_key(b) {
        lemma_tribe_pair_symmetric(s.parents[a].tribe, s.parents[b].tribe);
        assert(target_rank(s.parents[a].rank, s.parents[b].rank) == target_rank(
            s.parents[b].rank,
            s.parents[a].rank,
        ));
    }
}

/// A unique combo naming the parents' tribes decides their child, whatever
/// the ranks say.
pub proof fn lemma_unique_combo_wins(s: BreedingIndexV, a: Seq<char>, b: Seq<char>)
    requires
        s.parents.contains_key(a),
        s.parents.contains_key(b),
        s.unique.contains_key(tribe_pair_spec(s.parents[a].tribe, s.parents[b].tribe)),
    ensures
        child_spec(s, a, b) == Some(s.unique[tribe_pair_spec(s.parents[a].tribe, s.parents[b].tribe)]),
{
}

/// Self-breeding is a fixed point: when no unique combo names a parent's
/// tribe with itself and exactly one candidate holds the parent's rank, two
/// of that parent breed that candidate.
pub proof fn lemma_self_breeding(s: BreedingIndexV, a: Seq<char>, i: int)
    requires
        s.parents.contains_key(a),
        !s.unique.contains_key(tribe_pair_spec(s.parents[a].tribe, s.parents[a].tribe)),
        0 <= i < s.pool.len(),
        s.pool[i].rank == s.parents[a].rank,
        forall|j: int| 0 <= j < s.pool.len() && j != i ==> #[trigger] s.pool[j].rank != s.parents[a].rank,
    ensures
        child_spec(s, a, a) == Some(s.pool[i].character_id),
{
    let r = s.parents[a].rank;
    let t = target_rank(r, r);
    assert(t == r);
    assert(rank_dist(s.pool[i], t) == 0);
    assert forall|j: int| 0 <= j < s.pool.len() && j != i implies rank_dist(#[trigger] s.pool[j], t) > 0 by {
        assert(s.pool[j].rank != r);
    }
    assert(is_pick(s.pool, t, i));
    let c = choose|k: int| is_pick(s.pool, t, k);
    lemma_pick_unique(s.pool, t, c, i);
}

/// Every breeding result is something the rules produce: a candidate of the
/// pool or the child of a unique combo.
pub proof fn lemma_child_producible(s: BreedingIndexV, a: Seq<char>, b: Seq<char>)
    requires
        child_spec(s, a, b) is Some,
    ensures
        producible(s.pool, s.unique).contains(normalized(child_spec(s, a, b)->Some_0)),
{
    let c = child_spec(s, a, b)->Some_0;
    let pair = tribe_pair_spec(s.parents[a].tribe, s.parents[b].tribe);
    if s.unique.contains_key(pair) {
        assert(s.unique.contains_key(pair) && normalized(s.unique[pair]) == normalized(c));
    } else {
        let t = target_rank(s.parents[a].rank, s.parents[b].rank);
        let i = choose|i: int| is_pick(s.pool, t, i);
        assert(0 <= i < s.pool.len() && normalized(s.pool[i].character_id) == normalized(c));
    }
}

/// No two candidates of the pool share a tribe.
pub open spec fn one_per_tribe(pool: Seq<CandidateV>) -> bool {
    forall|i: int, j: int| 0 <= i < j < pool.len() ==> !same_tribe(#[trigger] pool[i].tribe, #[trigger] pool[j].tribe)
}

proof fn lemma_no_tribe_slot(pool: Seq<CandidateV>, tribe: Seq<char>, from: int, i: int)
    requires
        0 <= from <= i < pool.len(),
        tribe_slot(pool, tribe, from) is None,
    ensures
        !same_tribe(pool[i].tribe, tribe),
    decreases pool.len() - from,
{
    if from < i {
        lemma_no_tribe_slot(pool, tribe, from + 1, i);
    }
}

proof fn lemma_tribe_slot_in_bounds(pool: Seq<CandidateV>, tribe: Seq<char>, from: int)
    requires
        tribe_slot(pool, tribe, from) is Some,
    ensures
        0 <= tribe_slot(pool, tribe, from)->Some_0 < pool.len(),
    decreases pool.len() - from,
{
    if from >= 0 && from < pool.len() && !same_tribe(pool[from].tribe, tribe) {
        lemma_tribe_slot_in_bounds(pool, tribe, from + 1);
    }
}

/// Offering a species to the pool keeps one candidate per tribe: a species
/// whose tribe already has its candidate can only take that candidate's
/// place.
pub proof fn lemma_pool_after_one_per_tribe(pool: Seq<CandidateV>, tribe: Seq<char>, id: Seq<char>, rank: u32, zukan: u32)
    requires
        one_per_tribe(pool),
    ensures
        one_per_tribe(pool_after(pool, tribe, id, rank, zukan)),
{
    let after = pool_after(pool, tribe, id, rank, zukan);
    match tribe_slot(pool, tribe, 0) {
        Some(j) => {
            lemma_tribe_slot_in_bounds(pool, tribe, 0);
            assert forall|a: int, b: int| 0 <= a < b < after.len() implies !same_tribe(
                #[trigger] after[a].tribe,
                #[trigger] after[b].tribe,
            ) by {
                assert(after[a].tribe == pool[a].tribe && after[b].tribe == pool[b].tribe);
            }
        },
        None => {
            assert forall|a: int, b: int| 0 <= a < b < after.len() implies !same_tribe(
                #[trigger] after[a].tribe,
                #[trigger] after[b].tribe,
            ) by {
                if b == pool.len() {
                    lemma_no_tribe_slot(pool, tribe, 0, a);
                } else {
                    assert(after[a] == pool[a] && after[b] == pool[b]);
                }
            }
        },
    }
}

} // verus!
