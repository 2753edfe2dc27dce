use paldex::data::breeding::{BreedingIndex, SpeciesRow};

fn add(b: &mut BreedingIndex, key: &str, id: &str, tribe: &str, rank: u32, ignore_combi: bool, zukan: u32) {
    b.add_species(&SpeciesRow { key, character_id: id, tribe, rank, is_pal: true, ignore_combi, zukan });
}

fn index() -> BreedingIndex {
    let mut b = BreedingIndex::new();
    // Paldeck numbers run opposite to rank so the tie-break rules differ.
    add(&mut b, "a", "A", "TribeA", 100, false, 20);
    add(&mut b, "b", "B", "TribeB", 110, false, 10);
    add(&mut b, "c", "C", "TribeC", 120, false, 30);
    // A quest duplicate of TribeA must not enter the pool.
    add(&mut b, "quest_a", "Quest_A", "TribeA", 100, false, 0);
    // `X` has no unique combo: nothing produces it and it is not a parent.
    add(&mut b, "x", "X", "TribeX", 130, true, 40);
    // `Y` is named by one, so it breeds true and is a parent.
    add(&mut b, "y", "Y", "TribeY", 140, true, 50);
    b.add_unique("TribeY", "TribeY", "Y");
    b.finish();
    b
}

#[test]
fn one_candidate_per_tribe() {
    let b = index();
    assert_eq!(b.candidate_count(), 3, "TribeX is ignored, Quest_A is deduped");
}

#[test]
fn self_breeding_is_a_fixed_point() {
    let b = index();
    for (key, want) in [("a", "A"), ("b", "B"), ("c", "C")] {
        assert_eq!(b.child_of(key, key), Some(want));
    }
}

#[test]
fn exact_midpoint_resolves_to_the_middle_candidate() {
    let b = index();
    assert_eq!(b.child_of("a", "c"), Some("B"));
}

#[test]
fn a_tie_goes_to_the_lower_paldeck_number() {
    let b = index();
    assert_eq!(b.child_of("a", "b"), Some("B"));
}

#[test]
fn unique_combos_override_the_generic_rule() {
    let mut b = index();
    b.add_unique("TribeA", "TribeB", "SpecialChild");
    assert_eq!(b.child_of("a", "b"), Some("SpecialChild"));
    assert_eq!(b.child_of("b", "a"), Some("SpecialChild"));
}

#[test]
fn an_ignored_species_with_a_unique_combo_still_breeds() {
    let b = index();
    assert_eq!(b.child_of("y", "y"), Some("Y"), "breeds true via its unique combo");
    assert!(b.child_of("y", "a").is_some(), "and is a parent alongside anything else");
    assert!(b.candidates().iter().all(|c| c.character_id != "Y"), "the generic rule never lands on it");
}

#[test]
fn an_ignored_species_with_no_unique_combo_does_not_breed() {
    let b = index();
    assert_eq!(b.child_of("x", "x"), None, "not a parent");
    assert_eq!(b.child_of("x", "a"), None, "nor alongside anything else");
    assert_eq!(b.child_of("a", "x"), None, "either way round");
    assert!(b.candidates().iter().all(|c| c.character_id != "X"), "and never a child");
}

#[test]
fn a_shadowed_species_is_still_a_parent() {
    let b = index();
    assert_eq!(b.child_of("quest_a", "quest_a"), Some("A"));
    assert!(b.candidates().iter().all(|c| c.character_id != "Quest_A"));
}

#[test]
fn unknown_parents_yield_nothing() {
    let b = index();
    assert_eq!(b.child_of("a", "nope"), None);
    assert_eq!(b.child_of("nope", "nope"), None);
}

#[test]
fn the_pool_is_sorted_by_rank_after_finish() {
    let mut b = BreedingIndex::new();
    add(&mut b, "c", "C", "TribeC", 120, false, 3);
    add(&mut b, "a", "A", "TribeA", 100, false, 1);
    add(&mut b, "b", "B", "TribeB", 110, false, 2);
    b.finish();
    let ranks: Vec<u32> = b.candidates().iter().map(|c| c.rank).collect();
    assert_eq!(ranks, vec![100, 110, 120]);
}

#[test]
fn a_species_without_a_paldeck_number_loses_a_tie() {
    let mut b = BreedingIndex::new();
    add(&mut b, "lo", "Lo", "TribeLo", 100, false, 0);
    add(&mut b, "hi", "Hi", "TribeHi", 110, false, 99);
    b.finish();
    // Target 105 is equidistant; zero sorts last, so Hi wins.
    assert_eq!(b.child_of("lo", "hi"), Some("Hi"));
}

#[test]
fn rows_without_a_tribe_or_rank_are_skipped() {
    let mut b = BreedingIndex::new();
    add(&mut b, "n", "N", "", 100, false, 1);
    add(&mut b, "z", "Z", "TribeZ", 0, false, 1);
    add(&mut b, "s", "S", "TribeS", 9999, false, 1);
    b.finish();
    assert_eq!(b.candidate_count(), 0);
    assert_eq!(b.child_of("n", "n"), None);
    assert_eq!(b.unique_combo_count(), 0);
}

#[test]
fn a_unique_combo_is_case_insensitive_and_counted_once() {
    let mut b = index();
    let before = b.unique_combo_count();
    b.add_unique("tribea", "TRIBEB", "One");
    b.add_unique("TribeB", "TribeA", "Two");
    assert_eq!(b.unique_combo_count(), before + 1);
    assert_eq!(b.child_of("a", "b"), Some("Two"));
}

#[test]
fn a_row_named_after_its_tribe_represents_it() {
    let mut b = BreedingIndex::new();
    add(&mut b, "v", "Variant", "Wolf", 200, false, 5);
    add(&mut b, "w", "wolf", "Wolf", 210, false, 0);
    b.finish();
    assert_eq!(b.candidate_count(), 1);
    assert_eq!(b.candidates()[0].character_id, "wolf");
    assert_eq!(b.candidates()[0].rank, 210);
}
