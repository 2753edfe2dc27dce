use paldex::data::datatable::Row;
use paldex::data::extract::ReferenceIndex;
use paldex::data::reference::Species;
use paldex::data::unversioned::{Properties, Value};
use paldex::assoc::StrMap;
use paldex::data::reference::{BaseStats, PassiveSkill, ReferenceData};
use paldex::data::text_table::TextEntry;
use paldex::views::{
    attach_pal_rows, base_pals, breeding_targets, roster_owner_clause, dex_with_reference, dex_without_reference, element_views, enrich_flags,
    enrich_roster, passive_labels, player_scope, resolve_or_id, work_views, BasePals, DexFacts,
    PalView, PlayerFlagsView, PlayerScope,
};

#[test]
fn base_pals_default_to_included_under_every_scope() {
    assert_eq!(base_pals(None), BasePals::Include, "an absent flag is the default");
    assert_eq!(base_pals(Some(true)), BasePals::Include);
    assert_eq!(base_pals(Some(false)), BasePals::Exclude);

    for uid in [None, Some("11111111-2222-3333-4444-555555555555")] {
        let scope = player_scope(uid);
        let expected = if uid.is_some() {
            PlayerScope::Only("11111111-2222-3333-4444-555555555555")
        } else {
            PlayerScope::All
        };
        assert_eq!(scope, expected);
        assert_eq!(base_pals(None), BasePals::Include);
    }
}

#[test]
fn an_empty_uid_is_every_player() {
    assert_eq!(player_scope(Some("")), PlayerScope::All);
    assert_eq!(player_scope(Some("abc")).uid(), Some("abc"));
    assert_eq!(PlayerScope::All.uid(), None);
}

fn parameter_row(name: &str, tribe: &str, rank: i64, zukan: i64, ignore: bool) -> Row {
    let mut p = Properties::new();
    p.insert("Tribe".into(), Value::Enum(tribe.into()));
    p.insert("CombiRank".into(), Value::Int(rank));
    p.insert("IsPal".into(), Value::Bool(true));
    p.insert("IgnoreCombi".into(), Value::Bool(ignore));
    p.insert("ZukanIndex".into(), Value::Int(zukan));
    Row { name: name.into(), properties: p }
}

fn unique_row(a: &str, b: &str, child: &str) -> Row {
    let mut p = Properties::new();
    p.insert("ParentTribeA".into(), Value::Enum(a.into()));
    p.insert("ParentTribeB".into(), Value::Enum(b.into()));
    p.insert("ChildCharacterID".into(), Value::Name(child.into()));
    Row { name: format!("{a}_{b}"), properties: p }
}

fn species(id: &str, name: &str) -> Species {
    Species { character_id: id.into(), display_name: name.into(), ..Default::default() }
}

fn breeding_index() -> ReferenceIndex {
    let mut index = ReferenceIndex::default();
    index.insert_species("sheepball".into(), species("SheepBall", "Lamball"));
    index.insert_species("chickenpal".into(), species("ChickenPal", "Chikipi"));
    index.insert_species("lazydragon".into(), species("LazyDragon", "Relaxaurus"));
    index.insert_species("hermit".into(), species("Hermit", "Loner"));
    let rows = vec![
        parameter_row("SheepBall", "EPalTribeID::SheepBall", 1470, 1, false),
        parameter_row("ChickenPal", "EPalTribeID::ChickenPal", 1500, 2, false),
        parameter_row("LazyDragon", "EPalTribeID::LazyDragon", 300, 0, false),
        parameter_row("Hermit", "EPalTribeID::Hermit", 900, 0, true),
    ];
    let mut best = StrMap::new();
    index.apply_parameter_rows(&rows, &mut best);
    index.apply_unique_rows(&[unique_row("EPalTribeID::SheepBall", "EPalTribeID::ChickenPal", "LazyDragon")]);
    index.finish_breeding();
    index
}

#[test]
fn the_picker_offers_species_that_breed_true_in_paldeck_order() {
    let index = breeding_index();
    let targets = breeding_targets(&index);
    let ids: Vec<&str> = targets.iter().map(|t| t.character_id.as_str()).collect();
    // The ignored species is in no pool and named by no unique combo.
    assert_eq!(ids, vec!["SheepBall", "ChickenPal", "LazyDragon"]);
    let labels: Vec<Option<&str>> = targets.iter().map(|t| t.dex_label.as_deref()).collect();
    assert_eq!(labels, vec![Some("001"), Some("002"), None]);
    assert_eq!(targets[0].display_name, "Lamball");
}

#[test]
fn the_picker_is_empty_without_breeding_data() {
    let mut index = ReferenceIndex::default();
    index.insert_species("sheepball".into(), species("SheepBall", "Lamball"));
    assert!(breeding_targets(&index).is_empty());
}

fn label(key: &str, text: &str) -> TextEntry {
    TextEntry { key: key.into(), text: Some(text.into()) }
}

fn labelled_index() -> ReferenceIndex {
    let mut index = ReferenceIndex::with_language("en");
    let mut lamball = species("SheepBall", "Lamball");
    lamball.elements = vec!["Normal".into()];
    lamball.rarity = 1;
    lamball.dex_number = Some(1);
    lamball.stats = BaseStats { hp: 70, ..Default::default() };
    lamball.work_suitabilities.insert("Transport".into(), 1);
    lamball.work_suitabilities.insert("Handcraft".into(), 1);
    lamball.work_suitabilities.insert("Farming".into(), 1);
    index.insert_species("sheepball".into(), lamball);
    let mut anubis = species("Anubis", "Anubis");
    anubis.dex_number = Some(100);
    index.insert_species("anubis".into(), anubis);
    index.insert_species("raidboss".into(), species("RaidBoss", "Raid Boss"));
    index.insert_human_npc("hunter_rifle".into());
    index.insert_passive(
        "PASSIVE_CraftSpeed_up2".into(),
        PassiveSkill { id: "PASSIVE_CraftSpeed_up2".into(), display_name: "Artisan".into() },
    );
    index.apply_ui_labels(&[
        label("COMMON_ELEMENT_NAME_Normal", "Neutral"),
        label("COMMON_WORK_SUITABILITY_Handcraft", "Handiwork"),
        label("COMMON_WORK_SUITABILITY_Transport", "Transporting"),
    ]);
    index.apply_technology_names(&[label("NAME_RECIPE_AICORE", "Pal Metal Ingot")]);
    index
}

fn pal(id: &str, character_id: &str, passives: &[&str]) -> PalView {
    PalView {
        instance_id: id.into(),
        character_id: character_id.into(),
        display_name: None,
        elements: Vec::new(),
        rarity: 0,
        owner: None,
        level: 1,
        rank: 0,
        soul_hp: 0,
        soul_attack: 0,
        soul_defense: 0,
        soul_craft_speed: 0,
        iv_hp: 0,
        iv_shot: 0,
        iv_defense: 0,
        gender: "male".into(),
        is_lucky: false,
        is_boss: false,
        is_predator: false,
        nickname: None,
        location_kind: None,
        passives: passives.iter().map(|p| p.to_string()).collect(),
        passive_names: Vec::new(),
        equipped_moves: Vec::new(),
        mastered_moves: Vec::new(),
    }
}

#[test]
fn enrich_roster_names_species_and_drops_human_npcs() {
    let index = labelled_index();
    let mut roster = vec![
        pal("1", "BOSS_Sheepball", &["CraftSpeed_up2", "Unknown_X"]),
        pal("2", "Hunter_Rifle", &[]),
        pal("3", "Mystery", &[]),
    ];
    enrich_roster(&mut roster, &index);
    assert_eq!(roster.len(), 2);
    assert_eq!(roster[0].display_name.as_deref(), Some("Lamball"));
    assert_eq!(roster[0].rarity, 1);
    let elements: Vec<(&str, &str)> = roster[0].elements.iter().map(|e| (e.id.as_str(), e.name.as_str())).collect();
    assert_eq!(elements, vec![("Normal", "Neutral")]);
    assert_eq!(roster[0].passive_names, vec!["Artisan".to_string(), "Unknown_X".to_string()]);
    assert_eq!(roster[1].instance_id, "3");
    assert_eq!(roster[1].display_name, None);
}

#[test]
fn passive_labels_fall_back_to_the_ids_when_names_are_missing() {
    let mut view = pal("1", "SheepBall", &["A", "B"]);
    assert_eq!(passive_labels(&view), vec!["A".to_string(), "B".to_string()]);
    view.passive_names = vec!["Alpha".into(), "Beta".into()];
    assert_eq!(passive_labels(&view), vec!["Alpha".to_string(), "Beta".to_string()]);
}

#[test]
fn unresolved_ids_are_shown_as_is() {
    assert_eq!(resolve_or_id(Some("Lamball"), "SheepBall"), "Lamball");
    assert_eq!(resolve_or_id(None, "SheepBall"), "SheepBall");
    let index = labelled_index();
    let views = element_views(&["Normal".to_string(), "Fire".to_string()], &index);
    assert_eq!((views[0].id.as_str(), views[0].name.as_str()), ("Normal", "Neutral"));
    assert_eq!((views[1].id.as_str(), views[1].name.as_str()), ("Fire", "Fire"));
}

#[test]
fn work_suitabilities_follow_the_game_order_then_the_rest() {
    let index = labelled_index();
    let lamball = index.species("SheepBall").expect("species");
    let works = work_views(lamball, &index);
    let ids: Vec<&str> = works.iter().map(|w| w.id.as_str()).collect();
    assert_eq!(ids, vec!["Handcraft", "Transport", "Farming"]);
    assert_eq!(works[0].name, "Handiwork");
    assert_eq!(works[2].name, "Farming");
    assert_eq!(works[1].level, 1);
}

fn facts(unlocked: &[&str], counts: &[(&str, i64)], bonus: &[(&str, i64)]) -> DexFacts {
    let mut f = DexFacts::default();
    f.unlocked = unlocked.iter().map(|u| u.to_string()).collect();
    for (k, v) in counts {
        f.capture_counts.insert(k.to_string(), *v);
    }
    for (k, v) in bonus {
        f.bonus_tiers.insert(k.to_string(), *v);
    }
    f
}

#[test]
fn without_reference_the_dex_lists_caught_species_by_id() {
    let f = facts(&["SheepBall", "ChickenPal"], &[("SheepBall", 3)], &[("SheepBall", 1)]);
    let dex = dex_without_reference(&f);
    let ids: Vec<&str> = dex.entries.iter().map(|e| e.character_id.as_str()).collect();
    assert_eq!(ids, vec!["ChickenPal", "SheepBall"]);
    assert_eq!((dex.unlocked_species_count, dex.total_species_count), (2, 0));
    assert_eq!((dex.entries[1].capture_count, dex.entries[1].bonus_tier), (3, 1));
    assert_eq!(dex.entries[0].capture_count, 0);
    assert!(dex.entries.iter().all(|e| e.caught && e.stats.is_none() && e.dex_label.is_none()));
    assert_eq!(dex.unlocked_species, vec!["SheepBall".to_string(), "ChickenPal".to_string()]);
}

#[test]
fn dex_entries_fold_variants_onto_their_species() {
    let index = labelled_index();
    let f = facts(
        &["Sheepball", "BOSS_SheepBall", "RaidBoss", "NotASpecies"],
        &[("Sheepball", 2), ("BOSS_SheepBall", 5), ("NotASpecies", 9)],
        &[("BOSS_SheepBall", 1)],
    );
    let dex = dex_with_reference(&f, &index);
    let ids: Vec<&str> = dex.entries.iter().map(|e| e.character_id.as_str()).collect();
    // Numbered species in Paldeck order, then the caught unnumbered one.
    assert_eq!(ids, vec!["SheepBall", "Anubis", "RaidBoss"]);
    let lamball = &dex.entries[0];
    assert!(lamball.caught);
    assert_eq!((lamball.capture_count, lamball.bonus_tier), (5, 1));
    assert_eq!(lamball.dex_label.as_deref(), Some("001"));
    assert_eq!(lamball.stats.as_ref().map(|s| s.hp), Some(70));
    assert!(!dex.entries[1].caught);
    assert_eq!(dex.unlocked_species_count, 2);
    assert_eq!(dex.total_species_count, 2);
}

#[test]
fn enrichment_names_unlocked_technologies() {
    let index = labelled_index();
    let mut flags = vec![PlayerFlagsView {
        player_uid: "p".into(),
        unlocked_tech: vec!["AIcore".into(), "Mystery".into()],
        unlocked_tech_names: Vec::new(),
        normal_boss_defeated: Vec::new(),
        tower_boss_defeated: Vec::new(),
        specific_boss_defeated: Vec::new(),
        completed_quests: Vec::new(),
        relics_obtained: Vec::new(),
        notes_obtained: Vec::new(),
        fast_travel_unlocked: Vec::new(),
    }];
    enrich_flags(&mut flags, &index);
    assert_eq!(flags[0].unlocked_tech_names, vec!["Pal Metal Ingot".to_string(), "Mystery".to_string()]);
}

#[test]
fn the_roster_filter_admits_base_pals_only_when_asked() {
    let one = PlayerScope::Only("uid");
    assert_eq!(roster_owner_clause(PlayerScope::All, BasePals::Include), "");
    assert_eq!(roster_owner_clause(PlayerScope::All, BasePals::Exclude), " AND owner IS NOT NULL");
    assert_eq!(roster_owner_clause(one, BasePals::Include), " AND (owner = ?2 OR owner IS NULL)");
    assert_eq!(roster_owner_clause(one, BasePals::Exclude), " AND owner = ?2");
    assert_eq!(PlayerScope::All.clause(2), "");
    assert_eq!(one.clause(2), " AND player_uid = ?2");
    assert_eq!(one.clause(12), " AND player_uid = ?12");
}

#[test]
fn passive_and_move_rows_join_onto_their_pals_in_row_order() {
    let mut pals = vec![pal("a", "SheepBall", &[]), pal("b", "ChickenPal", &[])];
    let s = |x: &str| x.to_string();
    let passive_rows = vec![(s("b"), s("P1")), (s("a"), s("P2")), (s("a"), s("P3"))];
    let move_rows = vec![
        (s("a"), s("M1"), s("equipped")),
        (s("a"), s("M2"), s("mastered")),
        (s("b"), s("M3"), s("equipped")),
        (s("a"), s("M4"), s("equipped")),
        (s("a"), s("M5"), s("other")),
    ];
    attach_pal_rows(&mut pals, &passive_rows, &move_rows);
    assert_eq!(pals[0].passives, vec![s("P2"), s("P3")]);
    assert_eq!(pals[0].equipped_moves, vec![s("M1"), s("M4")]);
    assert_eq!(pals[0].mastered_moves, vec![s("M2")]);
    assert_eq!(pals[1].passives, vec![s("P1")]);
    assert_eq!(pals[1].equipped_moves, vec![s("M3")]);
    assert!(pals[1].mastered_moves.is_empty());
    assert_eq!(pals[1].character_id, "ChickenPal");
}

#[test]
fn the_unlocked_count_is_the_number_of_distinct_species_caught() {
    let index = labelled_index();
    let f = facts(&["SheepBall", "sheepball", "Boss_SheepBall", "PREDATOR_SheepBall", "Ghost"], &[], &[]);
    let dex = dex_with_reference(&f, &index);
    assert_eq!(dex.unlocked_species_count, 1);
    assert_eq!(dex.entries.iter().filter(|e| e.caught).count(), 1);
    assert_eq!(dex.unlocked_species.len(), 5);
}
