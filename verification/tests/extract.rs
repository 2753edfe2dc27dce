use paldex::assoc::StrMap;
use paldex::data::datatable::Row;
use paldex::data::extract::{apply_row, normalize_key, row_rank, text_root, ReferenceIndex};
use paldex::data::reference::{BaseStats, PassiveSkill, ReferenceData, Species};
use paldex::data::text_table::TextEntry;
use paldex::data::unversioned::{Properties, Value};

#[test]
fn normalizes_variant_prefixes() {
    assert_eq!(normalize_key("BOSS_AmaterasuWolf"), "amaterasuwolf");
    assert_eq!(normalize_key("PREDATOR_Anubis"), "anubis");
    assert_eq!(normalize_key("Anubis"), "anubis");
}

#[test]
fn normalization_is_case_insensitive() {
    assert_eq!(normalize_key("Sheepball"), normalize_key("SheepBall"));
    assert_eq!(normalize_key("Boss_LazyCatFish"), normalize_key("BOSS_LazyCatfish"));
    assert_eq!(normalize_key("Boss_Anubis"), "anubis");
}

#[test]
fn species_membership_wins_over_npc_membership() {
    let mut index = ReferenceIndex::default();
    index.insert_species(
        "anubis".into(),
        Species { character_id: "Anubis".into(), display_name: "Anubis".into(), ..Default::default() },
    );
    index.insert_human_npc("anubis".into());
    index.insert_human_npc("hunter_rifle".into());

    assert!(!index.is_human_npc("Anubis"));
    assert!(!index.is_human_npc("BOSS_Anubis"));
    assert!(index.is_human_npc("Hunter_Rifle"));
}

#[test]
fn passives_resolve_with_or_without_the_table_prefix() {
    let mut index = ReferenceIndex::default();
    index.insert_passive(
        "PASSIVE_CraftSpeed_up2".into(),
        PassiveSkill { id: "PASSIVE_CraftSpeed_up2".into(), display_name: "Artisan".into() },
    );

    assert_eq!(index.passive("CraftSpeed_up2").map(|p| p.display_name.as_str()), Some("Artisan"));
    assert_eq!(index.passive("PASSIVE_CraftSpeed_up2").map(|p| p.display_name.as_str()), Some("Artisan"));
    assert!(index.passive("NotARealPassive").is_none());
}

#[test]
fn unnamed_pal_keys_still_classify_as_pals() {
    let mut index = ReferenceIndex::default();
    index.insert_pal_key(normalize_key("AmaterasuWolf_Dark_Quest_Enemy"));

    assert!(index.is_pal("AmaterasuWolf_Dark_Quest_Enemy"));
    assert!(index.is_known("AmaterasuWolf_Dark_Quest_Enemy"));
    assert!(!index.is_human_npc("AmaterasuWolf_Dark_Quest_Enemy"));
    assert_eq!(index.species_count(), 0);
}

#[test]
fn species_lookups_normalize_the_id() {
    let mut index = ReferenceIndex::default();
    index.insert_species(
        "sheepball".into(),
        Species { character_id: "SheepBall".into(), display_name: "Lamball".into(), dex_number: Some(1), ..Default::default() },
    );
    index.insert_species("x".into(), Species { character_id: "X".into(), ..Default::default() });
    let found = index.species("BOSS_Sheepball").expect("species");
    assert_eq!(found.display_name, "Lamball");
    assert_eq!(index.dex_entry_count(), 1);
    assert_eq!(index.species_count(), 2);
    assert_eq!(index.species_iter().len(), 2);
    assert!(index.breeding_result("SheepBall", "SheepBall").is_none());
    assert!(index.icon_path("SheepBall").is_none());
}

#[test]
fn an_empty_index_knows_nothing() {
    let index = ReferenceIndex::new();
    assert_eq!(index.language(), "");
    assert!(index.warnings().is_empty());
    assert!(index.work_suitability_order().is_empty());
    assert_eq!(index.technology("AIcore"), None);
    assert_eq!(index.item("Wood"), None);
    assert_eq!(index.map_object("Chest"), None);
    assert_eq!(index.element_name("Leaf"), None);
    assert_eq!(index.work_suitability_name("Handcraft"), None);
    assert_eq!((index.passive_count(), index.technology_count(), index.item_count()), (0, 0, 0));
    assert_eq!((index.map_object_count(), index.icon_count()), (0, 0));
    assert!(!index.is_known("Anubis"));
}

#[test]
fn dex_labels_pad_to_three_digits() {
    let s = Species { dex_number: Some(5), dex_suffix: "B".into(), ..Default::default() };
    assert_eq!(s.dex_label().as_deref(), Some("005B"));
    let s = Species { dex_number: Some(123), ..Default::default() };
    assert_eq!(s.dex_label().as_deref(), Some("123"));
    let s = Species { dex_number: Some(1234), ..Default::default() };
    assert_eq!(s.dex_label().as_deref(), Some("1234"));
    assert_eq!(Species::default().dex_label(), None);
}

fn entry(key: &str, text: Option<&str>) -> TextEntry {
    TextEntry { key: key.into(), text: text.map(|t| t.to_string()) }
}

#[test]
fn pal_name_rows_become_species() {
    let mut index = ReferenceIndex::with_language("en");
    index.apply_pal_names(&[
        entry("PAL_NAME_SheepBall", Some("Lamball")),
        entry("PAL_NAME_Boss_Anubis", None),
        entry("ITEM_NAME_Wood", Some("Wood")),
    ]);
    assert_eq!(index.language(), "en");
    assert_eq!(index.species_count(), 2);
    let lamball = index.species("SheepBall").expect("species");
    assert_eq!((lamball.character_id.as_str(), lamball.display_name.as_str()), ("SheepBall", "Lamball"));
    // An untranslated row falls back to the id, keyed without its variant prefix.
    let anubis = index.species("Anubis").expect("species");
    assert_eq!(anubis.display_name, "Boss_Anubis");
    assert_eq!(anubis.dex_number, None);
}

#[test]
fn skill_name_rows_become_passives() {
    let mut index = ReferenceIndex::new();
    index.apply_skill_names(&[
        entry("PASSIVE_CraftSpeed_up2", Some("Artisan")),
        entry("PASSIVE_Untranslated", None),
    ]);
    assert_eq!(index.passive_count(), 2);
    assert_eq!(index.passive("CraftSpeed_up2").map(|p| p.display_name.as_str()), Some("Artisan"));
    assert_eq!(index.passive("Untranslated").map(|p| p.display_name.as_str()), Some("PASSIVE_Untranslated"));
}

#[test]
fn ui_rows_label_elements_and_order_work_suitabilities() {
    let mut index = ReferenceIndex::new();
    index.apply_ui_labels(&[
        entry("COMMON_ELEMENT_NAME_Leaf", Some("Grass")),
        entry("COMMON_WORK_SUITABILITY_Handcraft", Some("Handiwork")),
        entry("COMMON_WORK_SUITABILITY_Mining", Some("Mining")),
        entry("COMMON_WORK_SUITABILITY_", Some("nothing")),
        entry("COMMON_ELEMENT_NAME_Fire", None),
        entry("SOMETHING_ELSE", Some("x")),
    ]);
    assert_eq!(index.element_name("Leaf"), Some("Grass"));
    assert_eq!(index.element_name("leaf"), Some("Grass"));
    assert_eq!(index.element_name("Fire"), None);
    assert_eq!(index.work_suitability_name("Handcraft"), Some("Handiwork"));
    assert_eq!(index.work_suitability_order().to_vec(), vec!["Handcraft".to_string(), "Mining".to_string()]);
}

#[test]
fn species_icons_are_found_among_the_pak_paths() {
    let mut index = ReferenceIndex::new();
    index.apply_icons(&[
        "Pal/Content/Pal/Texture/PalIcon/Normal/T_SheepBall_icon_normal.uasset".to_string(),
        "Pal/Content/Pal/Texture/PalIcon/Normal/T_Anubis_Icon_Normal.uasset".to_string(),
        "Pal/Content/Pal/Texture/PalIcon/Normal/T_icon_normal.uasset".to_string(),
        "Pal/Content/Pal/Texture/PalIcon/Normal/T_Penguin_icon_normal.uexp".to_string(),
        "Pal/Content/Other/T_Penguin_icon_normal.uasset".to_string(),
    ]);
    assert_eq!(index.icon_count(), 2);
    assert_eq!(index.icon_path("SheepBall"), Some("Pal/Content/Pal/Texture/PalIcon/Normal/T_SheepBall_icon_normal"));
    assert_eq!(index.icon_path("BOSS_Anubis"), Some("Pal/Content/Pal/Texture/PalIcon/Normal/T_Anubis_Icon_Normal"));
    assert_eq!(index.icon_path("Penguin"), None);
}

#[test]
fn name_tables_add_lookup_keys() {
    let mut index = ReferenceIndex::new();
    index.add_pal_keys(&["BOSS_SheepBall".to_string(), "Anubis".to_string()]);
    index.add_human_npcs(&["Hunter_Rifle".to_string()]);
    assert!(index.is_pal("SheepBall"));
    assert!(index.is_pal_key("anubis"));
    assert!(index.is_human_npc("hunter_rifle"));
    assert!(!index.is_pal("Hunter_Rifle"));
}

#[test]
fn text_tables_name_items_map_objects_and_technologies() {
    let mut index = ReferenceIndex::new();
    index.apply_item_names(&[entry("ITEM_NAME_Wood", Some("Wood")), entry("ITEM_NAME_Stone", None)]);
    index.apply_map_object_names(&[entry("MAPOBJECT_NAME_ItemChest", Some("Wooden Chest"))]);
    index.apply_technology_names(&[entry("NAME_RECIPE_AICORE", Some("Pal Metal Ingot"))]);
    assert_eq!(index.item("wood"), Some("Wood"));
    assert_eq!(index.item("Stone"), None);
    assert_eq!(index.map_object("ItemChest"), Some("Wooden Chest"));
    assert_eq!(index.technology("AIcore"), Some("Pal Metal Ingot"));
    assert_eq!((index.item_count(), index.map_object_count(), index.technology_count()), (1, 1, 1));
}

#[test]
fn warnings_are_kept_in_order() {
    let mut index = ReferenceIndex::new();
    index.warn("first".to_string());
    index.warn("second".to_string());
    assert_eq!(index.warnings().to_vec(), vec!["first".to_string(), "second".to_string()]);
}

fn monster_row(zukan: i64, hp: i64) -> Properties {
    let mut p = Properties::new();
    p.insert("ZukanIndex".into(), Value::Int(zukan));
    p.insert("ZukanIndexSuffix".into(), Value::Str("B".into()));
    p.insert("ElementType1".into(), Value::Enum("Leaf".into()));
    p.insert("ElementType2".into(), Value::Enum("None".into()));
    p.insert("Rarity".into(), Value::Int(3));
    p.insert("Hp".into(), Value::Int(hp));
    p.insert("MeleeAttack".into(), Value::Int(-5));
    p.insert("WorkSuitability_Handcraft".into(), Value::Int(2));
    p.insert("WorkSuitability_Mining".into(), Value::Int(0));
    p
}

#[test]
fn a_row_ranks_by_its_name_and_its_number() {
    let p = monster_row(1, 70);
    assert_eq!(row_rank("SheepBall", "sheepball", &p), 3);
    assert_eq!(row_rank("BOSS_SheepBall", "sheepball", &p), 1);
    assert_eq!(row_rank("BOSS_SheepBall", "sheepball", &monster_row(0, 70)), 0);
    assert_eq!(row_rank("SheepBall", "sheepball", &Properties::new()), 2);
}

#[test]
fn a_parameter_row_fills_a_species() {
    let mut sp = Species { character_id: "SheepBall".into(), display_name: "Lamball".into(), ..Default::default() };
    apply_row(&mut sp, &monster_row(5, 70));
    assert_eq!(sp.dex_number, Some(5));
    assert_eq!(sp.dex_label().as_deref(), Some("005B"));
    assert_eq!(sp.elements, vec!["Leaf".to_string()]);
    assert_eq!(sp.rarity, 3);
    assert_eq!(sp.stats, BaseStats { hp: 70, ..Default::default() });
    assert_eq!(sp.work_suitabilities.get("Handcraft"), Some(&2));
    assert_eq!(sp.work_suitabilities.get("Mining"), None);
    assert_eq!(sp.display_name, "Lamball");
}

#[test]
fn the_best_ranked_row_wins_whatever_the_order() {
    for reversed in [false, true] {
        let mut index = ReferenceIndex::new();
        index.insert_species("sheepball".into(), Species { character_id: "SheepBall".into(), ..Default::default() });
        let mut rows = vec![
            Row { name: "BOSS_SheepBall".into(), properties: monster_row(1, 999) },
            Row { name: "SheepBall".into(), properties: monster_row(1, 70) },
        ];
        if reversed {
            rows.reverse();
        }
        let mut best = StrMap::new();
        index.apply_parameter_rows(&rows, &mut best);
        assert_eq!(index.species("SheepBall").map(|s| s.stats.hp), Some(70));
        assert_eq!(best.get("sheepball"), Some(&3));
    }
}

#[test]
fn text_tables_live_under_l10n_except_for_the_source_language() {
    assert_eq!(text_root("en"), "Pal/Content/L10N/en/Pal/DataTable/Text");
    assert_eq!(text_root("zh-Hans"), "Pal/Content/L10N/zh-Hans/Pal/DataTable/Text");
    assert_eq!(text_root("ja"), "Pal/Content/Pal/DataTable/Text");
}

#[test]
fn listed_species_have_distinct_lookup_keys() {
    let mut index = ReferenceIndex::new();
    index.apply_pal_names(&[
        TextEntry { key: "PAL_NAME_SheepBall".into(), text: Some("Lamball".into()) },
        TextEntry { key: "PAL_NAME_BOSS_Sheepball".into(), text: Some("Alpha Lamball".into()) },
        TextEntry { key: "PAL_NAME_Anubis".into(), text: None },
    ]);
    let keys: Vec<String> = index.species_iter().iter().map(|s| normalize_key(&s.character_id)).collect();
    assert_eq!(keys.len(), 2);
    assert_ne!(keys[0], keys[1]);
}
