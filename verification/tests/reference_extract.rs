use paldex::assoc::StrMap;
use paldex::data::extract::{
    extract, reference_entries, text_languages, text_root, ExtractError, COMBI_UNIQUE, MONSTER_PARAMETERS,
};
use paldex::data::reference::ReferenceData;
use paldex::data::text_table::encode_ascii_fstring;
use paldex::data::uasset::UassetError;
use paldex::data::usmap::UsmapError;

fn ftext_record(namespace: &str, key: &str, source: &str) -> Vec<u8> {
    let mut out = Vec::new();
    out.extend_from_slice(&0u32.to_le_bytes());
    out.push(0);
    out.extend_from_slice(&encode_ascii_fstring(namespace));
    out.extend_from_slice(&encode_ascii_fstring(key));
    out.extend_from_slice(&encode_ascii_fstring(source));
    out
}

fn text_path(name: &str) -> String {
    format!("{}/{name}.uexp", text_root("en"))
}

/// A pak with species names and every other text table present but empty.
fn tables() -> StrMap<Vec<u8>> {
    let mut t = StrMap::new();
    let mut names = vec![0xAA; 8];
    names.extend(ftext_record("DT_PalNameText_Common", "PAL_NAME_SheepBall_TextData", "Lamball"));
    t.insert(text_path("DT_PalNameText_Common"), names);
    for name in [
        "DT_SkillNameText_Common",
        "DT_ItemNameText_Common",
        "DT_MapObjectNameText_Common",
        "DT_TechnologyNameText_Common",
    ] {
        t.insert(text_path(name), Vec::new());
    }
    let mut ui = Vec::new();
    ui.extend(ftext_record("DT_UI_Common_Text_Common", "COMMON_ELEMENT_NAME_Leaf_TextData", "Grass"));
    t.insert(text_path("DT_UI_Common_Text_Common"), ui);
    t
}

#[test]
fn extraction_reads_names_and_warns_about_what_it_lacks() {
    let index = extract(&tables(), &[], "en", b"not a usmap").expect("extract");
    assert_eq!(index.language(), "en");
    assert_eq!(index.species("SheepBall").map(|s| s.display_name.as_str()), Some("Lamball"));
    assert_eq!(index.element_name("Leaf"), Some("Grass"));
    assert_eq!(index.warnings().len(), 1);
    assert!(index.warnings()[0].starts_with("Mappings.usmap is unusable: not a .usmap file: expected magic 0x30c4"));
}

#[test]
fn a_missing_unique_combo_table_is_a_warning() {
    let index = extract(&tables(), &[], "en", &empty_usmap()).expect("extract");
    assert!(index.warnings().contains(&format!("{COMBI_UNIQUE} is missing from the pak")));
}

#[test]
fn missing_monster_parameter_tables_are_a_warning_not_an_error() {
    let index = extract(&tables(), &[], "en", &empty_usmap()).expect("extract");
    assert_eq!(
        index.warnings().to_vec(),
        vec![
            format!("{MONSTER_PARAMETERS} is missing from the pak"),
            format!("{COMBI_UNIQUE} is missing from the pak"),
        ]
    );
    assert_eq!(index.species("SheepBall").map(|s| s.display_name.as_str()), Some("Lamball"));
}

/// The smallest valid .usmap: no names, enums or structs.
fn empty_usmap() -> Vec<u8> {
    let mut body = Vec::new();
    body.extend_from_slice(&0i32.to_le_bytes());
    body.extend_from_slice(&0i32.to_le_bytes());
    body.extend_from_slice(&0i32.to_le_bytes());
    let mut usmap = vec![0xC4, 0x30, 0, 0];
    usmap.extend_from_slice(&(body.len() as u32).to_le_bytes());
    usmap.extend_from_slice(&(body.len() as u32).to_le_bytes());
    usmap.extend(body);
    usmap
}

#[test]
fn a_pak_without_species_names_is_an_error() {
    let mut t = tables();
    t.insert(text_path("DT_PalNameText_Common"), Vec::new());
    let err = extract(&t, &[], "de", b"").unwrap_err();
    assert!(matches!(err, ExtractError::Missing(_)), "German tables are absent: {err:?}");
    let err = extract(&t, &[], "en", b"").unwrap_err();
    assert!(matches!(err, ExtractError::NoTextTables(ref l) if l == "en"));
    assert_eq!(err.message(), "no text tables found for language \"en\" — is this a Palworld pak?");
}

#[test]
fn a_missing_skill_table_is_an_error_and_a_bad_package_names_its_entry() {
    let mut t = tables();
    t.remove(&text_path("DT_SkillNameText_Common"));
    let err = extract(&t, &[], "en", b"").unwrap_err();
    assert_eq!(err.message(), format!("reading entry {}: not in the pak", text_path("DT_SkillNameText_Common")));

    let mut t = tables();
    t.insert(format!("{MONSTER_PARAMETERS}.uasset"), vec![1, 2, 3, 4]);
    let err = extract(&t, &[], "en", b"").unwrap_err();
    assert!(matches!(err, ExtractError::Uasset { source: UassetError::BadTag { found: 0x04030201 }, .. }));
    assert_eq!(
        err.message(),
        format!(
            "parsing {MONSTER_PARAMETERS}.uasset: not a cooked uasset package: expected tag 0x9e2a83c1, found 0x04030201"
        )
    );
}

#[test]
fn icons_come_from_the_file_list() {
    let files = vec!["Pal/Content/Pal/Texture/PalIcon/Normal/T_SheepBall_icon_normal.uasset".to_string()];
    let index = extract(&tables(), &files, "en", b"").expect("extract");
    assert!(index.icon_path("SheepBall").is_some());
}

#[test]
fn the_entries_read_cover_every_table() {
    let entries = reference_entries("ja");
    assert_eq!(entries.len(), 14);
    assert_eq!(entries[0], format!("{MONSTER_PARAMETERS}.uasset"));
    assert_eq!(entries[8], "Pal/Content/Pal/DataTable/Text/DT_PalNameText_Common.uexp");
    assert_eq!(text_languages().len(), 17);
    assert!(text_languages().contains(&"zh-Hant"));
}

#[test]
fn error_messages_read_as_sentences() {
    assert_eq!(UsmapError::NegativeCount(-3).message(), "negative count -3");
    assert_eq!(UassetError::Truncated { offset: 1234 }.message(), "unexpected end of package data at offset 1234");
    assert_eq!(
        UassetError::BadNameIndex { index: i32::MIN, count: 0 }.message(),
        "name index -2147483648 out of range (the package has 0 names)"
    );
    assert_eq!(UsmapError::BadMagic { found: 0xab }.message(), "not a .usmap file: expected magic 0x30c4, found 0x00ab");
}
