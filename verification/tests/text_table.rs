use paldex::data::text_table::{encode_ascii_fstring, find, is_placeholder, parse, strip_markup, TextEntry};

fn ftext_record(namespace: &str, key: &str, source: &str) -> Vec<u8> {
    let mut out = Vec::new();
    out.extend_from_slice(&0u32.to_le_bytes()); // Flags
    out.push(0); // HistoryType::Base
    out.extend_from_slice(&encode_ascii_fstring(namespace));
    out.extend_from_slice(&encode_ascii_fstring(key));
    out.extend_from_slice(&encode_ascii_fstring(source));
    out
}

#[test]
fn extracts_rows_and_strips_the_key_suffix() {
    let mut buf = vec![0xAA; 16];
    buf.extend(ftext_record("DT_PalNameText_Common", "PAL_NAME_AmaterasuWolf_TextData", "Kitsun"));
    buf.extend(ftext_record("DT_PalNameText_Common", "PAL_NAME_Anubis_TextData", "Anubis"));

    let rows = parse(&buf, "DT_PalNameText_Common").expect("parse");
    assert_eq!(
        rows,
        vec![
            TextEntry { key: "PAL_NAME_AmaterasuWolf".into(), text: Some("Kitsun".into()) },
            TextEntry { key: "PAL_NAME_Anubis".into(), text: Some("Anubis".into()) },
        ]
    );
}

#[test]
fn untranslated_rows_report_no_text() {
    let buf = ftext_record("DT_T", "PAL_NAME_BeardedDragon_TextData", "en_text");
    let rows = parse(&buf, "DT_T").expect("parse");
    assert_eq!(rows[0].text, None);
}

#[test]
fn recognizes_placeholder_variants() {
    assert!(is_placeholder("en_text"));
    assert!(is_placeholder("en Text"));
    assert!(is_placeholder("  "));
    assert!(!is_placeholder("Kitsun"));
    assert!(!is_placeholder("Text"));
    assert!(!is_placeholder("Mau Cryst"));
}

#[test]
fn strips_rich_text_markup() {
    assert_eq!(strip_markup("<itemName id=|AssaultRifle_Default1|/>"), "");
    assert_eq!(strip_markup("Ring of <b>Water</b> Resistance"), "Ring of Water Resistance");
    assert_eq!(strip_markup("Melpaca"), "Melpaca");
}

#[test]
fn ignores_matches_without_base_history_marker() {
    let mut buf = vec![0xFFu8];
    buf.extend(encode_ascii_fstring("DT_T"));
    buf.extend(encode_ascii_fstring("PAL_NAME_Fake_TextData"));
    buf.extend(encode_ascii_fstring("Fake"));
    assert!(parse(&buf, "DT_T").expect("parse").is_empty());
}

#[test]
fn ignores_keys_without_the_expected_suffix() {
    let buf = ftext_record("DT_T", "PAL_NAME_Something", "Value");
    assert!(parse(&buf, "DT_T").expect("parse").is_empty());
}

#[test]
fn text_table_truncation_never_panics() {
    let mut full = vec![0u8; 8];
    full.extend(ftext_record("DT_T", "PAL_NAME_Anubis_TextData", "Anubis"));
    for n in 0..full.len() {
        let _ = parse(&full[..n], "DT_T");
    }
}

#[test]
fn a_repeated_key_is_kept_once() {
    let mut buf = ftext_record("DT_T", "PAL_NAME_Anubis_TextData", "Anubis");
    buf.extend(ftext_record("DT_T", "PAL_NAME_Anubis_TextData", "Other"));
    let rows = parse(&buf, "DT_T").expect("parse");
    assert_eq!(rows, vec![TextEntry { key: "PAL_NAME_Anubis".into(), text: Some("Anubis".into()) }]);
}

#[test]
fn encodes_an_ascii_fstring_with_its_nul() {
    assert_eq!(encode_ascii_fstring("DT_T"), vec![5, 0, 0, 0, b'D', b'T', b'_', b'T', 0]);
}

#[test]
fn finds_the_first_occurrence_only() {
    assert_eq!(find(b"abcabc", b"bc"), Some(1));
    assert_eq!(find(b"abc", b""), None);
    assert_eq!(find(b"ab", b"abc"), None);
    assert_eq!(find(b"abc", b"x"), None);
}

#[test]
fn placeholder_needs_a_two_letter_tag() {
    assert!(is_placeholder("ja-Text"));
    assert!(!is_placeholder("eng_text"));
    assert!(!is_placeholder("e1_text"));
    assert!(is_placeholder(""));
}

#[test]
fn markup_that_never_closes_hides_the_rest() {
    assert_eq!(strip_markup("  Name <unclosed"), "Name");
    assert_eq!(strip_markup("a > b"), "a  b");
}

#[test]
fn every_row_has_a_distinct_key_and_a_clean_text() {
    let mut buf = ftext_record("DT_T", "A_TextData", "  <b>Bold</b> word  ");
    buf.extend(ftext_record("DT_T", "B_TextData", "<x>en_text</x>"));
    buf.extend(ftext_record("DT_T", "A_TextData", "again"));
    buf.extend(ftext_record("DT_T", "_TextData", "empty key"));
    buf.extend(ftext_record("DT_T", "C_TextData", "x > y < z"));
    let rows = parse(&buf, "DT_T").expect("parse");
    assert_eq!(
        rows,
        vec![
            TextEntry { key: "A".into(), text: Some("Bold word".into()) },
            TextEntry { key: "B".into(), text: None },
            TextEntry { key: "C".into(), text: Some("x  y".into()) },
        ]
    );
    for (i, row) in rows.iter().enumerate() {
        assert!(!row.key.is_empty());
        assert!(rows[i + 1..].iter().all(|other| other.key != row.key));
        if let Some(t) = &row.text {
            assert_eq!(t.trim(), t);
            assert!(!t.contains('<') && !t.contains('>'));
            assert!(!is_placeholder(t));
        }
    }
}
