use paldex::data::uasset::{
    parse_package, parse_summary, Reader, UassetError, PACKAGE_FILE_TAG, PKG_UNVERSIONED_PROPERTIES,
};

fn ascii_fstring(s: &str) -> Vec<u8> {
    let mut out = Vec::new();
    let len = s.len() as i32 + 1;
    out.extend_from_slice(&len.to_le_bytes());
    out.extend_from_slice(s.as_bytes());
    out.push(0);
    out
}

/// A minimal but structurally real cooked package header.
fn synthetic_package(flags: u32, names: &[&str]) -> Vec<u8> {
    let mut header = Vec::new();
    header.extend_from_slice(&PACKAGE_FILE_TAG.to_le_bytes());
    header.extend_from_slice(&(-8i32).to_le_bytes()); // legacy file version
    header.extend_from_slice(&0i32.to_le_bytes()); // legacy UE3
    header.extend_from_slice(&0i32.to_le_bytes()); // FileVersionUE4
    header.extend_from_slice(&0i32.to_le_bytes()); // FileVersionUE5
    header.extend_from_slice(&0i32.to_le_bytes()); // licensee
    header.extend_from_slice(&0i32.to_le_bytes()); // custom version count
    header.extend_from_slice(&0i32.to_le_bytes()); // total header size
    header.extend_from_slice(&ascii_fstring("/Game/Test"));
    header.extend_from_slice(&flags.to_le_bytes());
    header.extend_from_slice(&(names.len() as i32).to_le_bytes());
    let name_offset_pos = header.len();
    header.extend_from_slice(&0i32.to_le_bytes()); // placeholder

    let name_offset = header.len() as i32;
    header[name_offset_pos..name_offset_pos + 4].copy_from_slice(&name_offset.to_le_bytes());
    for n in names {
        header.extend_from_slice(&ascii_fstring(n));
        header.extend_from_slice(&0u32.to_le_bytes()); // hashes
    }
    header
}

#[test]
fn parses_flags_and_name_table() {
    let bytes = synthetic_package(PKG_UNVERSIONED_PROPERTIES, &["Alpaca", "BOSS_Alpaca"]);
    let s = parse_summary(&bytes).expect("parse");
    assert!(s.has_unversioned_properties());
    assert_eq!(s.folder_name, "/Game/Test");
    assert_eq!(s.names, vec!["Alpaca", "BOSS_Alpaca"]);
}

#[test]
fn detects_tagged_properties() {
    let bytes = synthetic_package(0, &["Alpaca"]);
    let s = parse_summary(&bytes).expect("parse");
    assert!(!s.has_unversioned_properties());
}

#[test]
fn rejects_non_uasset_input() {
    let err = parse_summary(&[0, 1, 2, 3, 4, 5, 6, 7]).unwrap_err();
    assert!(matches!(err, UassetError::BadTag { .. }));
}

/// Truncating at every length must error, never panic.
#[test]
fn uasset_truncation_never_panics() {
    let full = synthetic_package(PKG_UNVERSIONED_PROPERTIES, &["Alpaca", "Anubis"]);
    for n in 0..full.len() {
        let _ = parse_summary(&full[..n]);
    }
}

#[test]
fn rejects_absurd_string_length() {
    let mut bytes = synthetic_package(0, &[]);
    bytes.extend_from_slice(&i32::MAX.to_le_bytes());
    let mut r = Reader::at(&bytes, bytes.len() - 4);
    assert!(matches!(r.fstring(), Err(UassetError::BadStringLength { .. })));
}

#[test]
fn reads_utf16_strings_and_drops_the_trailing_nul() {
    let mut bytes = Vec::new();
    bytes.extend_from_slice(&(-3i32).to_le_bytes());
    for u in [0x48u16, 0x69, 0] {
        bytes.extend_from_slice(&u.to_le_bytes());
    }
    let mut r = Reader::new(&bytes);
    assert_eq!(r.fstring().expect("utf16"), "Hi");
    assert_eq!(r.pos(), bytes.len());
}

#[test]
fn a_read_past_the_end_reports_where_it_started() {
    let bytes = [1u8, 2, 3];
    let mut r = Reader::at(&bytes, 2);
    assert!(matches!(r.u32(), Err(UassetError::Truncated { offset: 2 })));
    assert_eq!(r.pos(), 2);
}

#[test]
fn a_header_without_the_tail_tables_is_truncated() {
    let bytes = synthetic_package(0, &["Alpaca"]);
    assert!(matches!(parse_package(&bytes), Err(UassetError::Truncated { .. })));
}

/// A package with one import and one export whose class is that import.
fn package_with_tables() -> (Vec<u8>, usize) {
    let names = ["/Script/Engine", "Class", "DataTable", "DT_Test"];
    let mut b = Vec::new();
    b.extend_from_slice(&PACKAGE_FILE_TAG.to_le_bytes());
    b.extend_from_slice(&(-8i32).to_le_bytes());
    b.extend_from_slice(&[0u8; 16]); // UE3, UE4, UE5, licensee versions
    b.extend_from_slice(&0i32.to_le_bytes()); // custom version count
    b.extend_from_slice(&0i32.to_le_bytes()); // total header size
    b.extend_from_slice(&ascii_fstring("/Game/Test"));
    b.extend_from_slice(&0x8000_0000u32.to_le_bytes()); // PKG_FilterEditorOnly
    b.extend_from_slice(&(names.len() as i32).to_le_bytes());
    let name_offset_at = b.len();
    b.extend_from_slice(&0i32.to_le_bytes());
    b.extend_from_slice(&[0u8; 16]); // soft object paths, gatherable text map
    let offsets_at = b.len();
    b.extend_from_slice(&[0u8; 20]);
    let name_offset = b.len() as i32;
    for n in names {
        b.extend_from_slice(&ascii_fstring(n));
        b.extend_from_slice(&0u32.to_le_bytes());
    }
    let import_offset = b.len() as i32;
    for (index, number) in [(0i32, 0i32), (1, 0)] {
        b.extend_from_slice(&index.to_le_bytes());
        b.extend_from_slice(&number.to_le_bytes());
    }
    b.extend_from_slice(&0i32.to_le_bytes()); // outer index
    b.extend_from_slice(&2i32.to_le_bytes()); // object name: DataTable
    b.extend_from_slice(&0i32.to_le_bytes());
    b.extend_from_slice(&[0u8; 4]); // bImportOptional
    let export_offset = b.len() as i32;
    b.extend_from_slice(&(-1i32).to_le_bytes()); // class: import 0
    b.extend_from_slice(&[0u8; 12]);
    b.extend_from_slice(&3i32.to_le_bytes()); // object name: DT_Test
    b.extend_from_slice(&0i32.to_le_bytes());
    b.extend_from_slice(&[0u8; 4]);
    b.extend_from_slice(&64i64.to_le_bytes()); // serial size
    b.extend_from_slice(&200i64.to_le_bytes()); // serial offset
    b.extend_from_slice(&[0u8; 96 - 44]);
    let depends_offset = b.len() as i32;
    b[name_offset_at..name_offset_at + 4].copy_from_slice(&name_offset.to_le_bytes());
    let fields = [1i32, export_offset, 1, import_offset, depends_offset];
    for (k, v) in fields.iter().enumerate() {
        b[offsets_at + 4 * k..offsets_at + 4 * k + 4].copy_from_slice(&v.to_le_bytes());
    }
    (b, offsets_at)
}

#[test]
fn resolves_an_export_class_through_the_import_map() {
    let p = parse_package(&package_with_tables().0).expect("parse");
    assert_eq!(p.imports.len(), 1);
    assert_eq!(p.imports[0].class_package, "/Script/Engine");
    assert_eq!(p.imports[0].object_name, "DataTable");
    assert_eq!(p.exports.len(), 1);
    let export = p.find_export("DataTable").expect("export");
    assert_eq!(export.object_name, "DT_Test");
    assert_eq!(export.serial_size, 64);
    assert_eq!(p.class_of(export), Some("DataTable"));
    assert_eq!(p.import_name(-1), Some("DataTable"));
    assert_eq!(p.import_name(0), None);
    assert_eq!(p.import_name(-2), None);
    assert_eq!(p.uexp_offset(export), Some(200));
    assert!(p.find_export("Texture2D").is_none());
}

#[test]
fn a_mismatched_export_map_span_is_rejected() {
    let (mut b, offsets_at) = package_with_tables();
    // Shift the depends offset so the export map no longer spans 96 bytes.
    let depends = i32::from_le_bytes(b[offsets_at + 16..offsets_at + 20].try_into().unwrap());
    b[offsets_at + 16..offsets_at + 20].copy_from_slice(&(depends + 4).to_le_bytes());
    assert!(matches!(
        parse_package(&b),
        Err(UassetError::ExportMapStride { span: 100, count: 1, expected: 96 })
    ));
}
