use paldex::data::usmap::{PropertyType, Usmap, UsmapError, USMAP_MAGIC};

fn frame(body: &[u8]) -> Vec<u8> {
    let mut out = Vec::new();
    out.extend_from_slice(&USMAP_MAGIC.to_le_bytes());
    out.push(0); // version
    out.push(0); // compression
    out.extend_from_slice(&(body.len() as u32).to_le_bytes());
    out.extend_from_slice(&(body.len() as u32).to_le_bytes());
    out.extend_from_slice(body);
    out
}

fn name_table(body: &mut Vec<u8>, names: &[&str]) {
    body.extend_from_slice(&(names.len() as i32).to_le_bytes());
    for n in names {
        body.push(n.len() as u8);
        body.extend_from_slice(n.as_bytes());
    }
}

/// A minimal but structurally real `.usmap`.
fn synthetic() -> Vec<u8> {
    let names = ["Row", "Base", "Value", "Kind", "EKind", "A", "B", "Extra"];
    let mut body = Vec::new();
    name_table(&mut body, &names);
    // one enum: EKind { A, B }
    body.extend_from_slice(&1i32.to_le_bytes());
    body.extend_from_slice(&4i32.to_le_bytes()); // name "EKind"
    body.extend_from_slice(&2i32.to_le_bytes()); // 2 entries
    body.extend_from_slice(&5i32.to_le_bytes()); // "A"
    body.extend_from_slice(&6i32.to_le_bytes()); // "B"
    // two structs: Base { Extra: Int }, Row : Base { Value: Int, Kind: Enum<EKind> }
    body.extend_from_slice(&2i32.to_le_bytes());

    body.extend_from_slice(&1i32.to_le_bytes()); // "Base"
    body.extend_from_slice(&(-1i32).to_le_bytes()); // no super
    body.extend_from_slice(&1u16.to_le_bytes()); // property_count
    body.extend_from_slice(&1u16.to_le_bytes()); // serializable
    body.extend_from_slice(&0u16.to_le_bytes());
    body.push(1);
    body.extend_from_slice(&7i32.to_le_bytes()); // "Extra"
    body.push(2); // Int

    body.extend_from_slice(&0i32.to_le_bytes()); // "Row"
    body.extend_from_slice(&1i32.to_le_bytes()); // super "Base"
    body.extend_from_slice(&2u16.to_le_bytes());
    body.extend_from_slice(&2u16.to_le_bytes());
    body.extend_from_slice(&0u16.to_le_bytes());
    body.push(1);
    body.extend_from_slice(&2i32.to_le_bytes()); // "Value"
    body.push(2); // Int
    body.extend_from_slice(&1u16.to_le_bytes());
    body.push(1);
    body.extend_from_slice(&3i32.to_le_bytes()); // "Kind"
    body.push(26); // Enum
    body.push(0); // inner: Byte
    body.extend_from_slice(&4i32.to_le_bytes()); // "EKind"
    frame(&body)
}

#[test]
fn parses_names_enums_and_structs() {
    let m = Usmap::parse(&synthetic()).expect("parse");
    assert_eq!(m.name_count(), 8);
    assert_eq!(m.enum_count(), 1);
    assert_eq!(m.struct_count(), 2);
    assert_eq!(m.enum_value("EKind", 1), Some("B"));
    assert_eq!(m.enum_value("EKind", 9), None);
    assert!(m.contains_name("Value"));
}

/// The derived-first order is what the real package data requires; a
/// regression here silently desynchronizes every unversioned read.
#[test]
fn flat_schema_puts_derived_properties_before_super() {
    let m = Usmap::parse(&synthetic()).expect("parse");
    let schema = m.flat_schema("Row");
    let names: Vec<_> = schema.iter().map(|p| p.map(|p| p.name.as_str())).collect();
    assert_eq!(names, vec![Some("Value"), Some("Kind"), Some("Extra")]);
}

#[test]
fn enum_property_carries_its_enum_name() {
    let m = Usmap::parse(&synthetic()).expect("parse");
    let row = m.get_struct("Row").expect("Row");
    let kind = row.properties.iter().find(|p| p.name == "Kind").expect("Kind");
    assert_eq!(
        kind.ty,
        PropertyType::Enum { inner: Box::new(PropertyType::Byte), enum_name: "EKind".into() }
    );
}

#[test]
fn rejects_foreign_or_unsupported_files() {
    assert!(matches!(
        Usmap::parse(&[0, 1, 2, 3, 4, 5, 6, 7, 8, 9, 10, 11]),
        Err(UsmapError::BadMagic { .. })
    ));

    let mut v = synthetic();
    v[2] = 1; // version 1
    assert!(matches!(Usmap::parse(&v), Err(UsmapError::UnsupportedVersion(1))));

    let mut c = synthetic();
    c[3] = 1; // compression: Oodle
    assert!(matches!(Usmap::parse(&c), Err(UsmapError::Compressed(1))));
}

/// A truncated file must error rather than panic.
#[test]
fn usmap_truncation_never_panics() {
    let full = synthetic();
    for n in 0..full.len() {
        let _ = Usmap::parse(&full[..n]);
    }
}

/// A super chain that loops must terminate rather than hang.
#[test]
fn flat_schema_survives_a_looping_super_chain() {
    let mut body = Vec::new();
    name_table(&mut body, &["A", "B"]);
    body.extend_from_slice(&0i32.to_le_bytes()); // no enums
    body.extend_from_slice(&2i32.to_le_bytes()); // two structs
    for (name, sup) in [(0i32, 1i32), (1, 0)] {
        body.extend_from_slice(&name.to_le_bytes());
        body.extend_from_slice(&sup.to_le_bytes());
        body.extend_from_slice(&0u16.to_le_bytes()); // property_count
        body.extend_from_slice(&0u16.to_le_bytes()); // serializable
    }
    let m = Usmap::parse(&frame(&body)).expect("parse");
    assert!(m.flat_schema("A").is_empty());
}

#[test]
fn a_body_of_the_wrong_length_is_rejected() {
    let mut v = synthetic();
    v.push(0);
    let declared = (v.len() - 13) as u32;
    assert!(matches!(
        Usmap::parse(&v),
        Err(UsmapError::SizeMismatch { declared: d, actual }) if d == declared && actual == v.len() - 12
    ));
}

#[test]
fn unknown_type_tags_and_bad_name_indices_are_errors() {
    let mut body = Vec::new();
    name_table(&mut body, &["S", "P"]);
    body.extend_from_slice(&0i32.to_le_bytes());
    body.extend_from_slice(&1i32.to_le_bytes());
    body.extend_from_slice(&0i32.to_le_bytes());
    body.extend_from_slice(&(-1i32).to_le_bytes());
    body.extend_from_slice(&1u16.to_le_bytes());
    body.extend_from_slice(&1u16.to_le_bytes());
    body.extend_from_slice(&0u16.to_le_bytes());
    body.push(1);
    body.extend_from_slice(&1i32.to_le_bytes());
    body.push(99); // no such type
    assert!(matches!(Usmap::parse(&frame(&body)), Err(UsmapError::UnknownPropertyType(99))));

    let mut body = Vec::new();
    name_table(&mut body, &["E"]);
    body.extend_from_slice(&1i32.to_le_bytes());
    body.extend_from_slice(&5i32.to_le_bytes()); // name index 5 of 1
    assert!(matches!(
        Usmap::parse(&frame(&body)),
        Err(UsmapError::BadNameIndex { index: 5, count: 1 })
    ));

    let mut body = Vec::new();
    name_table(&mut body, &[]);
    body.extend_from_slice(&(-3i32).to_le_bytes());
    assert!(matches!(Usmap::parse(&frame(&body)), Err(UsmapError::NegativeCount(-3))));
}

#[test]
fn nested_container_types_parse_recursively() {
    let mut body = Vec::new();
    name_table(&mut body, &["S", "M", "Inner"]);
    body.extend_from_slice(&0i32.to_le_bytes());
    body.extend_from_slice(&1i32.to_le_bytes());
    body.extend_from_slice(&0i32.to_le_bytes());
    body.extend_from_slice(&(-1i32).to_le_bytes());
    body.extend_from_slice(&1u16.to_le_bytes());
    body.extend_from_slice(&1u16.to_le_bytes());
    body.extend_from_slice(&0u16.to_le_bytes());
    body.push(1);
    body.extend_from_slice(&1i32.to_le_bytes()); // "M"
    body.push(24); // Map
    body.push(10); // key: Str
    body.push(8); // value: Array
    body.push(9); // of Struct
    body.extend_from_slice(&2i32.to_le_bytes()); // "Inner"
    let m = Usmap::parse(&frame(&body)).expect("parse");
    let s = m.get_struct("S").expect("S");
    assert_eq!(
        s.properties[0].ty,
        PropertyType::MapOf {
            key: Box::new(PropertyType::Str),
            value: Box::new(PropertyType::Array(Box::new(PropertyType::Struct("Inner".into())))),
        }
    );
    assert_eq!(m.enum_entries("EKind"), None);
    assert!(m.get_struct("Nope").is_none());
}
