use paldex::data::uasset::Reader;
use paldex::data::unversioned::{read_zero_mask, UnversionedError, UnversionedReader, Value};
use paldex::data::usmap::Usmap;

/// `Row { Value: Int (0), Kind: Enum<EKind> (1), Label: Str (2) }`
fn usmap() -> Usmap {
    let names = ["Row", "Value", "Kind", "Label", "EKind", "A", "B"];
    let mut body = Vec::new();
    body.extend_from_slice(&(names.len() as i32).to_le_bytes());
    for n in names {
        body.push(n.len() as u8);
        body.extend_from_slice(n.as_bytes());
    }
    body.extend_from_slice(&1i32.to_le_bytes()); // one enum
    body.extend_from_slice(&4i32.to_le_bytes()); // EKind
    body.extend_from_slice(&2i32.to_le_bytes());
    body.extend_from_slice(&5i32.to_le_bytes()); // A
    body.extend_from_slice(&6i32.to_le_bytes()); // B

    body.extend_from_slice(&1i32.to_le_bytes()); // one struct
    body.extend_from_slice(&0i32.to_le_bytes()); // "Row"
    body.extend_from_slice(&(-1i32).to_le_bytes());
    body.extend_from_slice(&3u16.to_le_bytes()); // property_count
    body.extend_from_slice(&3u16.to_le_bytes()); // serializable
    for (index, name_idx, tag) in [(0u16, 1i32, 2u8), (1, 2, 26), (2, 3, 10)] {
        body.extend_from_slice(&index.to_le_bytes());
        body.push(1);
        body.extend_from_slice(&name_idx.to_le_bytes());
        body.push(tag);
        if tag == 26 {
            body.push(0); // inner: Byte
            body.extend_from_slice(&4i32.to_le_bytes()); // EKind
        }
    }

    let mut file = Vec::new();
    file.extend_from_slice(&0x30C4u16.to_le_bytes());
    file.push(0);
    file.push(0);
    file.extend_from_slice(&(body.len() as u32).to_le_bytes());
    file.extend_from_slice(&(body.len() as u32).to_le_bytes());
    file.extend_from_slice(&body);
    Usmap::parse(&file).expect("usmap")
}

fn fragment(skip: u32, has_zeroes: bool, is_last: bool, values: u32) -> u16 {
    let mut packed = skip & 0x7F;
    if has_zeroes {
        packed |= 0x80;
    }
    if is_last {
        packed |= 0x100;
    }
    packed |= values << 9;
    packed as u16
}

#[test]
fn reads_consecutive_values() {
    let m = usmap();
    let names: Vec<String> = vec![];
    let reader = UnversionedReader::new(&m, &names);

    let mut buf = Vec::new();
    buf.extend_from_slice(&fragment(0, false, true, 3).to_le_bytes());
    buf.extend_from_slice(&7i32.to_le_bytes()); // Value
    buf.push(1); // Kind -> B
    buf.extend_from_slice(&3i32.to_le_bytes()); // Label "Hi\0"
    buf.extend_from_slice(b"Hi\0");

    let mut r = Reader::new(&buf);
    let props = reader.read_struct(&mut r, "Row").expect("read");
    assert_eq!(props.get("Value"), Some(&Value::Int(7)));
    assert_eq!(props.get("Kind"), Some(&Value::Enum("B".into())));
    assert_eq!(props.get("Label"), Some(&Value::Str("Hi".into())));
    assert_eq!(r.pos(), buf.len(), "must consume the payload exactly");
}

/// A skip must advance the schema cursor without consuming bytes.
#[test]
fn skipped_slots_are_absent_not_defaulted() {
    let m = usmap();
    let names: Vec<String> = vec![];
    let reader = UnversionedReader::new(&m, &names);

    let mut buf = Vec::new();
    buf.extend_from_slice(&fragment(2, false, true, 1).to_le_bytes());
    buf.extend_from_slice(&2i32.to_le_bytes());
    buf.extend_from_slice(b"X\0");

    let mut r = Reader::new(&buf);
    let props = reader.read_struct(&mut r, "Row").expect("read");
    assert_eq!(props.get("Label"), Some(&Value::Str("X".into())));
    assert!(!props.contains_key("Value"));
    assert!(!props.contains_key("Kind"));
    assert_eq!(r.pos(), buf.len());
}

/// A zero-masked value occupies no bytes at all; the property that follows
/// must still land correctly.
#[test]
fn zero_masked_values_consume_no_bytes() {
    let m = usmap();
    let names: Vec<String> = vec![];
    let reader = UnversionedReader::new(&m, &names);

    let mut buf = Vec::new();
    buf.extend_from_slice(&fragment(0, true, true, 2).to_le_bytes());
    buf.push(0b01); // Value is zero, Kind is not
    buf.push(1); // Kind -> B

    let mut r = Reader::new(&buf);
    let props = reader.read_struct(&mut r, "Row").expect("read");
    assert_eq!(props.get("Value"), Some(&Value::Zero));
    assert_eq!(props.get("Value").and_then(Value::as_i64), Some(0));
    assert_eq!(props.get("Kind"), Some(&Value::Enum("B".into())));
    assert_eq!(r.pos(), buf.len());
}

#[test]
fn multiple_fragments_accumulate() {
    let m = usmap();
    let names: Vec<String> = vec![];
    let reader = UnversionedReader::new(&m, &names);

    let mut buf = Vec::new();
    buf.extend_from_slice(&fragment(0, false, false, 1).to_le_bytes());
    buf.extend_from_slice(&fragment(1, false, true, 1).to_le_bytes());
    buf.extend_from_slice(&9i32.to_le_bytes()); // Value
    buf.extend_from_slice(&2i32.to_le_bytes()); // Label
    buf.extend_from_slice(b"Z\0");

    let mut r = Reader::new(&buf);
    let props = reader.read_struct(&mut r, "Row").expect("read");
    assert_eq!(props.get("Value"), Some(&Value::Int(9)));
    assert_eq!(props.get("Label"), Some(&Value::Str("Z".into())));
    assert!(!props.contains_key("Kind"));
    assert_eq!(r.pos(), buf.len());
}

/// An enum value with no matching entry degrades to its raw integer.
#[test]
fn out_of_range_enum_falls_back_to_its_integer() {
    let m = usmap();
    let names: Vec<String> = vec![];
    let reader = UnversionedReader::new(&m, &names);

    let mut buf = Vec::new();
    buf.extend_from_slice(&fragment(1, false, true, 1).to_le_bytes());
    buf.push(200);

    let mut r = Reader::new(&buf);
    let props = reader.read_struct(&mut r, "Row").expect("read");
    assert_eq!(props.get("Kind"), Some(&Value::Int(200)));
}

#[test]
fn unknown_struct_is_an_error() {
    let m = usmap();
    let names: Vec<String> = vec![];
    let reader = UnversionedReader::new(&m, &names);
    let buf = [0u8; 8];
    let mut r = Reader::new(&buf);
    assert!(matches!(reader.read_struct(&mut r, "Nope"), Err(UnversionedError::UnknownStruct(_))));
}

#[test]
fn unversioned_truncation_never_panics() {
    let m = usmap();
    let names: Vec<String> = vec![];
    let reader = UnversionedReader::new(&m, &names);

    let mut buf = Vec::new();
    buf.extend_from_slice(&fragment(0, false, true, 3).to_le_bytes());
    buf.extend_from_slice(&7i32.to_le_bytes());
    buf.push(1);
    buf.extend_from_slice(&3i32.to_le_bytes());
    buf.extend_from_slice(b"Hi\0");

    for n in 0..buf.len() {
        let mut r = Reader::new(&buf[..n]);
        let _ = reader.read_struct(&mut r, "Row");
    }
}

#[test]
fn zero_mask_widths_round_trip() {
    for bits in [1u32, 8, 9, 16, 17, 33, 64] {
        let bytes = match bits {
            0..=8 => 1,
            9..=16 => 2,
            n => (n.div_ceil(32) * 4) as usize,
        };
        let buf = vec![0xFF; bytes];
        let mut r = Reader::new(&buf);
        let mask = read_zero_mask(&mut r, bits).expect("mask");
        assert_eq!(mask.len(), bits as usize);
        assert!(mask.iter().all(|b| *b));
        assert_eq!(r.pos(), bytes);
    }
}

#[test]
fn a_slot_past_the_schema_is_reported() {
    let m = usmap();
    let names: Vec<String> = vec![];
    let reader = UnversionedReader::new(&m, &names);
    let mut buf = Vec::new();
    buf.extend_from_slice(&fragment(3, false, true, 1).to_le_bytes());
    let mut r = Reader::new(&buf);
    assert!(matches!(
        reader.read_struct(&mut r, "Row"),
        Err(UnversionedError::MissingSchemaSlot { index: 3, .. })
    ));
}

#[test]
fn mask_bits_select_individual_values() {
    let buf = [0b0000_0101u8];
    let mut r = Reader::new(&buf);
    let mask = read_zero_mask(&mut r, 3).expect("mask");
    assert_eq!(mask, vec![true, false, true]);
    let mut r = Reader::new(&[]);
    assert!(read_zero_mask(&mut r, 0).expect("empty").is_empty());
}

#[test]
fn names_resolve_against_the_package_table() {
    // A struct whose single property is an FName.
    let names = ["S", "N"];
    let mut body = Vec::new();
    body.extend_from_slice(&(names.len() as i32).to_le_bytes());
    for n in names {
        body.push(n.len() as u8);
        body.extend_from_slice(n.as_bytes());
    }
    body.extend_from_slice(&0i32.to_le_bytes());
    body.extend_from_slice(&1i32.to_le_bytes());
    body.extend_from_slice(&0i32.to_le_bytes());
    body.extend_from_slice(&(-1i32).to_le_bytes());
    body.extend_from_slice(&1u16.to_le_bytes());
    body.extend_from_slice(&1u16.to_le_bytes());
    body.extend_from_slice(&0u16.to_le_bytes());
    body.push(1);
    body.extend_from_slice(&1i32.to_le_bytes());
    body.push(5); // Name
    let mut file = Vec::new();
    file.extend_from_slice(&0x30C4u16.to_le_bytes());
    file.push(0);
    file.push(0);
    file.extend_from_slice(&(body.len() as u32).to_le_bytes());
    file.extend_from_slice(&(body.len() as u32).to_le_bytes());
    file.extend_from_slice(&body);
    let m = Usmap::parse(&file).expect("usmap");

    let table: Vec<String> = vec!["None".into(), "Lamball".into()];
    let reader = UnversionedReader::new(&m, &table);
    let mut buf = Vec::new();
    buf.extend_from_slice(&fragment(0, false, true, 1).to_le_bytes());
    buf.extend_from_slice(&1i32.to_le_bytes());
    buf.extend_from_slice(&0i32.to_le_bytes());
    let mut r = Reader::new(&buf);
    let props = reader.read_struct(&mut r, "S").expect("read");
    assert_eq!(props.get("N").and_then(Value::as_str), Some("Lamball"));
}

#[test]
fn value_accessors_follow_their_documented_conversions() {
    assert_eq!(Value::Bool(true).as_i64(), Some(1));
    assert_eq!(Value::Int(3_000_000_000).as_i32(), None);
    assert_eq!(Value::Int(-5).as_i32(), Some(-5));
    assert_eq!(Value::Int(2).as_bool(), Some(true));
    assert_eq!(Value::Zero.as_bool(), Some(false));
    assert_eq!(Value::Zero.as_str(), Some(""));
    assert_eq!(Value::Object(-3).as_str(), None);
    assert_eq!(Value::Object(-3).as_object(), Some(-3));
}
