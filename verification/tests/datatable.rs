use paldex::data::datatable::{read, DataTable, DataTableError, Row};
use paldex::data::unversioned::{Properties, Value};
use paldex::data::usmap::Usmap;

#[test]
fn last_row_wins_for_a_duplicated_name() {
    let mut second = Properties::new();
    second.insert("Hp".to_owned(), Value::Int(9));
    let table = DataTable {
        row_struct: "R".into(),
        rows: vec![
            Row { name: "dup".into(), properties: Properties::new() },
            Row { name: "dup".into(), properties: second },
        ],
    };
    assert_eq!(
        table.row("dup").and_then(|r| r.properties.get("Hp")),
        Some(&Value::Int(9))
    );
    assert!(table.row("missing").is_none());
}

#[test]
fn rejects_a_package_that_is_not_a_datatable() {
    let usmap = Usmap::default();
    let err = read(&[0u8; 4], &[], &usmap).unwrap_err();
    assert!(matches!(err, DataTableError::Header(_)));
}

#[test]
fn a_later_insert_of_a_property_replaces_the_earlier_value() {
    let mut p = Properties::new();
    p.insert("Hp".to_owned(), Value::Int(1));
    p.insert("Hp".to_owned(), Value::Int(2));
    assert_eq!(p.get("Hp"), Some(&Value::Int(2)));
    assert!(p.contains_key("Hp"));
    assert!(!p.contains_key("Mp"));
}
