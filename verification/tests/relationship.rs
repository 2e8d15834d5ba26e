use bim_sort::codec::Wire;
use bim_sort::json::Json;
use bim_sort::models::relationship::{CrossFilterBehaviour, Relationship};

fn from_value<T: Wire>(text: &str) -> T {
    let json = Json::parse(text).expect("the text is JSON");
    T::from_json(&json).expect("Could not convert input.")
}

#[test]
fn serialize_active_relationship() {
    let input = r#"{
        "name": "fd4c11a5-2d37-4e9f-a17c-3bdb83ace28d",
        "fromTable": "Table1",
        "fromColumn": "id",
        "toTable": "Table2",
        "toColumn": "table1_id"
    }
    "#;

    let relationship: Relationship = from_value(input);

    assert_eq!(relationship.name, "fd4c11a5-2d37-4e9f-a17c-3bdb83ace28d");
    assert_eq!(relationship.from_table, "Table1");
    assert_eq!(relationship.from_column, "id");
    assert_eq!(relationship.to_table, "Table2");
    assert_eq!(relationship.to_column, "table1_id");
    assert!(relationship.is_active);
    assert_eq!(
        relationship.cross_filter_behaviour,
        CrossFilterBehaviour::Single
    );
}

#[test]
fn serialize_inactive_relationship() {
    let input = r#"
    {
        "name": "fd4c11a5-2d37-4e9f-a17c-3bdb83ace28d",
        "fromTable": "Table1",
        "fromColumn": "id",
        "toTable": "Table2",
        "toColumn": "table1_id",
        "isActive": false
    }"#;

    let relationship: Relationship = from_value(input);

    assert_eq!(relationship.name, "fd4c11a5-2d37-4e9f-a17c-3bdb83ace28d");
    assert_eq!(relationship.from_table, "Table1");
    assert_eq!(relationship.from_column, "id");
    assert_eq!(relationship.to_table, "Table2");
    assert_eq!(relationship.to_column, "table1_id");
    assert!(!relationship.is_active);
}

#[test]
fn serialize_both_direction_relationship() {
    let input = r#"{
        "name": "fd4c11a5-2d37-4e9f-a17c-3bdb83ace28d",
        "fromTable": "Table1",
        "fromColumn": "id",
        "toTable": "Table2",
        "toColumn": "table1_id",
        "crossFilterBehaviour": "bothDirections"
    }
    "#;

    let relationship: Relationship = from_value(input);

    assert_eq!(
        relationship.cross_filter_behaviour,
        CrossFilterBehaviour::Both
    );
}
