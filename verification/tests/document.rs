use bim_sort::codec::Wire;
use bim_sort::error::{Entity, ErrorKind};
use bim_sort::json::Json;
use bim_sort::models::model::Model;
use bim_sort::models::table::{Attributes, Column, Table};
use bim_sort::models::{Bim, RecursiveSort};

const DOCUMENT: &str = r#"{
  "name": "SemanticModel",
  "compatibilityLevel": 1500,
  "model": {
    "culture": "en-GB",
    "dataSources": [
      {
        "type": "structured",
        "name": "SQL/warehouse",
        "connectionDetails": {
          "protocol": "tds",
          "address": {
            "server": "warehouse",
            "database": "sales"
          },
          "authentication": null,
          "query": null
        },
        "credential": {
          "AuthenticationKind": "UsernamePassword",
          "kind": "SQL",
          "path": "warehouse;sales",
          "Username": "reader",
          "EncryptConnection": true
        }
      },
      {
        "type": "structured",
        "name": "documents",
        "connectionDetails": {
          "protocol": "document-db",
          "address": {
            "url": "https://example.org"
          }
        },
        "credential": {
          "AuthenticationKind": "Key",
          "kind": "DocumentDB",
          "path": "https://example.org",
          "PrivacySetting": "Private"
        }
      }
    ],
    "tables": [
      {
        "name": "Zebra",
        "columns": [
          {
            "name": "weight",
            "dataType": "int64",
            "sourceColumn": "weight",
            "annotations": [
              {
                "name": "b",
                "value": "2"
              },
              {
                "name": "A",
                "value": "1"
              }
            ]
          },
          {
            "name": "Age",
            "dataType": "int64",
            "type": "calculated",
            "expression": [
              "YEAR ( TODAY () )",
              "    - Zebra[born]"
            ]
          },
          {
            "name": "born",
            "dataType": "int64",
            "type": "calculatedTableColumn",
            "isNameInferred": true,
            "sourceColumn": "[born]"
          }
        ],
        "partitions": [
          {
            "name": "second",
            "source": {
              "type": "m",
              "expression": "let x = 1 in x"
            }
          },
          {
            "mode": "import",
            "name": "First",
            "source": {
              "type": "m"
            }
          }
        ],
        "measures": [
          {
            "name": "total",
            "expression": "SUM ( Zebra[weight] )",
            "kpi": {
              "targetExpression": "8",
              "targetFormatString": "0.00",
              "statusGraphic": "Road Signs",
              "statusExpression": "1",
              "annotations": [
                {
                  "name": "z",
                  "value": "1"
                },
                {
                  "name": "Y",
                  "value": "2"
                }
              ]
            }
          },
          {
            "name": "Count",
            "expression": "COUNTROWS ( Zebra )"
          }
        ]
      },
      {
        "name": "apple",
        "isHidden": true,
        "columns": [],
        "partitions": [],
        "calculationGroup": {
          "calculationItems": [
            {
              "name": "B"
            },
            {
              "name": "A",
              "ordinal": 0
            }
          ]
        }
      }
    ],
    "relationships": [
      {
        "name": "zebra-apple",
        "fromTable": "Zebra",
        "fromColumn": "weight",
        "toTable": "apple",
        "toColumn": "weight"
      },
      {
        "name": "Apple-zebra",
        "fromTable": "apple",
        "fromColumn": "weight",
        "toTable": "Zebra",
        "toColumn": "weight",
        "isActive": false,
        "crossFilterBehaviour": "bothDirections"
      }
    ],
    "roles": [
      {
        "name": "readers",
        "modelPermission": "read",
        "members": [
          {
            "memberName": "zoe",
            "memberId": "2",
            "identityProvider": "AzureAD"
          },
          {
            "memberName": "Adam",
            "memberId": "1",
            "identityProvider": "AzureAD"
          }
        ]
      },
      {
        "name": "Admins",
        "modelPermission": "administrator",
        "members": []
      }
    ],
    "expressions": [
      {
        "name": "source",
        "kind": "m",
        "expression": "\"warehouse\""
      },
      {
        "name": "Limit",
        "kind": "m",
        "expression": [
          "let",
          "    n = 10",
          "in",
          "    n"
        ]
      }
    ],
    "annotations": [
      {
        "name": "version",
        "value": "1"
      },
      {
        "name": "Author",
        "value": "someone"
      }
    ]
  },
  "id": "SemanticModel"
}"#;

fn value(text: &str) -> serde_json::Value {
    serde_json::from_str(text).expect("the text is JSON")
}

fn names_of<T>(list: &[T], name: fn(&T) -> String) -> Vec<String> {
    list.iter().map(name).collect()
}

#[test]
fn a_written_document_is_the_text_that_was_read() {
    let bim = Bim::from_str(DOCUMENT).expect("the document is read");
    assert_eq!(bim.to_string(), DOCUMENT);
}

#[test]
fn reading_is_a_fixed_point_after_one_cycle() {
    let noisy = DOCUMENT
        .replace("\"culture\": \"en-GB\",", "\"culture\": \"en-GB\", \"discourageImplicitMeasures\": true,")
        .replace("\"name\": \"Zebra\",", "\"name\": \"Zebra\", \"isHidden\": false,")
        .replace("\"toColumn\": \"weight\"\n", "\"toColumn\": \"weight\", \"isActive\": true, \"crossFilterBehaviour\": \"Single\"\n");
    assert_ne!(value(&noisy), value(DOCUMENT));
    let first = Bim::from_str(&noisy).expect("the document is read");
    let written = first.to_string();
    assert_ne!(value(&written), value(&noisy));
    let second = Bim::from_str(&written).expect("the written document is read");
    assert_eq!(first, second);
    assert_eq!(second.to_string(), written);
}

#[test]
fn sorting_orders_every_list_of_the_document() {
    let mut bim = Bim::from_str(DOCUMENT).expect("the document is read");
    bim.sort();
    let model = &bim.model;
    assert_eq!(names_of(&model.data_sources, |d| d.name.clone()), ["documents", "SQL/warehouse"]);
    assert_eq!(names_of(&model.tables, |t| t.name.clone()), ["apple", "Zebra"]);
    assert_eq!(names_of(&model.relationships, |r| r.name.clone()), ["Apple-zebra", "zebra-apple"]);
    let roles = model.roles.as_ref().expect("the model has roles");
    assert_eq!(names_of(roles, |r| r.name.clone()), ["Admins", "readers"]);
    assert_eq!(names_of(&roles[1].members, |m| m.name.clone()), ["Adam", "zoe"]);
    assert_eq!(names_of(&model.expressions, |e| e.name.clone()), ["Limit", "source"]);
    assert_eq!(names_of(&model.annotations, |a| a.name.clone()), ["Author", "version"]);

    let zebra = &model.tables[1];
    let columns: Vec<String> = zebra.columns.iter().map(|c| c.name()).collect();
    assert_eq!(columns, ["Age", "born", "weight"]);
    assert_eq!(names_of(&zebra.partitions, |p| p.name.clone()), ["First", "second"]);
    let measures = zebra.measures.as_ref().expect("the table has measures");
    assert_eq!(names_of(measures, |m| m.name.clone()), ["Count", "total"]);
    let kpi = measures[1].kpi.as_ref().expect("the measure has an indicator");
    let notes = kpi.annotations.as_ref().expect("the indicator has annotations");
    assert_eq!(names_of(notes, |a| a.name.clone()), ["Y", "z"]);
    match &zebra.columns[2] {
        Column::Sourced(c) => {
            let notes = c.annotations.as_ref().expect("the column has annotations");
            assert_eq!(names_of(notes, |a| a.name.clone()), ["A", "b"]);
        }
        other => panic!("not a sourced column: {other:?}"),
    }
    let group = model.tables[0].calculation_group.as_ref().expect("the table has a group");
    let items: Vec<(String, Option<i32>)> =
        group.calculation_items.iter().map(|i| (i.name.clone(), i.ordinal)).collect();
    assert_eq!(items, [("A".to_string(), Some(0)), ("B".to_string(), None)]);
}

#[test]
fn sorting_twice_changes_nothing_more() {
    let mut once = Bim::from_str(DOCUMENT).expect("the document is read");
    once.sort();
    let mut twice = Bim::from_str(DOCUMENT).expect("the document is read");
    twice.sort();
    twice.sort();
    assert_eq!(once, twice);
    assert_eq!(once.to_string(), twice.to_string());
}

#[test]
fn sorting_keeps_what_the_document_holds() {
    let mut bim = Bim::from_str(DOCUMENT).expect("the document is read");
    let before = bim.to_string();
    bim.sort();
    let after = bim.to_string();
    assert_ne!(before, after);
    let mut lines_before: Vec<&str> = before.lines().map(|l| l.trim().trim_end_matches(',')).collect();
    let mut lines_after: Vec<&str> = after.lines().map(|l| l.trim().trim_end_matches(',')).collect();
    lines_before.sort();
    lines_after.sort();
    assert_eq!(lines_before, lines_after);
}

#[test]
fn tables_are_ordered_by_name_whatever_the_case() {
    let text = r#"{
        "culture": "en-GB",
        "dataSources": [],
        "tables": [
            {"name": "Zebra", "columns": [], "partitions": []},
            {"name": "apple", "columns": [], "partitions": []}
        ],
        "relationships": [],
        "roles": null,
        "expressions": [],
        "annotations": []
    }"#;
    let json = Json::parse(text).expect("the text is JSON");
    let mut model = Model::from_json(&json).expect("the model is read");
    model.recursive_sort();
    let names: Vec<&str> = model.tables.iter().map(|t| t.name.as_str()).collect();
    assert_eq!(names, ["apple", "Zebra"]);
}

#[test]
fn names_that_differ_in_case_only_keep_their_order() {
    let table = |name: &str, hidden: bool| Table {
        name: name.to_string(),
        is_hidden: hidden,
        columns: vec![],
        partitions: vec![],
        measures: None,
        calculation_group: None,
    };
    let mut tables = vec![table("b", false), table("A", true), table("a", false), table("B", true)];
    tables.recursive_sort();
    let got: Vec<(&str, bool)> = tables.iter().map(|t| (t.name.as_str(), t.is_hidden)).collect();
    assert_eq!(got, [("A", true), ("a", false), ("b", false), ("B", true)]);
}

#[test]
fn a_model_without_roles_is_written_without_them() {
    let text = r#"{
        "culture": "en-GB",
        "dataSources": [],
        "tables": [],
        "relationships": [],
        "expressions": [],
        "annotations": []
    }"#;
    let json = Json::parse(text).expect("the text is JSON");
    let model = Model::from_json(&json).expect("the model is read");
    assert_eq!(model.roles, None);
    assert!(model.discourage_implicit_measures);
    let written = model.to_json().render().expect("the model is written");
    assert_eq!(
        written,
        "{\n  \"culture\": \"en-GB\",\n  \"dataSources\": [],\n  \"tables\": [],\n  \"relationships\": [],\n  \"expressions\": [],\n  \"annotations\": []\n}"
    );
    let null = text.replace("\"expressions\"", "\"roles\": null, \"expressions\"");
    let same = Model::from_json(&Json::parse(&null).expect("JSON")).expect("the model is read");
    assert_eq!(same, model);
    assert_eq!(same.to_json().render(), Some(written));
}

#[test]
fn a_document_without_roles_and_defaults_is_written_without_them() {
    let text = r#"{"name":"m","compatibilityLevel":1,"id":"i","model":{"culture":"c","dataSources":[],"tables":[],"relationships":[],"expressions":[],"annotations":[]}}"#;
    let d = Bim::from_str(text).unwrap();
    assert_eq!(d.model.roles, None);
    assert!(d.model.discourage_implicit_measures);
    let written = value(&d.to_string());
    let model = written.get("model").and_then(|m| m.as_object()).expect("the model is an object");
    assert!(!model.contains_key("roles"));
    assert!(!model.contains_key("discourageImplicitMeasures"));
    let keys: Vec<&str> = model.keys().map(String::as_str).collect();
    assert_eq!(keys, ["culture", "dataSources", "tables", "relationships", "expressions", "annotations"]);
    assert_eq!(Bim::from_str(&d.to_string()).unwrap(), d);
}

#[test]
fn roles_that_are_present_are_written_even_when_empty() {
    let text = r#"{"culture":"c","dataSources":[],"tables":[],"relationships":[],"roles":[],"expressions":[],"annotations":[]}"#;
    let model = Model::from_json(&Json::parse(text).expect("JSON")).expect("the model is read");
    assert_eq!(model.roles, Some(vec![]));
    assert!(model.to_json().render().expect("written").contains("\"roles\": []"));
}

#[test]
fn implicit_measures_are_written_only_when_not_discouraged() {
    let text = r#"{
        "culture": "en-GB",
        "discourageImplicitMeasures": false,
        "dataSources": [],
        "tables": [],
        "relationships": [],
        "roles": null,
        "expressions": [],
        "annotations": []
    }"#;
    let json = Json::parse(text).expect("the text is JSON");
    let model = Model::from_json(&json).expect("the model is read");
    assert!(!model.discourage_implicit_measures);
    let written = model.to_json().render().expect("the model is written");
    assert!(written.contains("\"discourageImplicitMeasures\": false"));
    let again = Model::from_json(&Json::parse(&written).expect("JSON")).expect("the model is read");
    assert_eq!(again, model);
}

#[test]
fn the_document_and_the_model_ignore_fields_they_do_not_declare() {
    let text = DOCUMENT
        .replace("\"name\": \"SemanticModel\",", "\"name\": \"SemanticModel\", \"extra\": 1.5,")
        .replace("\"culture\": \"en-GB\",", "\"culture\": \"en-GB\", \"defaultPowerBIDataSourceVersion\": \"powerBI_V3\",");
    let bim = Bim::from_str(&text).expect("the document is read");
    assert_eq!(bim, Bim::from_str(DOCUMENT).expect("the document is read"));
}

#[test]
fn text_that_is_no_json_is_malformed() {
    let error = Bim::from_str("{ \"name\": ").expect_err("the text is no JSON");
    assert_eq!(error.kind, ErrorKind::Malformed);
    assert_eq!(error.entity, Entity::Document);
    assert_eq!(error.field, "");
    assert!(error.detail.contains("line 1"));
}

#[test]
fn a_document_that_is_no_object_has_the_wrong_type() {
    let error = Bim::from_str("[1, 2]").expect_err("an array is no document");
    assert_eq!(error.kind, ErrorKind::TypeMismatch);
    assert_eq!(error.entity, Entity::Document);
    assert_eq!(error.field, "");
    assert_eq!(error.detail, "");
}

#[test]
fn a_document_without_a_model_misses_a_field() {
    let error = Bim::from_str(r#"{"name": "x", "compatibilityLevel": 1, "id": "x"}"#)
        .expect_err("the model is missing");
    assert_eq!(error.kind, ErrorKind::MissingField);
    assert_eq!(error.entity, Entity::Document);
    assert_eq!(error.field, "model");
}

#[test]
fn the_compatibility_level_is_a_number_from_zero_to_the_largest_u32() {
    let document = |level: &str| DOCUMENT.replace("1500", level);
    assert_eq!(Bim::from_str(&document("0")).expect("read").compatibility_level, 0);
    assert_eq!(Bim::from_str(&document("4294967295")).expect("read").compatibility_level, u32::MAX);
    for level in ["4294967296", "-1", "1.5", "18446744073709551615", "\"1500\"", "null"] {
        let error = Bim::from_str(&document(level)).expect_err("the level is refused");
        assert_eq!(error.kind, ErrorKind::TypeMismatch);
        assert_eq!(error.entity, Entity::Document);
        assert_eq!(error.field, "compatibilityLevel");
    }
}

#[test]
fn a_failure_deep_in_the_document_names_its_record() {
    let text = DOCUMENT.replace("\"memberId\": \"2\",", "");
    let error = Bim::from_str(&text).expect_err("a member lacks its identifier");
    assert_eq!(error.kind, ErrorKind::MissingField);
    assert_eq!(error.entity, Entity::Member);
    assert_eq!(error.field, "memberId");
}
