use bim_sort::codec::Wire;
use bim_sort::json::Json;
use bim_sort::models::table::calculation_group::{CalculationGroup, CalculationItem};
use bim_sort::models::table::Table;
use bim_sort::sorting::{sort, Ranked};

fn value(text: &str) -> serde_json::Value {
    serde_json::from_str(text).expect("the text is JSON")
}

fn from_value<T: Wire>(text: &str) -> T {
    let json = Json::parse(text).expect("the text is JSON");
    T::from_json(&json).expect("Could not convert input.")
}

fn there_and_back_test<T: Wire>(text: &str) {
    let item: T = from_value(text);
    let output = item.to_json().render().expect("Could not convert back to value");
    assert_eq!(value(text), value(&output));
}

fn test_sort<T: Wire + Ranked + Clone + PartialEq + std::fmt::Debug>(inputs: [&str; 2]) {
    let item_one: T = from_value(inputs[0]);
    let item_two: T = from_value(inputs[1]);

    let mut items = vec![item_one.clone(), item_two.clone()];
    let expected = vec![item_two, item_one];

    sort(&mut items);

    assert_eq!(items, expected);
}

#[test]
fn mod_can_build_calculation_item_from_json() {
    let input = r#"
        {
            "name": "Next Day",
            "expression": [
                "CALCULATE (",
                "    SELECTEDMEASURE (),",
                "    FILTER ( CourseDate, CourseDate[day_offset] <= 1 )",
                ")"
            ],
            "ordinal": 0
        }
    "#;

    there_and_back_test::<CalculationItem>(input);
}

#[test]
#[should_panic]
fn mod_calculation_item_fails_without_a_name() {
    let input = r#"
        {
            "expression": [
                "CALCULATE (",
                "    SELECTEDMEASURE (),",
                "    FILTER ( CourseDate, CourseDate[day_offset] <= 1 )",
                ")"
            ],
            "ordinal": 0
        }
    "#;

    from_value::<CalculationItem>(input);
}

#[test]
fn mod_calculation_item_succeeds_without_an_expression() {
    let input = r#"
        {
            "name": "Next Day",
            "ordinal": 0
        }
    "#;

    there_and_back_test::<CalculationItem>(input);
}

#[test]
fn mod_calculation_item_succeeds_without_an_ordinal() {
    let input = r#"
        {
            "name": "Next Day",
            "expression": [
                "CALCULATE (",
                "    SELECTEDMEASURE (),",
                "    FILTER ( CourseDate, CourseDate[day_offset] <= 1 )",
                ")"
            ]
        }
    "#;

    there_and_back_test::<CalculationItem>(input);
}

#[test]
fn mod_calculation_item_succeeds_with_name_only() {
    let input = r#"
        {
            "name": "CalculationItem 1"
        }
    "#;

    there_and_back_test::<CalculationItem>(input);
}

#[test]
fn mod_can_create_calculation_group_from_json() {
    let input = r#"
        {
            "calculationItems": [
                {
                    "name": "Next Day",
                    "expression": [
                        "CALCULATE (",
                        "    SELECTEDMEASURE (),",
                        "    FILTER ( CourseDate, CourseDate[day_offset] <= 1 )",
                        ")"
                    ],
                    "ordinal": 1
                }
            ]
        }
    "#;

    there_and_back_test::<CalculationGroup>(input)
}

#[test]
fn mod_can_create_calculation_group_with_empty_calculation_items() {
    let input = r#"
        {
            "calculationItems": []
        }
    "#;
    there_and_back_test::<CalculationGroup>(input);
}

#[test]
fn mod_calculation_items_can_sort_by_name() {
    let input_one = r#"
        {
            "name": "Next Day"
        }
    "#;
    let input_two = r#"
        {
            "name": "Yesterday"
        }
    "#;

    test_sort::<CalculationItem>([input_two, input_one]);
}

#[test]
fn mod_calculation_items_prioritise_sort_by_ordinal() {
    let input_one = r#"
        {
            "name": "Next Day",
            "ordinal": 1
        }
    "#;
    let input_two = r#"
        {
            "name": "Yesterday",
            "ordinal": 0
        }
    "#;

    test_sort::<CalculationItem>([input_one, input_two]);
}

#[test]
fn mod_calculation_items_sort_by_name_if_ordinal_equal() {
    let input_one = r#"
        {
            "name": "Next Day",
            "ordinal": 0
        }
    "#;
    let input_two = r#"
        {
            "name": "Yesterday",
            "ordinal": 0
        }
    "#;

    test_sort::<CalculationItem>([input_two, input_one]);
}

#[test]
fn mod_calculation_items_sort_ordinals_first_if_other_only_has_name() {
    let input_one = r#"
        {
            "name": "Next Day"
        }
    "#;
    let input_two = r#"
        {
            "name": "Yesterday",
            "ordinal": 0
        }
    "#;

    test_sort::<CalculationItem>([input_one, input_two]);
}

#[test]
fn mod_can_create_table_with_a_calculation_group() {
    let input = r#"
        {
            "name": "CalculationGroup 1",
            "calculationGroup": {
                "calculationItems": [
                    {
                        "name": "CalculationItem 1"
                    }
                ]
            },
            "columns": [
                {
                    "name": "CalculationItemColumn 1",
                    "dataType": "string",
                    "sourceColumn": "Name"
                }
            ],
            "partitions": [
                {
                    "name": "CalculationGroup 1",
                    "mode": "import",
                    "source": {
                        "type": "calculationGroup"
                    }
                }
            ]
        }
    "#;

    there_and_back_test::<Table>(input);
}

#[test]
fn mod_can_create_table_without_calculation_group() {
    let input = r#"
        {
            "name": "arrival_time",
            "columns": [
                {
                    "name": "time",
                    "dataType": "int64",
                    "isHidden": true,
                    "sourceColumn": "time"
                },
                {
                    "name": "MinutesInDay",
                    "dataType": "int64",
                    "isHidden": true,
                    "sourceColumn": "MinutesInDay"
                },
                {
                    "name": "DayNum",
                    "dataType": "int64",
                    "sourceColumn": "DayNum"
                },
                {
                    "name": "Hour",
                    "dataType": "int64",
                    "sourceColumn": "Hour"
                },
                {
                    "name": "Minutes",
                    "dataType": "int64",
                    "sourceColumn": "Minutes"
                },
                {
                    "name": "Timestamp",
                    "dataType": "dateTime",
                    "sourceColumn": "Timestamp"
                }
            ],
            "partitions": [
                {
                    "name": "Partition",
                    "dataView": "full",
                    "source": {
                        "type": "m",
                        "expression": [
                            "let",
                            "    Source = #\"times ref\"",
                            "in",
                            "    Source"
                        ]
                    }
                }
            ]
        }
    "#;

    there_and_back_test::<Table>(input);
}
