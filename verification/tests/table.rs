use bim_sort::codec::Wire;
use bim_sort::json::Json;
use bim_sort::models::table::calculation_group::{CalculationGroup, CalculationItem};
use bim_sort::models::table::column::{Calculated, CommonColumn, DataCategory, Sourced};
use bim_sort::models::table::{Column, Measure, Partition, Source, Table};
use bim_sort::models::{Expression, Expressive};
use bim_sort::sorting::{sort, Ranked};

fn value(text: &str) -> serde_json::Value {
    serde_json::from_str(text).expect("the text is JSON")
}

fn from_value<T: Wire>(text: &str) -> T {
    let json = Json::parse(text).expect("the text is JSON");
    T::from_json(&json).expect("Could not convert input.")
}

fn there_and_back_test<T: Wire>(text: &str) {
    let item: T = from_value(text);
    let output = item.to_json().render().expect("Could not convert back to value");
    assert_eq!(value(text), value(&output));
}

fn compact(json: &Json) -> String {
    let text = json.render().expect("the value can be written");
    serde_json::to_string(&value(&text)).expect("the value can be written")
}

fn test_sort<T: Wire + Ranked + Clone + PartialEq + std::fmt::Debug>(inputs: [&str; 2]) {
    let item_one: T = from_value(inputs[0]);
    let item_two: T = from_value(inputs[1]);

    let mut items = vec![item_one.clone(), item_two.clone()];
    let expected = vec![item_two, item_one];

    sort(&mut items);

    assert_eq!(items, expected);
}

fn new_calculated(name: &str, data_type: &str, expression: &str) -> Column {
    Column::Calculated(Calculated {
        common: CommonColumn {
            name: name.to_string(),
            data_type: data_type.to_string(),
            is_hidden: None,
            data_category: DataCategory::default(),
        },
        type_: "calculated".to_string(),
        expression: Expression::String(expression.to_string()),
        is_data_type_inferred: None,
        format_string: None,
        display_folder: None,
    })
}

fn new_sourced(name: &str, data_type: &str, source_column: &str, sort_by_column: &str) -> Column {
    Column::Sourced(Sourced {
        common: CommonColumn {
            name: name.to_string(),
            data_type: data_type.to_string(),
            is_hidden: None,
            data_category: DataCategory::default(),
        },
        source_column: source_column.to_string(),
        sort_by_column: Some(sort_by_column.to_string()),
        description: None,
        format_string: None,
        annotations: None,
    })
}

fn new_partition(name: &str, dataview: &str, source: Source) -> Partition {
    Partition {
        mode: None,
        name: name.to_string(),
        data_view: Some(dataview.to_string()),
        source,
        annotations: None,
    }
}

fn new_source(type_: &str, expression: &str) -> Source {
    Source { type_: type_.to_string(), expression: Some(Expression::String(expression.to_string())) }
}

fn new_measure(name: &str, expression: &str) -> Measure {
    let expression = Expression::String(expression.to_string());
    Measure {
        name: name.to_string(),
        description: None,
        expression,
        format_string: None,
        display_folder: None,
        annotations: None,
        kpi: None,
    }
}

#[test]
fn table_test_column_with_vec_expression() {
    let column_content = r#"
    {
        "type": "calculated",
        "name": "Column name",
        "dataType": "int64",
        "isDataTypeInferred": true,
        "expression": [
            "",
            "VAR some_val =",
            "    COUNTROWS( FILTER( Table, Table[DontCountMe] ) )",
            "VAR second_val =",
            "    COUNTROWS( Table )",
            "RETURN",
            "    DIVIDE( some_val, second_val )"
        ],
        "formatString": "0.0%;-0.0%;0.0%",
        "displayFolder": "MyMeasures"
    }"#;
    let expected_expression = [
        "",
        "VAR some_val =",
        "    COUNTROWS( FILTER( Table, Table[DontCountMe] ) )",
        "VAR second_val =",
        "    COUNTROWS( Table )",
        "RETURN",
        "    DIVIDE( some_val, second_val )",
    ]
    .join("\n");

    let column: Column = from_value(column_content);
    assert_eq!(
        column.expression().expect("Should not fail"),
        expected_expression
    );
}

#[test]
fn table_test_can_sort_columns() {
    let mut columns = vec![
        new_calculated("ZZZ Calculated", "int64", "COUNTROWS(Calculations)"),
        new_sourced("ZZZ Sourced", "int64", "ZZZ Sourced", "ZZZ Sourced"),
        new_sourced("AAA Sourced", "int64", "AAA Sourced", "AAA Sourced"),
        new_calculated("AAA Calculated", "int64", "COUNTROWS(Calculated)"),
    ];
    let expected = vec![
        new_calculated("AAA Calculated", "int64", "COUNTROWS(Calculated)"),
        new_sourced("AAA Sourced", "int64", "AAA Sourced", "AAA Sourced"),
        new_calculated("ZZZ Calculated", "int64", "COUNTROWS(Calculations)"),
        new_sourced("ZZZ Sourced", "int64", "ZZZ Sourced", "ZZZ Sourced"),
    ];

    sort(&mut columns);
    assert_eq!(columns, expected);
}

#[test]
fn table_test_if_source_column_is_provided_it_should_be_outputted() {
    let input = r#"
        {
            "name": "Time Horizon",
            "dataType": "string",
            "sourceColumn": "Name",
            "sortByColumn": "Ordinal"
        }
    "#;

    let column: Column = from_value(input);

    let output = compact(&column.to_json());

    assert!(output.contains(r#""sourceColumn":"Name""#))
}

#[test]
fn table_test_if_sort_by_column_provided_it_is_in_output() {
    let input = r#"
    {
        "name": "Time Horizon",
        "dataType": "string",
        "sourceColumn": "Name",
        "sortByColumn": "Ordinal"
    }
"#;

    let column: Column = from_value(input);

    let output = compact(&column.to_json());

    assert!(output.contains(r#""sortByColumn":"Ordinal""#))
}

#[test]
fn table_test_can_sort_partitions() {
    let mut partitions = vec![
        new_partition("2022 Onwards", "full", new_source("m", "Some m script")),
        new_partition("2020", "full", new_source("m", "Some m script")),
    ];
    let expected = vec![
        new_partition("2020", "full", new_source("m", "Some m script")),
        new_partition("2022 Onwards", "full", new_source("m", "Some m script")),
    ];
    sort(&mut partitions);
    assert_eq!(partitions, expected);
}

#[test]
fn table_test_can_sort_measures() {
    let mut measures = vec![
        new_measure("Total Count", "COUNTROWS(Table)"),
        new_measure(
            "Days Per Month",
            "AVERAGEX ( VALUES ( 'Calendar'[MonthStarting] ), [Number of Days Delivered] )",
        ),
    ];

    let expected = vec![
        new_measure(
            "Days Per Month",
            "AVERAGEX ( VALUES ( 'Calendar'[MonthStarting] ), [Number of Days Delivered] )",
        ),
        new_measure("Total Count", "COUNTROWS(Table)"),
    ];

    sort(&mut measures);
    assert_eq!(measures, expected);
}

#[test]
fn table_can_build_calculation_item_from_json() {
    let input = r#"
        {
            "name": "Next Day",
            "expression": [
                "CALCULATE (",
                "    SELECTEDMEASURE (),",
                "    FILTER ( CourseDate, CourseDate[day_offset] <= 1 )",
                ")"
            ],
            "ordinal": 0
        }
    "#;

    there_and_back_test::<CalculationItem>(input);
}

#[test]
#[should_panic]
fn table_calculation_item_fails_without_a_name() {
    let input = r#"
        {
            "expression": [
                "CALCULATE (",
                "    SELECTEDMEASURE (),",
                "    FILTER ( CourseDate, CourseDate[day_offset] <= 1 )",
                ")"
            ],
            "ordinal": 0
        }
    "#;

    from_value::<CalculationItem>(input);
}

#[test]
fn table_calculation_item_succeeds_without_an_expression() {
    let input = r#"
        {
            "name": "Next Day",
            "ordinal": 0
        }
    "#;

    there_and_back_test::<CalculationItem>(input);
}

#[test]
fn table_calculation_item_succeeds_without_an_ordinal() {
    let input = r#"
        {
            "name": "Next Day",
            "expression": [
                "CALCULATE (",
                "    SELECTEDMEASURE (),",
                "    FILTER ( CourseDate, CourseDate[day_offset] <= 1 )",
                ")"
            ]
        }
    "#;

    there_and_back_test::<CalculationItem>(input);
}

#[test]
fn table_calculation_item_succeeds_with_name_only() {
    let input = r#"
        {
            "name": "CalculationItem 1"
        }
    "#;

    there_and_back_test::<CalculationItem>(input);
}

#[test]
fn table_can_create_calculation_group_from_json() {
    let input = r#"
        {
            "calculationItems": [
                {
                    "name": "Next Day",
                    "expression": [
                        "CALCULATE (",
                        "    SELECTEDMEASURE (),",
                        "    FILTER ( CourseDate, CourseDate[day_offset] <= 1 )",
                        ")"
                    ],
                    "ordinal": 1
                }
            ]
        }
    "#;

    there_and_back_test::<CalculationGroup>(input)
}

#[test]
fn table_can_create_calculation_group_with_empty_calculation_items() {
    let input = r#"
        {
            "calculationItems": []
        }
    "#;
    there_and_back_test::<CalculationGroup>(input);
}

#[test]
fn table_calculation_items_can_sort_by_name() {
    let input_one = r#"
        {
            "name": "Next Day"
        }
    "#;
    let input_two = r#"
        {
            "name": "Yesterday"
        }
    "#;

    test_sort::<CalculationItem>([input_two, input_one]);
}

#[test]
fn table_calculation_items_prioritise_sort_by_ordinal() {
    let input_one = r#"
        {
            "name": "Next Day",
            "ordinal": 1
        }
    "#;
    let input_two = r#"
        {
            "name": "Yesterday",
            "ordinal": 0
        }
    "#;

    test_sort::<CalculationItem>([input_one, input_two]);
}

#[test]
fn table_calculation_items_sort_by_name_if_ordinal_equal() {
    let input_one = r#"
        {
            "name": "Next Day",
            "ordinal": 0
        }
    "#;
    let input_two = r#"
        {
            "name": "Yesterday",
            "ordinal": 0
        }
    "#;

    test_sort::<CalculationItem>([input_two, input_one]);
}

#[test]
fn table_calculation_items_sort_ordinals_first_if_other_only_has_name() {
    let input_one = r#"
        {
            "name": "Next Day"
        }
    "#;
    let input_two = r#"
        {
            "name": "Yesterday",
            "ordinal": 0
        }
    "#;

    test_sort::<CalculationItem>([input_one, input_two]);
}

#[test]
fn table_can_create_table_with_a_calculation_group() {
    let input = r#"
        {
            "name": "CalculationGroup 1",
            "calculationGroup": {
                "calculationItems": [
                    {
                        "name": "CalculationItem 1"
                    }
                ]
            },
            "columns": [
                {
                    "name": "CalculationItemColumn 1",
                    "dataType": "string",
                    "sourceColumn": "Name"
                }
            ],
            "partitions": [
                {
                    "name": "CalculationGroup 1",
                    "mode": "import",
                    "source": {
                        "type": "calculationGroup"
                    }
                }
            ]
        }
    "#;

    there_and_back_test::<Table>(input);
}

#[test]
fn table_can_create_table_without_calculation_group() {
    let input = r#"
        {
            "name": "arrival_time",
            "columns": [
                {
                    "name": "time",
                    "dataType": "int64",
                    "isHidden": true,
                    "sourceColumn": "time"
                },
                {
                    "name": "MinutesInDay",
                    "dataType": "int64",
                    "isHidden": true,
                    "sourceColumn": "MinutesInDay"
                },
                {
                    "name": "DayNum",
                    "dataType": "int64",
                    "sourceColumn": "DayNum"
                },
                {
                    "name": "Hour",
                    "dataType": "int64",
                    "sourceColumn": "Hour"
                },
                {
                    "name": "Minutes",
                    "dataType": "int64",
                    "sourceColumn": "Minutes"
                },
                {
                    "name": "Timestamp",
                    "dataType": "dateTime",
                    "sourceColumn": "Timestamp"
                }
            ],
            "partitions": [
                {
                    "name": "Partition",
                    "dataView": "full",
                    "source": {
                        "type": "m",
                        "expression": [
                            "let",
                            "    Source = #\"times ref\"",
                            "in",
                            "    Source"
                        ]
                    }
                }
            ]
        }
    "#;

    there_and_back_test::<Table>(input);
}
