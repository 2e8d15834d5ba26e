use bim_sort::codec::Wire;
use bim_sort::json::Json;
use bim_sort::models::table::measure::{Kpi, Measure};
use bim_sort::models::{Expression, RecursiveSort};

fn value(text: &str) -> serde_json::Value {
    serde_json::from_str(text).expect("the text is JSON")
}

fn from_value<T: Wire>(text: &str) -> T {
    let json = Json::parse(text).expect("the text is JSON");
    T::from_json(&json).expect("Could not convert input.")
}

fn there_and_back_test<T: Wire>(text: &str) {
    let item: T = from_value(text);
    let output = item.to_json().render().expect("Could not convert back to value");
    assert_eq!(value(text), value(&output));
}

fn new_measure(name: &str, expression: &str) -> Measure {
    let expression = Expression::String(expression.to_string());
    Measure {
        name: name.to_string(),
        description: None,
        expression,
        format_string: None,
        display_folder: None,
        annotations: None,
        kpi: None,
    }
}

#[test]
fn measure_test_can_sort_measures() {
    let mut measures = vec![
        new_measure("Total Count", "COUNTROWS(Table)"),
        new_measure(
            "Days Per Month",
            "AVERAGEX ( VALUES ( 'Calendar'[MonthStarting] ), [Number of Days Delivered] )",
        ),
    ];

    let expected = vec![
        new_measure(
            "Days Per Month",
            "AVERAGEX ( VALUES ( 'Calendar'[MonthStarting] ), [Number of Days Delivered] )",
        ),
        new_measure("Total Count", "COUNTROWS(Table)"),
    ];

    measures.recursive_sort();
    assert_eq!(measures, expected);
}

#[test]
fn test_measures_allow_annotations() {
    let input = r#"
        {
            "name": "Date From",
            "expression": " MIN('Calendar'[Date])",
            "formatString": "dd/MM/yyyy",
            "displayFolder": "Filters",
            "annotations": [
                {
                    "name": "Format",
                    "value": "<Format Format=\"DateTimeCustom\"><DateTimes><DateTime LCID=\"2057\" Group=\"ShortDate\" FormatString=\"dd/MM/yyyy\" /></DateTimes></Format>"
                }
            ]
        }
    "#;

    there_and_back_test::<Measure>(input)
}

#[test]
fn test_measures_can_have_descriptions() {
    let input = r#"
        {
            "name": "A measure",
            "description": "A measure's description",
            "expression": [
                "",
                "COUNTROWS(Table)",
                ""
            ]
        }
    "#;

    there_and_back_test::<Measure>(input);
}

#[test]
fn test_measures_have_kpis() {
    let input = r#"
        {
            "name": "A measure with KPI",
            "description": "A measure with an included KPI field",
            "expression": [
                "",
                "DIVIDE( [Numerator], [Denominator] )"
            ],
            "formatString": "0.00",
            "displayFolder": "A folder",
            "kpi": {
                "targetExpression": "8",
                "targetFormatString": "0.00",
                "statusGraphic": "Road Signs",
                "statusExpression": [
                    "",
                    "var x=[Some number] return",
                    " if ([Some number] > 0, 1, 0) "
                ],
                "annotations": [
                    {
                    "name": "GoalType",
                    "value": "StaticValue"
                    }
                ]
            }
        }
    "#;

    there_and_back_test::<Measure>(input);
}

#[test]
fn test_kpi_can_be_read() {
    let kpi = r#"
        {
            "targetExpression": "8",
            "targetFormatString": "0.00",
            "statusGraphic": "Road Signs",
            "statusExpression": [
                "",
                "var x=[Some number] return",
                " if ([Some number] > 0, 1, 0) "
            ],
            "annotations": [
                {
                "name": "GoalType",
                "value": "StaticValue"
                }
            ]
        }
    "#;

    there_and_back_test::<Kpi>(kpi);
}

#[test]
fn test_kpi_annotations_are_not_required() {
    let kpi = r#"
        {
            "targetExpression": "8",
            "targetFormatString": "0.00",
            "statusGraphic": "Road Signs",
            "statusExpression": [
                "",
                "var x=[Some number] return",
                " if ([Some number] > 0, 1, 0) "
            ]
        }
    "#;

    there_and_back_test::<Kpi>(kpi);
}

#[test]
fn test_kpi_status_expression_can_be_single_line() {
    let kpi = r#"
        {
            "targetExpression": "8",
            "targetFormatString": "0.00",
            "statusGraphic": "Road Signs",
            "statusExpression": "One single line"
        }
    "#;

    there_and_back_test::<Kpi>(kpi);
}

#[test]
#[should_panic]
fn test_kpi_rejects_unknown_fields() {
    let kpi = r#"
        {
            "targetExpression": "8",
            "targetFormatString": "0.00",
            "statusGraphic": "Road Signs",
            "statusExpression": "One single line",
            "unknownField": "An unknown field"
        }
    "#;

    from_value::<Kpi>(kpi);
}
