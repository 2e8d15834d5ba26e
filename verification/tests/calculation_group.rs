use bim_sort::codec::Wire;
use bim_sort::json::Json;
use bim_sort::models::table::calculation_group::CalculationItem;

fn value(text: &str) -> serde_json::Value {
    serde_json::from_str(text).expect("the text is JSON")
}

fn from_value<T: Wire>(text: &str) -> T {
    let json = Json::parse(text).expect("the text is JSON");
    T::from_json(&json).expect("Could not convert input.")
}

fn there_and_back_test<T: Wire>(text: &str) {
    let item: T = from_value(text);
    let output = item.to_json().render().expect("Could not convert back to value");
    assert_eq!(value(text), value(&output));
}

#[test]
fn test_calculation_item_has_format_string_definition() {
    let data = r#"
        {
            "name": "item with calculation",
            "formatStringDefinition": {
                "expression": "\"0.0%\""
            }
        }
    "#;

    there_and_back_test::<CalculationItem>(data);
}
