use bim_sort::codec::Wire;
use bim_sort::json::Json;
use bim_sort::models::annotations::Annotation;

fn value(text: &str) -> serde_json::Value {
    serde_json::from_str(text).expect("the text is JSON")
}

fn from_value<T: Wire>(text: &str) -> T {
    let json = Json::parse(text).expect("the text is JSON");
    T::from_json(&json).expect("Could not convert input.")
}

fn there_and_back_test<T: Wire>(text: &str) {
    let item: T = from_value(text);
    let output = item.to_json().render().expect("Could not convert back to value");
    assert_eq!(value(text), value(&output));
}

#[test]
#[should_panic]
fn errors_if_field_is_unknown() {
    let bad_input = r#"
        {
            "name": "A name",
            "value": "A value",
            "UNKNOWN": "Bad field"
        }
    "#;

    from_value::<Annotation>(bad_input);
}

#[test]
fn values_can_be_arrays_or_strings() {
    let input_one = r#"
        {
            "name": "A new name",
            "value": [
                "",
                "An array value",
                ""
            ]
        }
    "#;

    there_and_back_test::<Annotation>(input_one);

    let input_two = r#"
        {
            "name": "Another name",
            "value": "A string value"
        }
    "#;

    there_and_back_test::<Annotation>(input_two);
}
