use bim_sort::codec::Wire;
use bim_sort::json::Json;
use bim_sort::models::annotations::Annotation;
use bim_sort::models::table::{Partition, Source};
use bim_sort::models::{Expression, RecursiveSort};
use bim_sort::sorting::sort;

fn value(text: &str) -> serde_json::Value {
    serde_json::from_str(text).expect("the text is JSON")
}

fn from_value<T: Wire>(text: &str) -> T {
    let json = Json::parse(text).expect("the text is JSON");
    T::from_json(&json).expect("Could not convert input.")
}

fn there_and_back_test<T: Wire>(text: &str) {
    let item: T = from_value(text);
    let output = item.to_json().render().expect("Could not convert back to value");
    assert_eq!(value(text), value(&output));
}

fn new_partition(name: &str, dataview: &str, source: Source) -> Partition {
    Partition {
        mode: None,
        name: name.to_string(),
        data_view: Some(dataview.to_string()),
        source,
        annotations: None,
    }
}

fn new_source(type_: &str, expression: &str) -> Source {
    Source { type_: type_.to_string(), expression: Some(Expression::String(expression.to_string())) }
}

fn new_annotation(name: &str, value: &str) -> Annotation {
    Annotation { name: name.to_owned(), value: Expression::String(value.to_owned()) }
}

#[test]
fn partition_test_can_sort_partitions() {
    let mut partitions = vec![
        new_partition("2022 Onwards", "full", new_source("m", "Some m script")),
        new_partition("2020", "full", new_source("m", "Some m script")),
    ];
    let expected = vec![
        new_partition("2020", "full", new_source("m", "Some m script")),
        new_partition("2022 Onwards", "full", new_source("m", "Some m script")),
    ];
    sort(&mut partitions);
    assert_eq!(partitions, expected);
}

#[test]
fn test_partitions_can_have_annotations() {
    let input = r#"
        {
            "name": "",
            "source": {
                "type": "m",
                "expression": ""
            },
            "annotations": [
                {
                    "name": "",
                    "value": ""
                }
            ]
        }
    "#;

    there_and_back_test::<Partition>(input);
}

#[test]
fn test_partitions_support_sorting_annotations() {
    let mut partition = Partition::default();
    let annotations = vec![
        new_annotation("ZZZ Annotation", "1"),
        new_annotation("BBB", "2"),
        new_annotation("AAA", "3"),
    ];

    let annotations_sorted = {
        let mut annotations_sorted = annotations.clone();
        sort(&mut annotations_sorted);
        annotations_sorted
    };
    partition.annotations = Some(annotations);

    partition.recursive_sort();

    assert_eq!(partition.annotations, Some(annotations_sorted));
}
