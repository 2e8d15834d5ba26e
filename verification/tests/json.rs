use bim_sort::codec::{
    check_keys, check_known, check_repeated, lenient_fields_of, fields_of, find, is_listed, read_count, read_flag, read_flag_or, read_item,
    read_item_or, read_items, read_list, read_opt_flag, read_opt_item, read_opt_list,
    read_opt_number, read_opt_text, read_text, strict_fields_of, write_count, write_flag_unless,
    write_list, write_opt_flag, write_opt_item, write_opt_list,
    write_opt_number, write_opt_text, write_text_or_null, write_unless, ObjectWriter, Wire,
};
use bim_sort::error::{Entity, ErrorKind, ParseError};
use bim_sort::json::Json;
use bim_sort::models::annotations::Annotation;
use bim_sort::models::relationship::CrossFilterBehaviour;
use bim_sort::models::Expression;

fn parse(text: &str) -> Json {
    Json::parse(text).expect("the text is JSON")
}

fn object(text: &str) -> Vec<(String, Json)> {
    match parse(text) {
        Json::Object(fields) => fields,
        other => panic!("not an object: {other:?}"),
    }
}

fn failure(kind: ErrorKind, entity: Entity, field: &str) -> ParseError {
    ParseError { kind, entity, field: field.to_string(), detail: String::new() }
}

#[test]
fn every_kind_of_value_is_read_from_text() {
    assert_eq!(parse("null"), Json::Null);
    assert_eq!(parse(" true "), Json::Boolean(true));
    assert_eq!(parse("false"), Json::Boolean(false));
    assert_eq!(parse("0"), Json::Integer(0));
    assert_eq!(parse("-17"), Json::Integer(-17));
    assert_eq!(parse("9223372036854775807"), Json::Integer(i64::MAX));
    assert_eq!(parse("-9223372036854775808"), Json::Integer(i64::MIN));
    assert_eq!(parse("9223372036854775808"), Json::Decimal("9223372036854775808".to_string()));
    assert_eq!(parse("1.5"), Json::Decimal("1.5".to_string()));
    assert_eq!(parse("\"a\\n\\u00e9\""), Json::Text("a\né".to_string()));
    assert_eq!(parse("[]"), Json::Array(vec![]));
    assert_eq!(parse("[1, [null]]"), Json::Array(vec![Json::Integer(1), Json::Array(vec![Json::Null])]));
    assert_eq!(parse("{}"), Json::Object(vec![]));
}

#[test]
fn the_entries_of_an_object_keep_the_order_of_the_text() {
    assert_eq!(
        parse(r#"{"b": 1, "a": {"d": null, "c": true}}"#),
        Json::Object(vec![
            ("b".to_string(), Json::Integer(1)),
            (
                "a".to_string(),
                Json::Object(vec![
                    ("d".to_string(), Json::Null),
                    ("c".to_string(), Json::Boolean(true)),
                ])
            ),
        ])
    );
}

#[test]
fn text_that_is_no_json_gives_a_malformed_failure_with_the_message_of_the_reader() {
    for text in ["", "{", "[1,]", "{\"a\": 1,}", "nul", "1 2", "{'a': 1}"] {
        let error = Json::parse(text).expect_err("the text is no JSON");
        assert_eq!(error.kind, ErrorKind::Malformed);
        assert_eq!(error.entity, Entity::Document);
        assert_eq!(error.field, "");
        assert!(error.detail.contains("line 1 column"), "{}", error.detail);
    }
}

#[test]
fn values_are_written_as_indented_text() {
    assert_eq!(Json::Null.render().as_deref(), Some("null"));
    assert_eq!(Json::Boolean(true).render().as_deref(), Some("true"));
    assert_eq!(Json::Integer(-5).render().as_deref(), Some("-5"));
    assert_eq!(Json::Decimal("1.5".to_string()).render().as_deref(), Some("1.5"));
    assert_eq!(Json::text("a\"b").render().as_deref(), Some("\"a\\\"b\""));
    assert_eq!(Json::array(vec![]).render().as_deref(), Some("[]"));
    assert_eq!(Json::object(vec![]).render().as_deref(), Some("{}"));
    let value = Json::object(vec![
        ("b".to_string(), Json::array(vec![Json::Integer(1), Json::Null])),
        ("a".to_string(), Json::object(vec![("c".to_string(), Json::text("d"))])),
    ]);
    assert_eq!(
        value.render().as_deref(),
        Some("{\n  \"b\": [\n    1,\n    null\n  ],\n  \"a\": {\n    \"c\": \"d\"\n  }\n}")
    );
}

#[test]
fn a_decimal_that_is_no_number_cannot_be_written() {
    assert_eq!(Json::Decimal("one".to_string()).render(), None);
    assert_eq!(Json::array(vec![Json::Decimal(String::new())]).render(), None);
    assert_eq!(
        Json::object(vec![("a".to_string(), Json::Decimal("1.".to_string()))]).render(),
        None
    );
}

#[test]
fn written_text_is_read_back_as_the_value() {
    let text = r#"{"b": [1, 2.5, "x", null, true, {"c": []}], "a": -3}"#;
    let value = parse(text);
    let written = value.render().expect("the value is written");
    assert_eq!(parse(&written), value);
    assert_eq!(parse(&written).render(), Some(written));
}

#[test]
fn each_accessor_answers_for_its_own_kind_only() {
    let values = [
        parse("null"),
        parse("true"),
        parse("3"),
        parse("3.5"),
        parse("\"t\""),
        parse("[1]"),
        parse("{\"a\": 1}"),
    ];
    let answers: Vec<[bool; 6]> = values
        .iter()
        .map(|v| {
            [
                v.is_null(),
                v.as_boolean().is_some(),
                v.as_integer().is_some(),
                v.as_text().is_some(),
                v.as_array().is_some(),
                v.as_object().is_some(),
            ]
        })
        .collect();
    assert_eq!(
        answers,
        [
            [true, false, false, false, false, false],
            [false, true, false, false, false, false],
            [false, false, true, false, false, false],
            [false, false, false, false, false, false],
            [false, false, false, true, false, false],
            [false, false, false, false, true, false],
            [false, false, false, false, false, true],
        ]
    );
    assert_eq!(values[1].as_boolean(), Some(true));
    assert_eq!(values[2].as_integer(), Some(3));
    assert_eq!(values[4].as_text().map(String::as_str), Some("t"));
    assert_eq!(values[5].as_array(), Some(&vec![Json::Integer(1)]));
    assert_eq!(values[6].as_object(), Some(&vec![("a".to_string(), Json::Integer(1))]));
}

#[test]
fn a_key_is_found_at_its_last_entry() {
    let fields = vec![
        ("a".to_string(), Json::Integer(1)),
        ("b".to_string(), Json::Integer(2)),
        ("a".to_string(), Json::Integer(3)),
    ];
    assert_eq!(find(&fields, "a"), Some(&Json::Integer(3)));
    assert_eq!(find(&fields, "b"), Some(&Json::Integer(2)));
    assert_eq!(find(&fields, "c"), None);
    assert_eq!(find(&fields, "A"), None);
    assert_eq!(find(&fields, ""), None);
    assert_eq!(find(&vec![], "a"), None);
}

#[test]
fn a_name_is_listed_only_as_it_is_written() {
    let list = ["name", "value", ""];
    assert!(is_listed(&list, "name"));
    assert!(is_listed(&list, "value"));
    assert!(is_listed(&list, ""));
    assert!(!is_listed(&list, "Name"));
    assert!(!is_listed(&list, "nam"));
    assert!(!is_listed(&list, "names"));
    let none: [&str; 0] = [];
    assert!(!is_listed(&none, "name"));
}

#[test]
fn unknown_keys_are_refused_in_the_order_of_the_document() {
    let fields = object(r#"{"a": 1, "x": 2, "b": 3, "y": 4}"#);
    assert_eq!(check_known(&fields, Entity::Table, &["a", "b", "x", "y"]), Ok(()));
    assert_eq!(
        check_known(&fields, Entity::Table, &["a", "b"]),
        Err(failure(ErrorKind::UnknownField, Entity::Table, "x"))
    );
    assert_eq!(
        check_known(&fields, Entity::Table, &["a", "b", "x"]),
        Err(failure(ErrorKind::UnknownField, Entity::Table, "y"))
    );
    let none: [&str; 0] = [];
    assert_eq!(check_known(&vec![], Entity::Table, &none), Ok(()));
}

#[test]
fn declared_keys_that_stand_twice_are_refused_in_the_order_of_the_document() {
    let fields = vec![
        ("x".to_string(), Json::Integer(1)),
        ("b".to_string(), Json::Integer(2)),
        ("a".to_string(), Json::Integer(3)),
        ("x".to_string(), Json::Integer(4)),
        ("a".to_string(), Json::Integer(5)),
        ("b".to_string(), Json::Integer(6)),
    ];
    let twice = |key: &str| Err(failure(ErrorKind::DuplicateField, Entity::Table, key));
    assert_eq!(check_repeated(&fields, Entity::Table, &["a", "b"]), twice("b"));
    assert_eq!(check_repeated(&fields, Entity::Table, &["a"]), twice("a"));
    assert_eq!(check_repeated(&fields, Entity::Table, &["a", "b", "x"]), twice("x"));
    assert_eq!(check_repeated(&fields, Entity::Table, &["c"]), Ok(()));
    let none: [&str; 0] = [];
    assert_eq!(check_repeated(&fields, Entity::Table, &none), Ok(()));
    assert_eq!(check_repeated(&fields[..3].iter().map(|(k, _)| (k.clone(), Json::Null)).collect(), Entity::Table, &["a", "b", "x"]), Ok(()));

    assert_eq!(check_keys(&fields, Entity::Table, &["a", "b", "x"]), twice("x"));
    assert_eq!(
        check_keys(&fields, Entity::Table, &["a", "b"]),
        Err(failure(ErrorKind::UnknownField, Entity::Table, "x"))
    );
    assert_eq!(check_keys(&object(r#"{"a": 1, "b": 2}"#), Entity::Table, &["a", "b", "x"]), Ok(()));

    let value = Json::Object(fields);
    assert_eq!(lenient_fields_of(&value, Entity::Role, &["c"]).map(Vec::len), Ok(6));
    assert_eq!(
        lenient_fields_of(&value, Entity::Role, &["a"]),
        Err(failure(ErrorKind::DuplicateField, Entity::Role, "a"))
    );
    assert_eq!(
        lenient_fields_of(&Json::Null, Entity::Role, &["a"]),
        Err(failure(ErrorKind::TypeMismatch, Entity::Role, ""))
    );
    assert_eq!(
        strict_fields_of(&value, Entity::Role, &["a", "b", "x"]),
        Err(failure(ErrorKind::DuplicateField, Entity::Role, "x"))
    );
}

#[test]
fn only_an_object_has_fields() {
    let value = parse(r#"{"a": 1}"#);
    assert_eq!(fields_of(&value, Entity::Role), Ok(&vec![("a".to_string(), Json::Integer(1))]));
    assert_eq!(strict_fields_of(&value, Entity::Role, &["a"]).map(Vec::len), Ok(1));
    assert_eq!(
        strict_fields_of(&value, Entity::Role, &["b"]),
        Err(failure(ErrorKind::UnknownField, Entity::Role, "a"))
    );
    for text in ["null", "1", "\"a\"", "[]"] {
        let value = parse(text);
        assert_eq!(fields_of(&value, Entity::Role), Err(failure(ErrorKind::TypeMismatch, Entity::Role, "")));
        assert_eq!(
            strict_fields_of(&value, Entity::Role, &["a"]),
            Err(failure(ErrorKind::TypeMismatch, Entity::Role, ""))
        );
    }
}

#[test]
fn fields_are_read_by_their_kind() {
    let fields = object(
        r#"{"t": "text", "f": true, "n": 7, "z": null, "big": 4294967296, "neg": -1,
            "e": ["a", "b"], "l": [{"name": "n", "value": "v"}], "c": "bothDirections"}"#,
    );
    let e = Entity::Table;
    let missing = |key: &str| failure(ErrorKind::MissingField, e, key);
    let mismatch = |key: &str| failure(ErrorKind::TypeMismatch, e, key);

    assert_eq!(read_text(&fields, "t", e), Ok("text".to_string()));
    assert_eq!(read_text(&fields, "absent", e), Err(missing("absent")));
    assert_eq!(read_text(&fields, "z", e), Err(mismatch("z")));
    assert_eq!(read_text(&fields, "n", e), Err(mismatch("n")));

    assert_eq!(read_opt_text(&fields, "t", e), Ok(Some("text".to_string())));
    assert_eq!(read_opt_text(&fields, "absent", e), Ok(None));
    assert_eq!(read_opt_text(&fields, "z", e), Ok(None));
    assert_eq!(read_opt_text(&fields, "f", e), Err(mismatch("f")));

    assert_eq!(read_flag(&fields, "f", e), Ok(true));
    assert_eq!(read_flag(&fields, "absent", e), Err(missing("absent")));
    assert_eq!(read_flag(&fields, "z", e), Err(mismatch("z")));

    assert_eq!(read_flag_or(&fields, "f", e, false), Ok(true));
    assert_eq!(read_flag_or(&fields, "absent", e, false), Ok(false));
    assert_eq!(read_flag_or(&fields, "absent", e, true), Ok(true));
    assert_eq!(read_flag_or(&fields, "z", e, true), Err(mismatch("z")));

    assert_eq!(read_opt_flag(&fields, "f", e), Ok(Some(true)));
    assert_eq!(read_opt_flag(&fields, "absent", e), Ok(None));
    assert_eq!(read_opt_flag(&fields, "z", e), Ok(None));
    assert_eq!(read_opt_flag(&fields, "t", e), Err(mismatch("t")));

    assert_eq!(read_count(&fields, "n", e), Ok(7));
    assert_eq!(read_count(&fields, "big", e), Err(mismatch("big")));
    assert_eq!(read_count(&fields, "neg", e), Err(mismatch("neg")));
    assert_eq!(read_count(&fields, "z", e), Err(mismatch("z")));
    assert_eq!(read_count(&fields, "absent", e), Err(missing("absent")));

    assert_eq!(read_opt_number(&fields, "n", e), Ok(Some(7)));
    assert_eq!(read_opt_number(&fields, "neg", e), Ok(Some(-1)));
    assert_eq!(read_opt_number(&fields, "z", e), Ok(None));
    assert_eq!(read_opt_number(&fields, "absent", e), Ok(None));
    assert_eq!(read_opt_number(&fields, "big", e), Err(mismatch("big")));

    let lines = Expression::Vec(vec!["a".to_string(), "b".to_string()]);
    assert_eq!(read_item::<Expression>(&fields, "e", e), Ok(lines.clone()));
    assert_eq!(read_item::<Expression>(&fields, "absent", e), Err(missing("absent")));
    assert_eq!(
        read_item::<Expression>(&fields, "z", e),
        Err(failure(ErrorKind::VariantMismatch, Entity::Expression, ""))
    );
    assert_eq!(read_opt_item::<Expression>(&fields, "e"), Ok(Some(lines)));
    assert_eq!(read_opt_item::<Expression>(&fields, "z"), Ok(None));
    assert_eq!(read_opt_item::<Expression>(&fields, "absent"), Ok(None));
    assert_eq!(
        read_opt_item::<Expression>(&fields, "n"),
        Err(failure(ErrorKind::VariantMismatch, Entity::Expression, ""))
    );

    let single = CrossFilterBehaviour::Single;
    assert_eq!(read_item_or(&fields, "c", single), Ok(CrossFilterBehaviour::Both));
    assert_eq!(read_item_or(&fields, "absent", single), Ok(CrossFilterBehaviour::Single));
    assert_eq!(
        read_item_or(&fields, "z", single),
        Err(failure(ErrorKind::TypeMismatch, Entity::CrossFilterBehaviour, ""))
    );

    let notes =
        vec![Annotation { name: "n".to_string(), value: Expression::String("v".to_string()) }];
    assert_eq!(read_list::<Annotation>(&fields, "l", e), Ok(notes.clone()));
    assert_eq!(read_list::<Annotation>(&fields, "absent", e), Err(missing("absent")));
    assert_eq!(read_list::<Annotation>(&fields, "z", e), Err(mismatch("z")));
    assert_eq!(
        read_list::<Annotation>(&fields, "e", e),
        Err(failure(ErrorKind::TypeMismatch, Entity::Annotation, ""))
    );
    assert_eq!(read_opt_list::<Annotation>(&fields, "l", e), Ok(Some(notes)));
    assert_eq!(read_opt_list::<Annotation>(&fields, "absent", e), Ok(None));
    assert_eq!(read_opt_list::<Annotation>(&fields, "z", e), Ok(None));
    assert_eq!(read_opt_list::<Annotation>(&fields, "t", e), Err(mismatch("t")));
}

#[test]
fn the_first_item_that_cannot_be_read_fails_the_list() {
    let items = vec![parse("\"a\""), parse("[\"b\"]"), parse("1"), parse("{}")];
    assert_eq!(
        read_items::<Expression>(&items),
        Err(failure(ErrorKind::VariantMismatch, Entity::Expression, ""))
    );
    assert_eq!(
        read_items::<Expression>(&items[..2].iter().map(|j| parse(&j.render().unwrap())).collect()),
        Ok(vec![Expression::String("a".to_string()), Expression::Vec(vec!["b".to_string()])])
    );
    assert_eq!(read_items::<Expression>(&vec![]), Ok(vec![]));
    let items = vec![parse(r#"{"name": "n"}"#), parse(r#"{"value": "v"}"#)];
    assert_eq!(
        read_items::<Annotation>(&items),
        Err(failure(ErrorKind::MissingField, Entity::Annotation, "value"))
    );
}

#[test]
fn values_are_written_by_their_kind() {
    assert_eq!(write_opt_text(&Some("t".to_string())), Some(Json::text("t")));
    assert_eq!(write_opt_text(&None), None);
    assert_eq!(write_text_or_null(&Some("t".to_string())), Json::text("t"));
    assert_eq!(write_text_or_null(&None), Json::Null);
    assert_eq!(write_flag_unless(true, true), None);
    assert_eq!(write_flag_unless(false, false), None);
    assert_eq!(write_flag_unless(true, false), Some(Json::Boolean(true)));
    assert_eq!(write_flag_unless(false, true), Some(Json::Boolean(false)));
    assert_eq!(write_opt_flag(Some(false)), Some(Json::Boolean(false)));
    assert_eq!(write_opt_flag(None), None);
    assert_eq!(write_count(0), Json::Integer(0));
    assert_eq!(write_count(u32::MAX), Json::Integer(4294967295));
    assert_eq!(write_opt_number(Some(i32::MIN)), Some(Json::Integer(-2147483648)));
    assert_eq!(write_opt_number(None), None);
    let text = Expression::String("e".to_string());
    assert_eq!(write_opt_item(&Some(text.clone())), Some(Json::text("e")));
    assert_eq!(write_opt_item::<Expression>(&None), None);
    assert_eq!(write_unless(false, &text), Some(Json::text("e")));
    assert_eq!(write_unless(true, &text), None);
    let list = vec![text.clone(), Expression::Vec(vec![])];
    let written = Json::array(vec![Json::text("e"), Json::array(vec![])]);
    assert_eq!(write_list(&list), written);
    assert_eq!(write_list::<Expression>(&vec![]), Json::array(vec![]));
    assert_eq!(write_opt_list(&Some(list)), Some(parse("[\"e\", []]")));
    assert_eq!(write_opt_list::<Expression>(&None), None);
}

#[test]
fn a_writer_keeps_the_entries_that_are_present_in_the_order_put() {
    assert_eq!(ObjectWriter::new().finish(), Json::Object(vec![]));
    let written = ObjectWriter::new()
        .put("b", Json::Integer(1))
        .put_opt("skipped", None)
        .put_opt("a", Some(Json::Null))
        .put("b", Json::Integer(2))
        .finish();
    assert_eq!(
        written,
        Json::Object(vec![
            ("b".to_string(), Json::Integer(1)),
            ("a".to_string(), Json::Null),
            ("b".to_string(), Json::Integer(2)),
        ])
    );
}

#[test]
fn a_failure_is_built_from_its_parts() {
    let error = ParseError::new(ErrorKind::MissingField, Entity::Kpi, "statusGraphic");
    assert_eq!(error, failure(ErrorKind::MissingField, Entity::Kpi, "statusGraphic"));
    assert_eq!(error.detail, "");
}

#[test]
fn an_annotation_is_written_with_its_name_first() {
    let note = Annotation { name: "n".to_string(), value: Expression::Vec(vec!["v".to_string()]) };
    assert_eq!(
        note.to_json(),
        Json::Object(vec![
            ("name".to_string(), Json::text("n")),
            ("value".to_string(), Json::array(vec![Json::text("v")])),
        ])
    );
}

fn nested(levels: usize) -> Json {
    let mut value = Json::Null;
    for _ in 1..levels {
        value = Json::Array(vec![value]);
    }
    value
}

#[test]
fn values_are_read_and_written_up_to_a_fixed_nesting() {
    let text = |arrays: usize| format!("{}{}", "[".repeat(arrays), "]".repeat(arrays));
    let deepest = Json::parse(&text(127)).expect("the text is read");
    assert!(deepest.nests_within(127));
    assert!(!deepest.nests_within(126));
    assert!(deepest.render().is_some());
    let error = Json::parse(&text(128)).expect_err("the text nests too deep");
    assert_eq!(error.kind, ErrorKind::Malformed);
    assert!(error.detail.contains("recursion limit"), "{}", error.detail);

    let objects = format!("{}1{}", "{\"a\":".repeat(127), "}".repeat(127));
    let deepest = Json::parse(&objects).expect("the text is read");
    assert!(deepest.nests_within(128));
    assert!(!deepest.nests_within(127));
    assert_eq!(Json::parse(&deepest.render().expect("written")), Ok(deepest));
    let objects = format!("{}1{}", "{\"a\":".repeat(128), "}".repeat(128));
    assert!(Json::parse(&objects).is_err());

    assert!(nested(128).render().is_some());
    assert_eq!(nested(129).render(), None);
}

#[test]
fn the_levels_of_nesting_are_counted_from_one() {
    assert!(!Json::Null.nests_within(0));
    assert!(Json::Null.nests_within(1));
    assert!(Json::text("t").nests_within(1));
    assert!(!Json::array(vec![]).nests_within(0));
    assert!(Json::array(vec![]).nests_within(1));
    assert!(Json::object(vec![]).nests_within(1));
    assert!(!Json::array(vec![Json::Null]).nests_within(1));
    assert!(Json::array(vec![Json::Null]).nests_within(2));
    let mixed = Json::array(vec![
        Json::Null,
        Json::object(vec![("a".to_string(), Json::array(vec![Json::Integer(1)]))]),
        Json::array(vec![]),
    ]);
    assert!(!mixed.nests_within(3));
    assert!(mixed.nests_within(4));
    assert!(mixed.nests_within(usize::MAX));
    for levels in 1..6 {
        assert!(nested(levels).nests_within(levels));
        assert!(!nested(levels).nests_within(levels - 1));
    }
}

#[test]
fn an_object_that_holds_a_key_twice_cannot_be_written() {
    let twice = Json::object(vec![
        ("a".to_string(), Json::Integer(1)),
        ("b".to_string(), Json::Integer(2)),
        ("a".to_string(), Json::Integer(3)),
    ]);
    assert_eq!(twice.render(), None);
    assert_eq!(Json::array(vec![Json::Null, twice]).render(), None);
    let once = Json::object(vec![
        ("a".to_string(), Json::Integer(1)),
        ("A".to_string(), Json::Integer(2)),
        ("".to_string(), Json::Integer(3)),
    ]);
    assert_eq!(once.render().as_deref(), Some("{\n  \"a\": 1,\n  \"A\": 2,\n  \"\": 3\n}"));
}

#[test]
fn a_decimal_is_written_as_the_writer_reads_it() {
    assert_eq!(Json::Decimal("1.50".to_string()).render().as_deref(), Some("1.5"));
    assert_eq!(Json::Decimal("7".to_string()).render().as_deref(), Some("7"));
    assert_eq!(Json::Decimal("-0".to_string()).render().as_deref(), Some("-0.0"));
    assert_eq!(Json::Decimal("1e2".to_string()).render().as_deref(), Some("100.0"));
    assert_eq!(
        Json::Decimal("18446744073709551615".to_string()).render().as_deref(),
        Some("18446744073709551615")
    );
}
