use bim_sort::codec::Wire;
use bim_sort::error::{Entity, ErrorKind, ParseError};
use bim_sort::json::Json;
use bim_sort::models::annotations::Annotation;
use bim_sort::models::datasource::{
    Address, ConnectionDetails, CredentialType, DataSource, DataSourceOption, PrivacySetting,
};
use bim_sort::models::expression::ModelExpression;
use bim_sort::models::relationship::{CrossFilterBehaviour, Relationship};
use bim_sort::models::roles::{Member, Role};
use bim_sort::models::table::calculation_group::{
    CalculationGroup, CalculationItem, FormatStringDefinition,
};
use bim_sort::models::table::column::{CalculatedTableColumn, DataCategory};
use bim_sort::models::table::measure::Kpi;
use bim_sort::models::table::{Column, Measure, Partition, Source, Table};
use bim_sort::models::{Expression, RecursiveSort};

fn read<T: Wire>(text: &str) -> Result<T, ParseError> {
    T::from_json(&Json::parse(text).expect("the text is JSON"))
}

fn written<T: Wire>(item: &T) -> String {
    item.to_json().render().expect("the value can be written")
}

fn refused<T: Wire + std::fmt::Debug>(text: &str, kind: ErrorKind, entity: Entity, field: &str) {
    let error = read::<T>(text).expect_err("the value is refused");
    assert_eq!((error.kind, error.entity, error.field.as_str()), (kind, entity, field));
    assert_eq!(error.detail, "");
}

/// The text with one more entry, `"surplus": 1`, at the front of its outermost object.
fn with_surplus(text: &str) -> String {
    let at = text.find('{').expect("the text holds an object");
    let rest = &text[at + 1..];
    let comma = if rest.trim_start().starts_with('}') { "" } else { ", " };
    format!("{}\"surplus\": 1{}{}", &text[..=at], comma, rest)
}

fn strict<T: Wire + std::fmt::Debug>(text: &str, entity: Entity) {
    read::<T>(text).expect("the value without the surplus field is read");
    refused::<T>(&with_surplus(text), ErrorKind::UnknownField, entity, "surplus");
}

fn lenient<T: Wire + std::fmt::Debug + PartialEq>(text: &str) {
    let plain = read::<T>(text).expect("the value is read");
    let noisy = read::<T>(&with_surplus(text)).expect("the surplus field is ignored");
    assert_eq!(plain, noisy);
}

const SOURCED: &str = r#"{"name": "n", "dataType": "string", "sourceColumn": "s"}"#;
const CALCULATED: &str =
    r#"{"name": "n", "dataType": "string", "type": "calculated", "expression": "1", "displayFolder": null}"#;
const TABLE_COLUMN: &str =
    r#"{"name": "n", "dataType": "string", "type": "calculatedTableColumn", "sourceColumn": "s"}"#;
const KEY: &str = r#"{"AuthenticationKind": "Key", "kind": "k", "path": "p"}"#;
const PASSWORD: &str = r#"{"AuthenticationKind": "UsernamePassword", "kind": "k", "path": "p", "Username": "u", "EncryptConnection": false}"#;
const TDS: &str = r#"{"protocol": "tds", "address": {"server": "s", "database": "d"}, "authentication": null, "query": null}"#;
const DOCUMENT_DB: &str = r#"{"protocol": "document-db", "address": {"url": "u"}}"#;

#[test]
fn strict_records_refuse_a_field_that_they_do_not_declare() {
    strict::<Annotation>(r#"{"name": "n", "value": "v"}"#, Entity::Annotation);
    strict::<ModelExpression>(r#"{"name": "n", "kind": "m", "expression": "e"}"#, Entity::ModelExpression);
    strict::<Relationship>(
        r#"{"name": "n", "fromTable": "a", "fromColumn": "b", "toTable": "c", "toColumn": "d"}"#,
        Entity::Relationship,
    );
    strict::<DataSourceOption>(r#"{}"#, Entity::DataSourceOption);
    strict::<Table>(r#"{"name": "n", "columns": [], "partitions": []}"#, Entity::Table);
    strict::<Partition>(r#"{"name": "n", "source": {"type": "m"}}"#, Entity::Partition);
    strict::<Source>(r#"{"type": "m"}"#, Entity::Source);
    strict::<Measure>(r#"{"name": "n", "expression": "e"}"#, Entity::Measure);
    strict::<Kpi>(
        r#"{"targetExpression": "8", "targetFormatString": "0", "statusGraphic": "g", "statusExpression": "e"}"#,
        Entity::Kpi,
    );
    strict::<CalculationGroup>(r#"{"calculationItems": []}"#, Entity::CalculationGroup);
    strict::<CalculationItem>(r#"{"name": "n"}"#, Entity::CalculationItem);
    strict::<CredentialType>(KEY, Entity::Credential);
    strict::<CredentialType>(PASSWORD, Entity::Credential);
    strict::<ConnectionDetails>(TDS, Entity::ConnectionDetails);
    strict::<ConnectionDetails>(DOCUMENT_DB, Entity::ConnectionDetails);
    strict::<CalculatedTableColumn>(TABLE_COLUMN, Entity::Column);
}

#[test]
fn a_strict_record_names_the_first_field_that_it_does_not_declare() {
    refused::<Annotation>(
        r#"{"name": "n", "second": 2, "value": "v", "first": 1}"#,
        ErrorKind::UnknownField,
        Entity::Annotation,
        "second",
    );
}

#[test]
fn values_without_a_named_variant_refuse_a_field_of_no_shape() {
    for text in [SOURCED, CALCULATED, TABLE_COLUMN] {
        read::<Column>(text).expect("the column is read");
        refused::<Column>(&with_surplus(text), ErrorKind::VariantMismatch, Entity::Column, "");
    }
    for text in [r#"{"url": "u"}"#, r#"{"server": "s", "database": "d"}"#] {
        read::<Address>(text).expect("the address is read");
        refused::<Address>(&with_surplus(text), ErrorKind::VariantMismatch, Entity::Address, "");
    }
}

#[test]
fn lenient_records_ignore_a_field_that_they_do_not_declare() {
    lenient::<Role>(r#"{"name": "n", "modelPermission": "read", "members": []}"#);
    lenient::<Member>(r#"{"memberName": "n", "memberId": "i", "identityProvider": "p"}"#);
    lenient::<FormatStringDefinition>(r#"{"expression": "e"}"#);
}

#[test]
fn the_protocol_selects_the_variant_and_is_written_again() {
    let postgres = TDS.replace("tds", "postgresql");
    let details = read::<ConnectionDetails>(&postgres).expect("the details are read");
    assert!(matches!(details, ConnectionDetails::PostgresSql(_)));
    assert!(written(&details).contains("\"protocol\": \"postgresql\""));

    let mysql = read::<ConnectionDetails>(&TDS.replace("tds", "mysql")).expect("read");
    assert!(matches!(mysql, ConnectionDetails::MySql(_)));
    assert!(written(&mysql).contains("\"protocol\": \"mysql\""));

    let tds = read::<ConnectionDetails>(TDS).expect("read");
    assert!(matches!(tds, ConnectionDetails::Tds(_)));
    assert!(written(&tds).starts_with("{\n  \"protocol\": \"tds\",\n  \"address\""));

    let documents = read::<ConnectionDetails>(DOCUMENT_DB).expect("read");
    assert!(matches!(documents, ConnectionDetails::DocumentDb { address: Address::DocumentDb { .. } }));
    assert_eq!(
        written(&documents),
        "{\n  \"protocol\": \"document-db\",\n  \"address\": {\n    \"url\": \"u\"\n  }\n}"
    );
}

#[test]
fn an_unknown_or_absent_protocol_is_refused() {
    refused::<ConnectionDetails>(
        &TDS.replace("tds", "oracle"),
        ErrorKind::VariantMismatch,
        Entity::ConnectionDetails,
        "oracle",
    );
    refused::<ConnectionDetails>(
        r#"{"address": {"url": "u"}}"#,
        ErrorKind::MissingField,
        Entity::ConnectionDetails,
        "protocol",
    );
    refused::<ConnectionDetails>(
        r#"{"protocol": 3, "address": {"url": "u"}}"#,
        ErrorKind::TypeMismatch,
        Entity::ConnectionDetails,
        "protocol",
    );
    refused::<ConnectionDetails>(
        r#"{"protocol": "document-db", "address": {"url": "u"}, "query": null}"#,
        ErrorKind::UnknownField,
        Entity::ConnectionDetails,
        "query",
    );
    refused::<ConnectionDetails>("[]", ErrorKind::TypeMismatch, Entity::ConnectionDetails, "");
}

#[test]
fn the_kind_of_authentication_selects_the_credential() {
    let key = read::<CredentialType>(KEY).expect("read");
    assert!(matches!(key, CredentialType::Key { .. }));
    assert_eq!(written(&key), "{\n  \"AuthenticationKind\": \"Key\",\n  \"kind\": \"k\",\n  \"path\": \"p\"\n}");
    let password = read::<CredentialType>(
        &PASSWORD.replace("\"path\": \"p\",", "\"path\": \"p\", \"PrivacySetting\": \"None\","),
    )
    .expect("read");
    match &password {
        CredentialType::UsernamePassword { common, username, encrypt_connection } => {
            assert_eq!(common.privacy_setting, Some(PrivacySetting::Unspecified));
            assert_eq!(username, "u");
            assert!(!encrypt_connection);
        }
        other => panic!("not a password credential: {other:?}"),
    }
    assert_eq!(
        written(&password),
        "{\n  \"AuthenticationKind\": \"UsernamePassword\",\n  \"kind\": \"k\",\n  \"path\": \"p\",\n  \"PrivacySetting\": \"None\",\n  \"Username\": \"u\",\n  \"EncryptConnection\": false\n}"
    );
    refused::<CredentialType>(
        &KEY.replace("Key", "Token"),
        ErrorKind::VariantMismatch,
        Entity::Credential,
        "Token",
    );
    refused::<CredentialType>(
        &KEY.replace("\"kind\": \"k\"", "\"Username\": \"u\", \"kind\": \"k\""),
        ErrorKind::UnknownField,
        Entity::Credential,
        "Username",
    );
    refused::<CredentialType>(
        &PASSWORD.replace(", \"EncryptConnection\": false", ""),
        ErrorKind::MissingField,
        Entity::Credential,
        "EncryptConnection",
    );
    refused::<CredentialType>(
        &KEY.replace("\"path\": \"p\"", "\"path\": \"p\", \"PrivacySetting\": \"Secret\""),
        ErrorKind::VariantMismatch,
        Entity::PrivacySetting,
        "Secret",
    );
}

#[test]
fn every_privacy_setting_is_read_and_written_under_its_name() {
    let settings = [
        ("None", PrivacySetting::Unspecified),
        ("Public", PrivacySetting::Public),
        ("Organizational", PrivacySetting::Organizational),
        ("Private", PrivacySetting::Private),
    ];
    for (name, setting) in settings {
        let text = format!("\"{name}\"");
        assert_eq!(read::<PrivacySetting>(&text).expect("read"), setting);
        assert_eq!(written(&setting), text);
    }
    refused::<PrivacySetting>("\"none\"", ErrorKind::VariantMismatch, Entity::PrivacySetting, "none");
    refused::<PrivacySetting>("1", ErrorKind::TypeMismatch, Entity::PrivacySetting, "");
}

#[test]
fn the_shape_of_a_column_selects_its_variant() {
    assert!(matches!(read::<Column>(SOURCED).expect("read"), Column::Sourced(_)));
    assert!(matches!(read::<Column>(CALCULATED).expect("read"), Column::Calculated(_)));
    assert!(matches!(
        read::<Column>(TABLE_COLUMN).expect("read"),
        Column::CalculatedTableColumn(_)
    ));
    refused::<Column>(
        r#"{"name": "n", "dataType": "string"}"#,
        ErrorKind::VariantMismatch,
        Entity::Column,
        "",
    );
    refused::<Column>("\"n\"", ErrorKind::VariantMismatch, Entity::Column, "");
}

#[test]
fn a_calculated_column_without_a_display_folder_is_written_without_one() {
    let text = r#"{"name": "n", "dataType": "string", "type": "calculated", "expression": "1"}"#;
    let column = read::<Column>(text).expect("read");
    let plain = "{\n  \"name\": \"n\",\n  \"dataType\": \"string\",\n  \"type\": \"calculated\",\n  \"expression\": \"1\"\n}";
    assert_eq!(written(&column), plain);
    let null = read::<Column>(CALCULATED).expect("read");
    assert_eq!(null, column);
    assert_eq!(written(&null), plain);
    let with = read::<Column>(&CALCULATED.replace("null", "\"folder\"")).expect("read");
    assert!(written(&with).ends_with("\"expression\": \"1\",\n  \"displayFolder\": \"folder\"\n}"));
}

#[test]
fn the_category_of_a_column_is_left_out_when_it_has_none() {
    let plain = read::<Column>(SOURCED).expect("read");
    let explicit = read::<Column>(
        &SOURCED.replace("\"dataType\"", "\"dataCategory\": \"Uncategorized\", \"dataType\""),
    )
    .expect("read");
    assert_eq!(plain, explicit);
    assert!(!written(&explicit).contains("dataCategory"));
    let city =
        read::<Column>(&SOURCED.replace("\"dataType\"", "\"dataCategory\": \"City\", \"dataType\""))
            .expect("read");
    match &city {
        Column::Sourced(c) => assert_eq!(c.common.data_category, DataCategory::City),
        other => panic!("not a sourced column: {other:?}"),
    }
    assert_eq!(
        written(&city),
        "{\n  \"name\": \"n\",\n  \"dataType\": \"string\",\n  \"dataCategory\": \"City\",\n  \"sourceColumn\": \"s\"\n}"
    );
    refused::<Column>(
        &SOURCED.replace("\"dataType\"", "\"dataCategory\": \"Village\", \"dataType\""),
        ErrorKind::VariantMismatch,
        Entity::Column,
        "",
    );
}

#[test]
fn the_shape_of_an_address_selects_its_variant() {
    let documents = read::<Address>(r#"{"url": "u", "database": "d"}"#).expect("read");
    assert_eq!(
        documents,
        Address::DocumentDb { url: "u".into(), database: Some("d".into()), collection: None }
    );
    let sql = read::<Address>(r#"{"database": "d", "server": "s"}"#).expect("read");
    assert_eq!(sql, Address::SqlDatabase { server: "s".into(), database: "d".into() });
    assert_eq!(written(&sql), "{\n  \"server\": \"s\",\n  \"database\": \"d\"\n}");
    refused::<Address>(
        r#"{"url": "u", "server": "s", "database": "d"}"#,
        ErrorKind::VariantMismatch,
        Entity::Address,
        "",
    );
}

#[test]
fn an_expression_is_a_string_or_a_list_of_strings() {
    assert_eq!(read::<Expression>("\"a\"").expect("read").to_string(), "a");
    assert_eq!(read::<Expression>("[]").expect("read").to_string(), "");
    assert_eq!(read::<Expression>("[\"a\", \"\", \"b\"]").expect("read").to_string(), "a\n\nb");
    assert_eq!(written(&Expression::Vec(vec!["a".into(), "b".into()])), "[\n  \"a\",\n  \"b\"\n]");
    assert_eq!(written(&Expression::String("a\nb".into())), "\"a\\nb\"");
    refused::<Expression>("[\"a\", 1]", ErrorKind::VariantMismatch, Entity::Expression, "");
    refused::<Expression>("null", ErrorKind::VariantMismatch, Entity::Expression, "");
    refused::<Expression>("{}", ErrorKind::VariantMismatch, Entity::Expression, "");
}

#[test]
fn expressions_are_equal_when_they_render_to_the_same_text() {
    let text = Expression::String("a\nb".to_string());
    let lines = Expression::Vec(vec!["a".to_string(), "b".to_string()]);
    assert_eq!(text.to_string(), "a\nb");
    assert_eq!(lines.to_string(), "a\nb");
    assert_eq!(text, lines);
    assert_eq!(lines, text);
    assert_ne!(lines, Expression::Vec(vec!["a".to_string(), "b".to_string(), String::new()]));
    assert_ne!(text, Expression::String("a b".to_string()));
    assert_eq!(Expression::Vec(vec![]), Expression::String(String::new()));
    assert_eq!(Expression::Vec(vec![String::new()]), Expression::Vec(vec![]));
}

#[test]
fn a_relationship_is_active_unless_it_says_otherwise() {
    let text = "{\n  \"name\": \"n\",\n  \"fromTable\": \"a\",\n  \"fromColumn\": \"b\",\n  \"toTable\": \"c\",\n  \"toColumn\": \"d\"\n}";
    let relationship = read::<Relationship>(text).expect("read");
    assert!(relationship.is_active);
    assert_eq!(relationship.cross_filter_behaviour, CrossFilterBehaviour::Single);
    assert_eq!(written(&relationship), text);

    let explicit = text.replace("\"toColumn\": \"d\"", "\"toColumn\": \"d\", \"isActive\": true");
    let same = read::<Relationship>(&explicit).expect("read");
    assert_eq!(same, relationship);
    assert_eq!(written(&same), text);

    let inactive = text.replace(
        "\"toColumn\": \"d\"",
        "\"toColumn\": \"d\",\n  \"isActive\": false,\n  \"crossFilterBehaviour\": \"bothDirections\"",
    );
    let other = read::<Relationship>(&inactive).expect("read");
    assert!(!other.is_active);
    assert_eq!(other.cross_filter_behaviour, CrossFilterBehaviour::Both);
    assert_eq!(written(&other), inactive);

    refused::<Relationship>(
        &text.replace("\"toColumn\": \"d\"", "\"toColumn\": \"d\", \"isActive\": null"),
        ErrorKind::TypeMismatch,
        Entity::Relationship,
        "isActive",
    );
    refused::<Relationship>(
        &text.replace("\"toColumn\": \"d\"", "\"toColumn\": \"d\", \"crossFilterBehaviour\": \"Both\""),
        ErrorKind::VariantMismatch,
        Entity::CrossFilterBehaviour,
        "Both",
    );
}

#[test]
fn items_with_an_ordinal_come_before_items_without() {
    let item = |name: &str, ordinal: Option<i32>| CalculationItem {
        name: name.to_string(),
        expression: None,
        ordinal,
        format_string_definition: None,
    };
    let mut group = CalculationGroup { calculation_items: vec![item("B", None), item("A", Some(0))] };
    group.recursive_sort();
    assert_eq!(group.calculation_items, [item("A", Some(0)), item("B", None)]);

    let mut group = CalculationGroup {
        calculation_items: vec![
            item("b", None),
            item("a", Some(i32::MAX)),
            item("B", None),
            item("z", Some(-1)),
            item("a", Some(2)),
            item("Z", Some(2)),
            item("y", Some(i32::MIN)),
        ],
    };
    group.recursive_sort();
    assert_eq!(
        group.calculation_items,
        [
            item("y", Some(i32::MIN)),
            item("z", Some(-1)),
            item("Z", Some(2)),
            item("a", Some(2)),
            item("a", Some(i32::MAX)),
            item("B", None),
            item("b", None),
        ]
    );
}

#[test]
fn the_ordinal_of_an_item_is_a_number_in_the_range_of_i32() {
    let item = |ordinal: &str| format!("{{\"name\": \"n\", \"ordinal\": {ordinal}}}");
    assert_eq!(read::<CalculationItem>(&item("-2147483648")).expect("read").ordinal, Some(i32::MIN));
    assert_eq!(read::<CalculationItem>(&item("2147483647")).expect("read").ordinal, Some(i32::MAX));
    assert_eq!(read::<CalculationItem>(&item("null")).expect("read").ordinal, None);
    for ordinal in ["2147483648", "-2147483649", "0.5", "\"1\"", "9223372036854775808"] {
        refused::<CalculationItem>(
            &item(ordinal),
            ErrorKind::TypeMismatch,
            Entity::CalculationItem,
            "ordinal",
        );
    }
}

#[test]
fn an_absent_field_and_null_both_read_as_nothing() {
    let none = read::<Measure>(r#"{"name": "n", "expression": "e"}"#).expect("read");
    let null = read::<Measure>(
        r#"{"name": "n", "description": null, "expression": "e", "formatString": null, "displayFolder": null, "annotations": null, "kpi": null}"#,
    )
    .expect("read");
    assert_eq!(none, null);
    assert_eq!(written(&null), "{\n  \"name\": \"n\",\n  \"expression\": \"e\"\n}");
}

#[test]
fn a_value_of_the_wrong_type_is_refused_with_its_field() {
    refused::<Measure>(r#"{"name": 1, "expression": "e"}"#, ErrorKind::TypeMismatch, Entity::Measure, "name");
    refused::<Measure>(r#"{"name": null, "expression": "e"}"#, ErrorKind::TypeMismatch, Entity::Measure, "name");
    refused::<Measure>(
        r#"{"name": "n", "expression": "e", "description": []}"#,
        ErrorKind::TypeMismatch,
        Entity::Measure,
        "description",
    );
    refused::<Measure>(
        r#"{"name": "n", "expression": "e", "annotations": {}}"#,
        ErrorKind::TypeMismatch,
        Entity::Measure,
        "annotations",
    );
    refused::<Measure>(
        r#"{"name": "n", "expression": "e", "annotations": [{"name": "a", "value": "v"}, 7]}"#,
        ErrorKind::TypeMismatch,
        Entity::Annotation,
        "",
    );
    refused::<Table>(
        r#"{"name": "n", "columns": null, "partitions": []}"#,
        ErrorKind::TypeMismatch,
        Entity::Table,
        "columns",
    );
    refused::<Table>(
        r#"{"name": "n", "isHidden": "no", "columns": [], "partitions": []}"#,
        ErrorKind::TypeMismatch,
        Entity::Table,
        "isHidden",
    );
    refused::<DataSourceOption>(
        r#"{"returnSingleDatabase": 1}"#,
        ErrorKind::TypeMismatch,
        Entity::DataSourceOption,
        "returnSingleDatabase",
    );
    refused::<Measure>("7", ErrorKind::TypeMismatch, Entity::Measure, "");
}

#[test]
fn the_first_field_at_fault_in_declared_order_is_reported() {
    refused::<Measure>(r#"{"kpi": 1, "description": 2}"#, ErrorKind::MissingField, Entity::Measure, "name");
    refused::<Measure>(
        r#"{"kpi": 1, "name": "n", "description": 2}"#,
        ErrorKind::TypeMismatch,
        Entity::Measure,
        "description",
    );
    refused::<Measure>(
        r#"{"kpi": 1, "name": "n"}"#,
        ErrorKind::MissingField,
        Entity::Measure,
        "expression",
    );
}

fn entries(list: &[(&str, Json)]) -> Json {
    Json::Object(list.iter().map(|(key, value)| (key.to_string(), copy(value))).collect())
}

fn copy(value: &Json) -> Json {
    Json::parse(&value.render().expect("the value can be written")).expect("JSON")
}

fn refused_value<T: Wire + std::fmt::Debug>(json: &Json, kind: ErrorKind, entity: Entity, field: &str) {
    let error = T::from_json(json).expect_err("the value is refused");
    assert_eq!((error.kind, error.entity, error.field.as_str()), (kind, entity, field));
}

#[test]
fn a_record_refuses_a_field_that_it_holds_twice() {
    let twice = entries(&[
        ("name", Json::text("first")),
        ("value", Json::text("v")),
        ("name", Json::text("second")),
    ]);
    refused_value::<Annotation>(&twice, ErrorKind::DuplicateField, Entity::Annotation, "name");
    let once = entries(&[("name", Json::text("first")), ("value", Json::text("v"))]);
    assert_eq!(Annotation::from_json(&once).expect("read").name, "first");

    let both = entries(&[
        ("value", Json::text("v")),
        ("name", Json::text("a")),
        ("name", Json::text("b")),
        ("value", Json::text("w")),
    ]);
    refused_value::<Annotation>(&both, ErrorKind::DuplicateField, Entity::Annotation, "value");

    let unknown_first = entries(&[
        ("name", Json::text("a")),
        ("name", Json::text("b")),
        ("surplus", Json::Null),
        ("value", Json::text("v")),
    ]);
    refused_value::<Annotation>(&unknown_first, ErrorKind::UnknownField, Entity::Annotation, "surplus");

    let same_value = entries(&[
        ("name", Json::text("a")),
        ("value", Json::text("v")),
        ("value", Json::text("v")),
    ]);
    refused_value::<Annotation>(&same_value, ErrorKind::DuplicateField, Entity::Annotation, "value");
}

#[test]
fn a_lenient_record_refuses_only_its_own_fields_twice() {
    let member = |extra: &[(&str, Json)]| {
        let mut list = vec![
            ("memberName", Json::text("n")),
            ("memberId", Json::text("i")),
            ("identityProvider", Json::text("p")),
        ];
        for (key, value) in extra {
            list.push((*key, copy(value)));
        }
        entries(&list)
    };
    let plain = Member::from_json(&member(&[])).expect("read");
    let noisy = member(&[("surplus", Json::Integer(1)), ("surplus", Json::Integer(2))]);
    assert_eq!(Member::from_json(&noisy).expect("other keys may stand twice"), plain);
    refused_value::<Member>(
        &member(&[("memberId", Json::text("j"))]),
        ErrorKind::DuplicateField,
        Entity::Member,
        "memberId",
    );
    refused_value::<Member>(
        &member(&[("surplus", Json::Null), ("memberName", Json::Null)]),
        ErrorKind::DuplicateField,
        Entity::Member,
        "memberName",
    );
}

#[test]
fn values_with_several_shapes_refuse_a_field_twice() {
    let details = entries(&[
        ("protocol", Json::text("document-db")),
        ("address", entries(&[("url", Json::text("u"))])),
        ("address", entries(&[("url", Json::text("w"))])),
    ]);
    refused_value::<ConnectionDetails>(
        &details,
        ErrorKind::DuplicateField,
        Entity::ConnectionDetails,
        "address",
    );
    let credential = entries(&[
        ("AuthenticationKind", Json::text("Key")),
        ("kind", Json::text("k")),
        ("path", Json::text("p")),
        ("kind", Json::text("l")),
    ]);
    refused_value::<CredentialType>(&credential, ErrorKind::DuplicateField, Entity::Credential, "kind");
    let address = entries(&[("url", Json::text("u")), ("url", Json::text("w"))]);
    refused_value::<Address>(&address, ErrorKind::VariantMismatch, Entity::Address, "");
    let column = entries(&[
        ("name", Json::text("n")),
        ("dataType", Json::text("string")),
        ("sourceColumn", Json::text("s")),
        ("name", Json::text("m")),
    ]);
    refused_value::<Column>(&column, ErrorKind::VariantMismatch, Entity::Column, "");
}

#[test]
fn text_is_read_with_the_last_of_two_entries_of_one_key() {
    let value = Json::parse(r#"{"name": "first", "value": "v", "name": "second"}"#).expect("JSON");
    assert_eq!(
        value,
        Json::Object(vec![
            ("name".to_string(), Json::text("second")),
            ("value".to_string(), Json::text("v")),
        ])
    );
    assert_eq!(Annotation::from_json(&value).expect("read").name, "second");
}

#[test]
fn a_data_source_is_written_with_its_options_only_where_it_has_some() {
    let text = format!(
        "{{\"type\": \"structured\", \"name\": \"n\", \"connectionDetails\": {DOCUMENT_DB}, \"credential\": {KEY}}}"
    );
    let source = read::<DataSource>(&text).expect("read");
    assert_eq!(source.options, None);
    assert!(!written(&source).contains("options"));
    let with_options = text.replace("\"credential\"", "\"options\": {\"returnSingleDatabase\": false}, \"credential\"");
    let source = read::<DataSource>(&with_options).expect("read");
    assert_eq!(source.options, Some(DataSourceOption { return_single_database: Some(false) }));
    assert!(written(&source).contains("\"options\": {\n    \"returnSingleDatabase\": false\n  }"));
}
