use bim_sort::codec::Wire;
use bim_sort::json::Json;
use bim_sort::models::datasource::{
    Address, Authentication, ConnectionDetails, Credential, CredentialCommon, CredentialType,
    DataSource,
};
use bim_sort::sorting::sort;

fn value(text: &str) -> serde_json::Value {
    serde_json::from_str(text).expect("the text is JSON")
}

fn from_value<T: Wire>(text: &str) -> T {
    let json = Json::parse(text).expect("the text is JSON");
    T::from_json(&json).expect("Could not convert input.")
}

fn there_and_back_test<T: Wire>(text: &str) {
    let item: T = from_value(text);
    let output = item.to_json().render().expect("Could not convert back to value");
    assert_eq!(value(text), value(&output));
}

#[test]
fn test_correctly_deserialize_key_credential() {
    let input = r#"
        {
            "AuthenticationKind": "Key",
            "kind": "DocumentDB",
            "path": "https://google.com"
        }
    "#;

    let data: CredentialType = from_value(input);

    assert_eq!(data.kind(), "DocumentDB".to_string());
    assert_eq!(data.path(), "https://google.com".to_string());
    assert_eq!(data.authentication(), Authentication::Key);
}

#[test]
fn test_correctly_deserialize_key_username_password_credential() {
    let input = r#"
    {
        "AuthenticationKind": "UsernamePassword",
        "kind": "DocumentDB",
        "path": "https://google.com",
        "Username": "MyLogin",
        "EncryptConnection": true
    }
"#;

    let data: CredentialType = from_value(input);

    assert_eq!(data.kind(), "DocumentDB".to_string());
    assert_eq!(data.path(), "https://google.com".to_string());
    assert_eq!(data.authentication(), Authentication::UsernamePassword);
}

#[test]
fn test_can_sort_vec_of_datasources() {
    let mut datasources = vec![
        DataSource {
            type_: "structured".to_string(),
            name: "Zero Datasource".to_string(),
            connection_details: ConnectionDetails::DocumentDb {
                address: Address::DocumentDb {
                    url: "http://google.com".to_string(),
                    database: Some("TheDB".to_string()),
                    collection: Some("Default".to_string()),
                },
            },
            options: None,
            credential: CredentialType::Key {
                common: CredentialCommon {
                    kind: "DocumentDb".to_string(),
                    path: "http://google.com".to_string(),
                    privacy_setting: None,
                },
            },
        },
        DataSource {
            type_: "structured".to_string(),
            name: "A Datasource".to_string(),
            connection_details: ConnectionDetails::DocumentDb {
                address: Address::DocumentDb {
                    url: "http://google.com".to_string(),
                    database: Some("TheDB".to_string()),
                    collection: Some("Default".to_string()),
                },
            },
            options: None,
            credential: CredentialType::Key {
                common: CredentialCommon {
                    kind: "DocumentDb".to_string(),
                    path: "http://google.com".to_string(),
                    privacy_setting: None,
                },
            },
        },
    ];

    let expected = vec![
        DataSource {
            type_: "structured".to_string(),
            name: "Zero Datasource".to_string(),
            connection_details: ConnectionDetails::DocumentDb {
                address: Address::DocumentDb {
                    url: "http://google.com".to_string(),
                    database: Some("TheDB".to_string()),
                    collection: Some("Default".to_string()),
                },
            },
            options: None,
            credential: CredentialType::Key {
                common: CredentialCommon {
                    kind: "DocumentDb".to_string(),
                    path: "http://google.com".to_string(),
                    privacy_setting: None,
                },
            },
        },
        DataSource {
            type_: "structured".to_string(),
            name: "A Datasource".to_string(),
            connection_details: ConnectionDetails::DocumentDb {
                address: Address::DocumentDb {
                    url: "http://google.com".to_string(),
                    database: Some("TheDB".to_string()),
                    collection: Some("Default".to_string()),
                },
            },
            options: None,
            credential: CredentialType::Key {
                common: CredentialCommon {
                    kind: "DocumentDb".to_string(),
                    path: "http://google.com".to_string(),
                    privacy_setting: None,
                },
            },
        },
    ];

    sort(&mut datasources);
    datasources.reverse();
    assert_eq!(expected, datasources);
}

#[test]
fn readwrite_postgressql_connection_details() {
    let data = r#"
        {
            "protocol": "postgresql",
            "address": {
                "server": "localhost:5432",
                "database": "flight_db"
            },
            "authentication": null,
            "query": null
        }
    "#;

    there_and_back_test::<ConnectionDetails>(data);
}

#[test]
fn readwrite_postgressql_datasource() {
    let data = r#"
        {
            "type": "structured",
            "name": "PostgreSQL/localhost:5432;flight_db",
            "connectionDetails": {
                "protocol": "postgresql",
                "address": {
                    "server": "localhost:5432",
                    "database": "flight_db"
                },
                "authentication": null,
                "query": null
            },
            "credential": {
                "AuthenticationKind": "UsernamePassword",
                "kind": "PostgreSQL",
                "path": "localhost:5432;flight_db",
                "Username": "username",
                "EncryptConnection": false
            }
        }
    "#;

    there_and_back_test::<DataSource>(data);
}

#[test]
fn readwrite_mysql_connection_details() {
    let data = r#"
        {
            "protocol": "mysql",
            "address": {
                "server": "db.mysql.database.com",
                "database": "MySQLDB"
            },
            "authentication": null,
            "query": null
        }
    "#;

    there_and_back_test::<ConnectionDetails>(data);
}

#[test]
fn can_process_mysql_datasource() {
    let data = r#"
        {
            "type": "structured",
            "name": "DbName",
            "connectionDetails": {
                "protocol": "mysql",
                "address": {
                    "server": "db.mysql.database.com",
                    "database": "MySQLDB"
                },
                "authentication": null,
                "query": null
            },
            "options": {
                "returnSingleDatabase": true
            },
            "credential": {
                "AuthenticationKind": "UsernamePassword",
                "kind": "MySql",
                "path": "db.mysql.database.com;MySQLDB",
                "Username": "email@emails.com",
                "EncryptConnection": true,
                "PrivacySetting": "Organizational"
            }
        }
    "#;

    there_and_back_test::<DataSource>(data);
}

#[test]
#[should_panic]
fn credentials_reject_unknown_fields() {
    let input = r#"
        {
            "kind": "A Credential",
            "path": "https://google.com",
            "unknown_field": "Some data"
        }
    "#;

    from_value::<CredentialType>(input);
}

#[test]
fn allow_empty_datasource_options() {
    let datasource = r#"
        {
            "type": "structured",
            "name": "SQL/Aserver",
            "connectionDetails": {
                "protocol": "tds",
                "address": {
                    "server": "<serveraddress>",
                    "database": "A database"
                },
                "authentication": null,
                "query": null
            },
            "options": {},
            "credential": {
                "AuthenticationKind": "UsernamePassword",
                "kind": "SQL",
                "path": "<url>",
                "Username": "username",
                "EncryptConnection": true
            }
        }
    "#;

    there_and_back_test::<DataSource>(datasource);
}
