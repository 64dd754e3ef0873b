use sshpass_rs::error::SshpassError;
use sshpass_rs::onepassword::{parse_item_password, parse_item_titles, OpField, OpItem, OpItemDetail};

fn item(id: &str, title: &str, category: &str) -> OpItem {
    OpItem { id: id.to_string(), title: title.to_string(), category: category.to_string() }
}

fn field(id: &str, field_type: &str, value: Option<&str>, label: &str) -> OpField {
    OpField {
        id: id.to_string(),
        field_type: field_type.to_string(),
        value: value.map(|v| v.to_string()),
        label: Some(label.to_string()),
    }
}

fn detail(fields: Vec<OpField>) -> OpItemDetail {
    OpItemDetail {
        id: "abc123".to_string(),
        title: "user@host".to_string(),
        category: "PASSWORD".to_string(),
        fields,
    }
}

#[test]
fn test_parse_item_titles() {
    let items = vec![
        item("abc123", "user@host", "PASSWORD"),
        item("def456", "root@server", "PASSWORD"),
    ];

    let titles = parse_item_titles(Ok(items)).unwrap();
    assert_eq!(titles, vec!["user@host", "root@server"]);
}

#[test]
fn test_parse_empty_list() {
    let titles = parse_item_titles(Ok(Vec::new())).unwrap();
    assert!(titles.is_empty());
}

#[test]
fn test_parse_item_password() {
    let d = detail(vec![
        field("password", "CONCEALED", Some("s3cret"), "password"),
        field("notesPlain", "STRING", Some(""), "notes"),
    ]);

    let password = parse_item_password(Ok(d)).unwrap();
    assert_eq!(password.expose_secret(), "s3cret");
}

#[test]
fn test_parse_item_password_by_id() {
    let d = detail(vec![field("password", "STRING", Some("found_by_id"), "password")]);

    let password = parse_item_password(Ok(d)).unwrap();
    assert_eq!(password.expose_secret(), "found_by_id");
}

#[test]
fn test_parse_item_password_not_found() {
    let d = detail(vec![field("notesPlain", "STRING", Some("just notes"), "notes")]);

    let result = parse_item_password(Ok(d));
    assert!(result.is_err());
    match result.err().expect("an error") {
        SshpassError::KeychainAccess(msg) => {
            assert!(
                msg.contains("no password field found"),
                "Error should mention missing password: {msg}"
            );
            assert_eq!(msg, "no password field found in 1Password item 'user@host'");
        }
        other => panic!("Expected KeychainAccess, got: {other:?}"),
    }
}

#[test]
fn password_field_by_id_wins_over_earlier_concealed_field() {
    let d = detail(vec![
        field("secret", "CONCEALED", Some("concealed"), "secret"),
        field("password", "STRING", Some("by_id"), "password"),
    ]);

    assert_eq!(parse_item_password(Ok(d)).unwrap().expose_secret(), "by_id");
}

#[test]
fn fields_without_values_are_skipped() {
    let d = detail(vec![
        field("password", "CONCEALED", None, "password"),
        field("other", "CONCEALED", Some("fallback"), "other"),
    ]);

    assert_eq!(parse_item_password(Ok(d)).unwrap().expose_secret(), "fallback");
}

#[test]
fn parse_failures_are_passed_on() {
    let err = SshpassError::KeychainAccess("failed to parse 1Password item list: x".to_string());
    match parse_item_titles(Err(err)) {
        Err(SshpassError::KeychainAccess(m)) => assert!(m.contains("failed to parse")),
        _ => panic!("expected the parse error"),
    }
}
