use tucano_domain::defect::{new_link, parse_request};
use tucano_domain::error::DomainError;
use tucano_domain::json::{JsonNumber, JsonValue};

fn to_value(value: serde_json::Value) -> JsonValue {
    match value {
        serde_json::Value::Null => JsonValue::Null,
        serde_json::Value::Bool(b) => JsonValue::Bool(b),
        serde_json::Value::Number(n) => match (n.as_u64(), n.as_i64()) {
            (Some(u), _) => JsonValue::Number(JsonNumber::Unsigned(u)),
            (None, Some(i)) => JsonValue::Number(JsonNumber::Negative(i)),
            _ => JsonValue::Number(JsonNumber::Decimal(n.to_string())),
        },
        serde_json::Value::String(s) => JsonValue::Str(s),
        serde_json::Value::Array(items) => JsonValue::Array(items.into_iter().map(to_value).collect()),
        serde_json::Value::Object(map) => {
            JsonValue::Object(map.into_iter().map(|(k, v)| (k, to_value(v))).collect())
        }
    }
}

fn json(text: &str) -> JsonValue {
    to_value(serde_json::from_str(text).expect("test JSON"))
}

#[test]
fn a_request_needs_the_three_fields_the_client_supplies() {
    let complete = json(
        r#"{
            "defectId": "BUG-42",
            "defectUrl": "https://acme.atlassian.net/browse/BUG-42",
            "trackerType": "jira"
        }"#,
    );
    assert!(parse_request(&complete).is_ok());

    for body in [
        r#"{"defectUrl": "https://acme.atlassian.net/browse/BUG-42", "trackerType": "jira"}"#,
        r#"{"defectId": "BUG-42", "trackerType": "jira"}"#,
        r#"{"defectId": "BUG-42", "defectUrl": "https://acme.atlassian.net/browse/BUG-42"}"#,
        r#"{"defectId": "", "defectUrl": "https://acme.atlassian.net/browse/BUG-42", "trackerType": "jira"}"#,
        r#"{"defectId": "BUG-42", "defectUrl": "", "trackerType": "jira"}"#,
        r#"{"defectId": "BUG-42", "defectUrl": "https://acme.atlassian.net/browse/BUG-42", "trackerType": ""}"#,
    ] {
        let error = parse_request(&json(body)).expect_err("an incomplete request must be rejected");
        assert!(
            matches!(error, DomainError::InvalidRequest { .. }),
            "{error:?} should be a 400"
        );
    }
}

#[test]
fn a_request_carrying_fields_the_api_derives_is_rejected() {
    for body in [
        r#"{
            "defectId": "BUG-42",
            "defectUrl": "https://acme.atlassian.net/browse/BUG-42",
            "trackerType": "jira",
            "linkId": "L-1"
        }"#,
        r#"{
            "defectId": "BUG-42",
            "defectUrl": "https://acme.atlassian.net/browse/BUG-42",
            "trackerType": "jira",
            "linkedAt": "1"
        }"#,
        r#"{
            "defectId": "BUG-42",
            "defectUrl": "https://acme.atlassian.net/browse/BUG-42",
            "trackerType": "jira",
            "sneaky": true
        }"#,
    ] {
        let error = parse_request(&json(body)).expect_err("unknown fields must be rejected");
        assert!(
            matches!(error, DomainError::InvalidRequest { .. }),
            "{error:?} should be a 400"
        );
    }
}

#[test]
fn a_request_carrying_a_wrong_typed_field_is_rejected() {
    let error = parse_request(&json(
        r#"{
            "defectId": "BUG-42",
            "defectUrl": "https://acme.atlassian.net/browse/BUG-42",
            "trackerType": "jira",
            "title": 7
        }"#,
    ))
    .expect_err("a wrong-typed field must be rejected");
    assert!(
        matches!(error, DomainError::InvalidRequest { .. }),
        "{error:?}"
    );
}

#[test]
fn a_url_the_named_tracker_would_not_use_is_rejected() {
    let error = parse_request(&json(
        r#"{
            "defectId": "BUG-42",
            "defectUrl": "https://gitlab.com/acme/checkout/issues/42",
            "trackerType": "jira"
        }"#,
    ))
    .expect_err("a mismatched tracker and URL must be rejected");
    assert!(
        matches!(
            &error,
            DomainError::InvalidRequest { message, .. }
                if message == "defectUrl is not a valid jira issue URL"
        ),
        "{error:?}"
    );
}

#[test]
fn an_unknown_tracker_name_in_a_request_is_named_in_the_message() {
    let error = parse_request(&json(
        r#"{
            "defectId": "BUG-42",
            "defectUrl": "https://tracker.example/BUG-42",
            "trackerType": "bugzilla"
        }"#,
    ))
    .expect_err("an unsupported tracker must be rejected");
    assert!(
        matches!(
            &error,
            DomainError::InvalidRequest { message, .. }
                if message == "Unsupported trackerType `bugzilla`; expected one of jira, github, gitlab, custom"
        ),
        "{error:?}"
    );
}

#[test]
fn a_new_link_carries_the_clients_fields_under_an_api_derived_identity() {
    let request = parse_request(&json(
        r#"{
            "defectId": "BUG-42",
            "defectUrl": "https://github.com/acme/checkout/issues/42",
            "trackerType": "github",
            "title": "Card is declined twice",
            "status": "Open"
        }"#,
    ))
    .expect("a complete request is accepted");

    let link = new_link(request, "link-7".to_owned(), "1234".to_owned());
    assert_eq!(link.link_id, "link-7");
    assert_eq!(link.defect_id, "BUG-42");
    assert_eq!(link.defect_url, "https://github.com/acme/checkout/issues/42");
    assert_eq!(link.tracker_type, "github");
    assert_eq!(link.title, Some("Card is declined twice".to_owned()));
    assert_eq!(link.status, Some("Open".to_owned()));
    assert_eq!(link.linked_at, "1234");
}

#[test]
fn a_new_link_leaves_the_optional_fields_absent_when_the_client_omits_them() {
    let request = parse_request(&json(
        r#"{
            "defectId": "BUG-42",
            "defectUrl": "https://tracker.example/BUG-42",
            "trackerType": "custom"
        }"#,
    ))
    .expect("a minimal request is accepted");

    let link = new_link(request, "link-7".to_owned(), "1234".to_owned());
    assert_eq!(link.title, None);
    assert_eq!(link.status, None);
    assert_eq!(link.tracker_type, "custom");
}
