use tucano_domain::error::DomainError;
use tucano_domain::json::{JsonNumber, JsonValue};
use tucano_domain::models::{Document, Milestone, Project, TestCase, TestConfiguration, TestRun, TestSuite};
use tucano_domain::resources::derive_create_id;
use tucano_domain::storage::Resource;
use tucano_domain::validation::{known_fields, validate_payload};

fn to_value(value: serde_json::Value) -> JsonValue {
    match value {
        serde_json::Value::Null => JsonValue::Null,
        serde_json::Value::Bool(b) => JsonValue::Bool(b),
        serde_json::Value::Number(n) => match (n.as_u64(), n.as_i64()) {
            (Some(u), _) => JsonValue::Number(JsonNumber::Unsigned(u)),
            (None, Some(i)) => JsonValue::Number(JsonNumber::Negative(i)),
            _ => JsonValue::Number(JsonNumber::Decimal(n.to_string())),
        },
        serde_json::Value::String(s) => JsonValue::Str(s),
        serde_json::Value::Array(items) => JsonValue::Array(items.into_iter().map(to_value).collect()),
        serde_json::Value::Object(map) => {
            JsonValue::Object(map.into_iter().map(|(k, v)| (k, to_value(v))).collect())
        }
    }
}

fn json(text: &str) -> JsonValue {
    to_value(serde_json::from_str(text).expect("test JSON"))
}

fn to_serde(value: &JsonValue) -> serde_json::Value {
    match value {
        JsonValue::Null => serde_json::Value::Null,
        JsonValue::Bool(b) => serde_json::Value::Bool(*b),
        JsonValue::Number(JsonNumber::Unsigned(n)) => serde_json::Value::from(*n),
        JsonValue::Number(JsonNumber::Negative(n)) => serde_json::Value::from(*n),
        JsonValue::Number(JsonNumber::Decimal(s)) => serde_json::from_str(s).expect("number"),
        JsonValue::Str(s) => serde_json::Value::String(s.clone()),
        JsonValue::Array(items) => serde_json::Value::Array(items.iter().map(to_serde).collect()),
        JsonValue::Object(members) => serde_json::Value::Object(
            members.iter().map(|(k, v)| (k.clone(), to_serde(v))).collect(),
        ),
    }
}

fn sj(text: &str) -> serde_json::Value {
    serde_json::from_str(text).expect("test JSON")
}

fn id(resource: Resource, payload: &str) -> String {
    derive_create_id(resource, &json(payload)).expect("identifier should be derivable")
}

#[test]
fn named_resources_are_suffixed_with_json() {
    assert_eq!(id(Resource::Projects, r#"{ "name": "checkout" }"#), "checkout.json");
    assert_eq!(id(Resource::Suites, r#"{ "name": "smoke" }"#), "smoke.json");
    assert_eq!(id(Resource::Runs, r#"{ "name": "nightly" }"#), "nightly.json");
    assert_eq!(id(Resource::Configurations, r#"{ "name": "chrome" }"#), "chrome.json");
}

#[test]
fn test_cases_are_named_by_their_own_identifier() {
    assert_eq!(
        id(
            Resource::Cases,
            r#"{
                "testCaseId": "TC-001",
                "title": "Upload",
                "expectedResult": "Stored"
            }"#
        ),
        "TC-001"
    );
}

#[test]
fn test_cases_require_identifier_title_and_expected_result() {
    for payload in [
        r#"{ "title": "Upload", "expectedResult": "Stored" }"#,
        r#"{ "testCaseId": "TC-001", "expectedResult": "Stored" }"#,
        r#"{ "testCaseId": "TC-001", "title": "Upload" }"#,
        r#"{ "testCaseId": "", "title": "Upload", "expectedResult": "Stored" }"#,
    ] {
        assert!(
            derive_create_id(Resource::Cases, &json(payload)).is_err(),
            "{payload} should be rejected"
        );
    }
}

#[test]
fn milestones_default_to_the_name_and_suffix_json() {
    assert_eq!(id(Resource::Milestones, r#"{ "name": "v1.0-RC1" }"#), "v1.0-RC1.json");
    assert_eq!(
        id(Resource::Milestones, r#"{ "milestoneId": "M-001", "name": "v1.0-RC1" }"#),
        "M-001.json"
    );
    assert_eq!(
        id(Resource::Milestones, r#"{ "milestoneId": "M-001.json", "name": "v1.0-RC1" }"#),
        "M-001.json"
    );
}

#[test]
fn a_missing_name_is_a_bad_request() {
    let error = derive_create_id(Resource::Projects, &json(r#"{ "description": "no name" }"#))
        .expect_err("name is required");
    assert!(matches!(error, DomainError::InvalidRequest { .. }));
    assert!(derive_create_id(Resource::Milestones, &json(r#"{ "name": "" }"#)).is_err());
}

fn assert_invalid(resource: Resource, payload: &str) {
    let error = validate_payload(resource, &json(payload)).expect_err("payload must be rejected");
    assert!(
        matches!(error, DomainError::InvalidRequest { .. }),
        "{error:?} should be a 400"
    );
}

#[test]
fn a_non_object_body_is_rejected() {
    assert_invalid(Resource::Projects, r#"["not", "an", "object"]"#);
}

#[test]
fn unknown_top_level_fields_are_rejected() {
    assert_invalid(Resource::Projects, r#"{ "name": "alpha", "sneaky": 1 }"#);
    assert_invalid(
        Resource::Cases,
        r#"{ "testCaseId": "TC-1", "title": "t", "expectedResult": "e", "extra": true }"#,
    );
}

#[test]
fn partial_payloads_used_by_the_api_are_accepted() {
    assert!(validate_payload(Resource::Projects, &json(r#"{ "name": "alpha" }"#)).is_ok());
    assert!(validate_payload(Resource::Suites, &json(r#"{ "name": "smoke" }"#)).is_ok());
    assert!(validate_payload(Resource::Runs, &json(r#"{ "name": "nightly" }"#)).is_ok());
    assert!(validate_payload(Resource::Milestones, &json(r#"{ "name": "v1.0" }"#)).is_ok());
    assert!(validate_payload(Resource::Configurations, &json(r#"{ "name": "chrome" }"#)).is_ok());
}

#[test]
fn nested_collections_are_validated_against_their_models() {
    let case = json(
        r#"{
            "testCaseId": "TC-001",
            "title": "Upload evidence",
            "expectedResult": "Attachment stored",
            "steps": ["Open the upload form", { "action": "Pick a file" }],
            "attachments": [{
                "filename": "1-shot.png",
                "originalName": "shot.png",
                "mimeType": "image/png",
                "size": 2048
            }]
        }"#,
    );
    assert!(validate_payload(Resource::Cases, &case).is_ok());

    let suite = json(
        r#"{
            "suiteId": "S-001",
            "name": "smoke",
            "testCases": [{
                "testCaseId": "TC-002",
                "title": "Sign in",
                "expectedResult": "Dashboard"
            }]
        }"#,
    );
    assert!(validate_payload(Resource::Suites, &suite).is_ok());

    let project = json(r#"{ "projectId": "P-001", "name": "checkout", "testSuites": [] }"#);
    assert!(validate_payload(Resource::Projects, &project).is_ok());

    let run = json(
        r#"{
            "testRunId": "R-001",
            "timestamp": "1",
            "testSuites": [],
            "results": [{ "testCaseId": "TC-001", "status": "Passed", "timestamp": "1" }],
            "configurations": [{ "configId": "C-1", "name": "Chrome", "browser": "Chrome" }]
        }"#,
    );
    assert!(validate_payload(Resource::Runs, &run).is_ok());
}

#[test]
fn structured_steps_are_validated_for_step_attachments() {
    let case = json(
        r#"{
            "testCaseId": "TC-001",
            "title": "Attach evidence to a step",
            "expectedResult": "Stored",
            "steps": ["Open the form", {
                "action": "Pick a file",
                "attachments": [{
                    "filename": "1-shot.png",
                    "originalName": "shot.png",
                    "mimeType": "image/png",
                    "size": 2048
                }]
            }]
        }"#,
    );
    assert!(validate_payload(Resource::Cases, &case).is_ok());

    assert_invalid(
        Resource::Cases,
        r#"{
            "testCaseId": "TC-001",
            "title": "t",
            "expectedResult": "e",
            "steps": [{ "action": "Pick a file", "attachments": [{ "filename": "1.png" }] }]
        }"#,
    );
    assert_invalid(
        Resource::Cases,
        r#"{
            "testCaseId": "TC-001",
            "title": "t",
            "expectedResult": "e",
            "steps": [{ "action": "Pick a file", "attachments": [{ "sneaky": true }] }]
        }"#,
    );
}

#[test]
fn malformed_nested_collections_are_rejected() {
    assert_invalid(Resource::Projects, r#"{ "name": "alpha", "testSuites": "not a list" }"#);
    assert_invalid(Resource::Projects, r#"{ "name": "alpha", "testSuites": [{ "name": "no id" }] }"#);
    assert_invalid(
        Resource::Runs,
        r#"{ "testRunId": "R-1", "timestamp": "1", "results": [{ "status": "Passed" }] }"#,
    );
    assert_invalid(
        Resource::Cases,
        r#"{
            "testCaseId": "TC-1",
            "title": "t",
            "expectedResult": "e",
            "steps": [{ "unexpected": true }]
        }"#,
    );
}

#[test]
fn null_nested_fields_are_treated_as_absent() {
    assert!(validate_payload(Resource::Projects, &json(r#"{ "name": "alpha", "testSuites": null }"#)).is_ok());
}

#[test]
fn known_fields_cover_every_field_the_models_serialise() {
    let instances: [(Resource, JsonValue); 6] = [
        (
            Resource::Projects,
            Project {
                project_id: "P-1".to_owned(),
                name: "project".to_owned(),
                description: None,
                test_suites: Vec::new(),
                tags: None,
            }
            .to_json(),
        ),
        (
            Resource::Suites,
            TestSuite {
                suite_id: "S-1".to_owned(),
                name: "suite".to_owned(),
                description: None,
                test_cases: Vec::new(),
                tags: None,
            }
            .to_json(),
        ),
        (
            Resource::Cases,
            TestCase {
                test_case_id: "TC-1".to_owned(),
                title: "case".to_owned(),
                description: None,
                preconditions: None,
                steps: None,
                expected_result: "expected".to_owned(),
                priority: None,
                severity: None,
                test_type: None,
                exploratory: None,
                attachments: None,
                tags: None,
                version: None,
                last_modified: None,
            }
            .to_json(),
        ),
        (
            Resource::Runs,
            TestRun {
                test_run_id: "R-1".to_owned(),
                timestamp: "1".to_owned(),
                name: None,
                projects: None,
                test_suites: None,
                test_cases: None,
                results: None,
                tags: None,
                configurations: None,
                case_versions: None,
            }
            .to_json(),
        ),
        (
            Resource::Milestones,
            Milestone {
                milestone_id: "M-1".to_owned(),
                name: "milestone".to_owned(),
                description: None,
                start_date: None,
                target_date: None,
                status: None,
                test_suite_ids: None,
                test_run_ids: None,
            }
            .to_json(),
        ),
        (
            Resource::Configurations,
            TestConfiguration {
                config_id: "C-1".to_owned(),
                name: "configuration".to_owned(),
                browser: None,
                os: None,
                device: None,
                resolution: None,
            }
            .to_json(),
        ),
    ];

    for (resource, document) in instances {
        let allowed = known_fields(resource);
        let document = to_serde(&document);
        let keys = document.as_object().expect("models serialise to objects");
        assert!(!keys.is_empty());
        for key in keys.keys() {
            assert!(
                allowed.contains(&key.as_str()),
                "`{}` is serialised by the model but not listed in known_fields",
                key
            );
        }
    }
}
