use tucano_domain::json::{JsonNumber, JsonValue};
use tucano_domain::models::{Attachment, Document, Milestone, Project, TestCase, TestCaseStep, TestRun, TestSuite};

fn to_value(value: serde_json::Value) -> JsonValue {
    match value {
        serde_json::Value::Null => JsonValue::Null,
        serde_json::Value::Bool(b) => JsonValue::Bool(b),
        serde_json::Value::Number(n) => match (n.as_u64(), n.as_i64()) {
            (Some(u), _) => JsonValue::Number(JsonNumber::Unsigned(u)),
            (None, Some(i)) => JsonValue::Number(JsonNumber::Negative(i)),
            _ => JsonValue::Number(JsonNumber::Decimal(n.to_string())),
        },
        serde_json::Value::String(s) => JsonValue::Str(s),
        serde_json::Value::Array(items) => JsonValue::Array(items.into_iter().map(to_value).collect()),
        serde_json::Value::Object(map) => {
            JsonValue::Object(map.into_iter().map(|(k, v)| (k, to_value(v))).collect())
        }
    }
}

fn json(text: &str) -> JsonValue {
    to_value(serde_json::from_str(text).expect("test JSON"))
}

fn to_serde(value: &JsonValue) -> serde_json::Value {
    match value {
        JsonValue::Null => serde_json::Value::Null,
        JsonValue::Bool(b) => serde_json::Value::Bool(*b),
        JsonValue::Number(JsonNumber::Unsigned(n)) => serde_json::Value::from(*n),
        JsonValue::Number(JsonNumber::Negative(n)) => serde_json::Value::from(*n),
        JsonValue::Number(JsonNumber::Decimal(s)) => serde_json::from_str(s).expect("number"),
        JsonValue::Str(s) => serde_json::Value::String(s.clone()),
        JsonValue::Array(items) => serde_json::Value::Array(items.iter().map(to_serde).collect()),
        JsonValue::Object(members) => serde_json::Value::Object(
            members.iter().map(|(k, v)| (k.clone(), to_serde(v))).collect(),
        ),
    }
}

fn sj(text: &str) -> serde_json::Value {
    serde_json::from_str(text).expect("test JSON")
}

fn parse<T: Document>(text: &str) -> Option<T> {
    serde_json::from_str::<serde_json::Value>(text)
        .ok()
        .and_then(|value| T::from_json(&to_value(value)))
}

#[test]
fn attachment_round_trips_and_omits_missing_upload_time() {
    let input = r#"{
        "filename": "1700000000-notes.txt",
        "originalName": "notes.txt",
        "mimeType": "text/plain",
        "size": 12
    }"#;

    let attachment: Attachment = parse(input).expect("valid attachment");
    assert_eq!(attachment.original_name, "notes.txt");
    assert!(attachment.uploaded_at.is_none());

    let output = to_serde(&attachment.to_json());
    assert_eq!(output["mimeType"], "text/plain");
    assert_eq!(output["size"], 12.0);
    assert!(output.get("uploadedAt").is_none());
}

#[test]
fn test_case_preserves_attachment_metadata() {
    let input = r#"{
        "testCaseId": "TC-001",
        "title": "Upload evidence",
        "expectedResult": "Attachment stored",
        "attachments": [{
            "filename": "1700000000-shot.png",
            "originalName": "shot.png",
            "mimeType": "image/png",
            "size": 2048,
            "uploadedAt": "2026-09-02T00:00:00Z"
        }]
    }"#;

    let case: TestCase = parse(input).expect("valid test case");
    let attachments = case.attachments.as_ref().expect("attachments present");
    assert_eq!(attachments.len(), 1);
    assert_eq!(
        attachments[0].uploaded_at.as_deref(),
        Some("2026-09-02T00:00:00Z")
    );

    let output = to_serde(&case.to_json());
    assert_eq!(output["attachments"][0]["originalName"], "shot.png");
}

#[test]
fn test_case_supports_structured_steps_preconditions_severity_and_test_type() {
    let input = r#"{
        "testCaseId": "TC-002",
        "title": "Rich Test Case",
        "preconditions": "User has active account",
        "priority": "High",
        "severity": "Critical",
        "testType": "Functional",
        "expectedResult": "Order confirmed",
        "steps": [
            "Navigate to /checkout",
            {
                "action": "Click Pay Now",
                "expectedResult": "Payment processed"
            }
        ]
    }"#;

    let case: TestCase = parse(input).expect("valid rich test case");
    assert_eq!(
        case.preconditions.as_deref(),
        Some("User has active account")
    );
    assert_eq!(case.severity.as_deref(), Some("Critical"));
    assert_eq!(case.test_type.as_deref(), Some("Functional"));

    let steps = case.steps.as_ref().expect("steps present");
    assert_eq!(steps.len(), 2);
    assert!(matches!(&steps[0], TestCaseStep::Simple(text) if text == "Navigate to /checkout"));
    assert!(matches!(
        &steps[1],
        TestCaseStep::Structured(step)
            if step.action == "Click Pay Now"
                && step.expected_result.as_deref() == Some("Payment processed")
                && step.attachments.is_none()
    ));

    let output = to_serde(&case.to_json());
    assert_eq!(output["preconditions"], "User has active account");
    assert_eq!(output["severity"], "Critical");
    assert_eq!(output["testType"], "Functional");
    assert_eq!(output["steps"][1]["action"], "Click Pay Now");
}

#[test]
fn test_suite_round_trips_nested_test_cases() {
    let input = r#"{
        "suiteId": "S-001",
        "name": "Regression",
        "testCases": [{
            "testCaseId": "TC-001",
            "title": "Login",
            "expectedResult": "User is authenticated"
        }]
    }"#;

    let suite: TestSuite = parse(input).expect("valid suite");
    assert_eq!(suite.test_cases.len(), 1);

    let output = to_serde(&suite.to_json());
    assert_eq!(output["suiteId"], "S-001");
    assert_eq!(output["testCases"][0]["testCaseId"], "TC-001");
    assert!(output.get("description").is_none());
}

#[test]
fn test_run_round_trips_all_optional_collections() {
    let input = r#"{
        "testRunId": "R-001",
        "timestamp": "2026-09-02T00:00:00Z",
        "projects": [],
        "testSuites": [],
        "testCases": []
    }"#;

    let run: TestRun = parse(input).expect("valid run");
    assert!(run.projects.as_ref().is_some_and(|items| items.is_empty()));

    let output = to_serde(&run.to_json());
    assert_eq!(output["testRunId"], "R-001");
    assert!(output["testSuites"].is_array());
}

#[test]
fn test_run_omits_absent_collections() {
    let run: TestRun = parse(r#"{"testRunId":"R-002","timestamp":"2026-09-02T00:00:00Z"}"#)
        .expect("valid minimal run");

    let output = to_serde(&run.to_json());
    assert!(output.get("projects").is_none());
    assert!(output.get("testSuites").is_none());
    assert!(output.get("testCases").is_none());
    assert!(output.get("results").is_none());
}

#[test]
fn test_run_round_trips_test_case_results() {
    let input = r#"{
        "testRunId": "R-003",
        "timestamp": "2026-09-04T12:00:00Z",
        "results": [{
            "testCaseId": "TC-001.json",
            "status": "Passed",
            "timestamp": "2026-09-04T12:05:00Z",
            "notes": "Verified login form"
        }]
    }"#;

    let run: TestRun = parse(input).expect("valid run with results");
    let results = run.results.as_ref().expect("results present");
    assert_eq!(results.len(), 1);
    assert_eq!(results[0].test_case_id, "TC-001.json");
    assert_eq!(results[0].status, "Passed");

    let output = to_serde(&run.to_json());
    assert_eq!(output["results"][0]["status"], "Passed");
}

#[test]
fn milestone_round_trips_and_omits_optional_fields() {
    let input = r#"{
        "milestoneId": "M-001.json",
        "name": "Sprint 42",
        "startDate": "2026-09-01",
        "targetDate": "2026-09-15",
        "status": "Open",
        "testRunIds": ["RUN-1.json"]
    }"#;

    let milestone: Milestone = parse(input).expect("valid milestone");
    assert_eq!(milestone.name, "Sprint 42");
    assert_eq!(milestone.target_date.as_deref(), Some("2026-09-15"));
    assert!(milestone.test_suite_ids.is_none());

    let output = to_serde(&milestone.to_json());
    assert_eq!(output["milestoneId"], "M-001.json");
    assert_eq!(output["testRunIds"][0], "RUN-1.json");
    assert!(output.get("description").is_none());
}

#[test]
fn snake_case_field_names_are_rejected() {
    let result = parse::<TestCase>(r#"{"test_case_id":"TC-001","title":"Legacy","expected_result":"Pass"}"#);
    assert!(result.is_none());
}

#[test]
fn project_round_trips_legacy_json() {
    let input = r#"{
        "projectId": "P-001",
        "name": "Checkout",
        "description": "Purchase flow",
        "testSuites": [{
            "suiteId": "S-001",
            "name": "Happy path",
            "testCases": [{
                "testCaseId": "TC-001",
                "title": "Buy an item",
                "steps": ["Add item", "Pay"],
                "expectedResult": "Order is created",
                "priority": "high",
                "exploratory": false
            }]
        }]
    }"#;

    let project: Project = parse(input).expect("valid project");
    let output = to_serde(&project.to_json());

    assert_eq!(output["projectId"], "P-001");
    assert_eq!(
        output["testSuites"][0]["testCases"][0]["expectedResult"],
        "Order is created"
    );
    assert!(output["testSuites"][0]["description"].is_null());
}

#[test]
fn missing_required_fields_are_rejected() {
    let result = parse::<TestCase>(r#"{"testCaseId":"TC-001","title":"Incomplete"}"#);
    assert!(result.is_none());
}

#[test]
fn missing_required_fields_are_rejected_for_every_resource() {
    assert!(parse::<Project>(r#"{"projectId":"P-001","name":"No suites"}"#).is_none());
    assert!(parse::<TestSuite>(r#"{"suiteId":"S-001","name":"No cases"}"#).is_none());
    assert!(parse::<TestRun>(r#"{"testRunId":"R-001"}"#).is_none());
    assert!(
        parse::<Attachment>(r#"{"filename":"a.txt","originalName":"a.txt","mimeType":"text/plain"}"#)
            .is_none()
    );
}

#[test]
fn unknown_fields_are_rejected() {
    let result = parse::<TestRun>(
        r#"{"testRunId":"R-001","timestamp":"2026-09-02T00:00:00Z","unexpected":true}"#,
    );
    assert!(result.is_none());
}

#[test]
fn unknown_fields_are_rejected_for_every_resource() {
    assert!(parse::<Project>(r#"{"projectId":"P-001","name":"X","testSuites":[],"rogue":1}"#).is_none());
    assert!(parse::<TestSuite>(r#"{"suiteId":"S-001","name":"X","testCases":[],"rogue":1}"#).is_none());
    assert!(
        parse::<TestCase>(r#"{"testCaseId":"TC-001","title":"X","expectedResult":"Y","rogue":1}"#).is_none()
    );
}

#[test]
fn malformed_json_is_rejected() {
    assert!(parse::<Project>("{ not json }").is_none());
}
