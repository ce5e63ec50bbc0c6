use tucano_domain::audit::{audit_record, AuditOutcome};
use tucano_domain::duplicate::DuplicateSpec;
use tucano_domain::error::DomainError;
use tucano_domain::json::{json_eq, JsonNumber, JsonValue};
use tucano_domain::models::{Attachment, Document, Milestone, Project, TestCase, TestConfiguration, TestRun, TestSuite};
use tucano_domain::reports::SummaryFilters;
use tucano_domain::service::{result_update, ListQuery, TestService};
use tucano_domain::composition::Patch;
use tucano_domain::storage::{Parent, Resource};
use tucano_domain::store::Repository;

fn to_value(value: serde_json::Value) -> JsonValue {
    match value {
        serde_json::Value::Null => JsonValue::Null,
        serde_json::Value::Bool(b) => JsonValue::Bool(b),
        serde_json::Value::Number(n) => match (n.as_u64(), n.as_i64()) {
            (Some(u), _) => JsonValue::Number(JsonNumber::Unsigned(u)),
            (None, Some(i)) => JsonValue::Number(JsonNumber::Negative(i)),
            _ => JsonValue::Number(JsonNumber::Decimal(n.to_string())),
        },
        serde_json::Value::String(s) => JsonValue::Str(s),
        serde_json::Value::Array(items) => JsonValue::Array(items.into_iter().map(to_value).collect()),
        serde_json::Value::Object(map) => {
            JsonValue::Object(map.into_iter().map(|(k, v)| (k, to_value(v))).collect())
        }
    }
}

fn json(text: &str) -> JsonValue {
    to_value(serde_json::from_str(text).expect("test JSON"))
}

fn service() -> TestService {
    TestService::new(Repository::new())
}

fn project(service: &mut TestService) -> Parent {
    service
        .create(
            Resource::Projects,
            &json(r#"{ "projectId": "checkout.json", "name": "checkout" }"#),
        )
        .expect("project");
    Parent::Project("checkout.json".to_owned())
}

fn run_in(service: &mut TestService, home: &Parent, name: &str, status: &str) {
    let body = format!(
        r#"{{ "name": "{name}", "timestamp": "2026-09-02T10:00:00Z", "results": [{{ "testCaseId": "TC-1", "status": "{status}", "timestamp": "1" }}] }}"#
    );
    service
        .create_in(Resource::Runs, home, &json(&body))
        .expect("run");
}

fn invalid_message(error: DomainError) -> String {
    match error {
        DomainError::InvalidRequest { message, .. } => message,
        other => panic!("expected a 400, got {other:?}"),
    }
}

#[test]
fn a_result_body_is_refused_with_the_field_that_fails() {
    let cases = [
        (r#"[1]"#, "Request body must be a JSON object"),
        (r#"{ "status": "Passed" }"#, "Required field testCaseId is missing"),
        (r#"{ "testCaseId": "", "status": "Passed" }"#, "Required field testCaseId is missing"),
        (r#"{ "testCaseId": "TC-1" }"#, "Required field status is missing"),
        (
            r#"{ "testCaseId": "TC-1", "status": "Passed", "timestamp": "" }"#,
            "Field `timestamp` must be a non-empty string",
        ),
        (
            r#"{ "testCaseId": "TC-1", "status": "Passed", "notes": 3 }"#,
            "Field `notes` must be a string or null",
        ),
        (
            r#"{ "testCaseId": "TC-1", "status": "Passed", "durationMs": -5 }"#,
            "Field `durationMs` must be a non-negative integer or null",
        ),
        (
            r#"{ "testCaseId": "TC-1", "status": "Passed", "verdict": "ok" }"#,
            "Unknown field `verdict`",
        ),
    ];
    for (body, message) in cases {
        let error = result_update(&json(body)).expect_err(body);
        assert_eq!(invalid_message(error), message, "{body}");
    }
    let status = result_update(&json(r#"{ "testCaseId": "TC-1", "status": "Done" }"#)).expect_err("status");
    assert!(matches!(status, DomainError::InvalidRequest { code: "invalid_status", .. }));
}

#[test]
fn a_result_body_asks_to_keep_clear_or_replace_each_optional_field() {
    let update = result_update(&json(
        r#"{ "testCaseId": "TC-1", "status": "Retest", "timestamp": "2026-09-02", "notes": null, "durationMs": 40 }"#,
    ))
    .expect("valid body");
    assert_eq!(update.test_case_id, "TC-1");
    assert_eq!(update.status, "Retest");
    assert_eq!(update.timestamp, "2026-09-02");
    assert!(matches!(update.notes, Patch::Clear));
    assert!(matches!(update.duration_ms, Patch::Value(40)));

    let kept = result_update(&json(r#"{ "testCaseId": "TC-1", "status": "Passed", "notes": "flaky" }"#))
        .expect("valid body");
    assert!(matches!(kept.notes, Patch::Value(ref n) if n == "flaky"));
    assert!(matches!(kept.duration_ms, Patch::Keep));
}

#[test]
fn a_run_whose_document_no_longer_reads_refuses_a_recording() {
    let mut service = service();
    let home = project(&mut service);
    run_in(&mut service, &home, "nightly", "Passed");
    service
        .update(Resource::Runs, "nightly.json", &json(r#"{ "name": 5 }"#))
        .expect("validation only checks the members");

    let error = service
        .record_run_result("nightly.json", &json(r#"{ "testCaseId": "TC-1", "status": "Failed" }"#))
        .expect_err("unreadable run");
    assert!(matches!(error, DomainError::Internal(ref m) if m == "Stored JSON is invalid"), "{error:?}");

    let missing = service
        .record_run_result("weekly.json", &json(r#"{ "testCaseId": "TC-1", "status": "Failed" }"#))
        .expect_err("missing run");
    assert!(matches!(missing, DomainError::NotFound(ref m) if m == "Test run not found"), "{missing:?}");
}

#[test]
fn a_configuration_is_linked_once_and_unlinked_once() {
    let mut service = service();
    let home = project(&mut service);
    run_in(&mut service, &home, "nightly", "Passed");
    service
        .create_in(Resource::Configurations, &home, &json(r#"{ "name": "chrome", "browser": "Chrome" }"#))
        .expect("configuration");

    let missing = service
        .link_configuration_to_run("nightly.json", &json(r#"{ "configId": "" }"#))
        .expect_err("no identifier");
    assert_eq!(invalid_message(missing), "Required field configId is missing");

    service
        .link_configuration_to_run("nightly.json", &json(r#"{ "configId": "chrome.json" }"#))
        .expect("link");
    let again = service
        .link_configuration_to_run("nightly.json", &json(r#"{ "configId": "chrome.json" }"#))
        .expect_err("linked twice");
    assert!(
        matches!(again, DomainError::Conflict(ref m) if m == "Test configuration is already linked to test run"),
        "{again:?}"
    );

    let stored = service.get(Resource::Runs, "nightly.json").expect("run");
    let run = TestRun::from_json(&stored).expect("the run still reads");
    let configurations = run.configurations.expect("references");
    assert_eq!(configurations.len(), 1);
    assert_eq!(configurations[0].config_id, "chrome.json");
    assert_eq!(configurations[0].name, "chrome");
    assert_eq!(configurations[0].browser, None);

    service
        .unlink_configuration_from_run("nightly.json", "chrome.json")
        .expect("unlink");
    let twice = service
        .unlink_configuration_from_run("nightly.json", "chrome.json")
        .expect_err("not linked any more");
    assert!(
        matches!(twice, DomainError::NotFound(ref m) if m == "Test configuration not linked to test run"),
        "{twice:?}"
    );
}

#[test]
fn a_suite_is_added_to_a_run_once() {
    let mut service = service();
    let home = project(&mut service);
    run_in(&mut service, &home, "nightly", "Passed");
    service
        .create_in(Resource::Suites, &home, &json(r#"{ "suiteId": "S-1", "name": "smoke" }"#))
        .expect("suite");

    let missing = service
        .add_suite_to_run("nightly.json", &json(r#"{ }"#))
        .expect_err("no identifier");
    assert_eq!(invalid_message(missing), "Required field suiteId is missing");

    let unknown = service
        .add_suite_to_run("nightly.json", &json(r#"{ "suiteId": "regression.json" }"#))
        .expect_err("no such suite");
    assert!(matches!(unknown, DomainError::NotFound(ref m) if m == "Resource not found"), "{unknown:?}");

    service
        .add_suite_to_run("nightly.json", &json(r#"{ "suiteId": "smoke.json" }"#))
        .expect("add");
    let again = service
        .add_suite_to_run("nightly.json", &json(r#"{ "suiteId": "smoke.json" }"#))
        .expect_err("added twice");
    assert!(
        matches!(again, DomainError::Conflict(ref m) if m == "Test suite is already in test run"),
        "{again:?}"
    );
}

#[test]
fn milestone_progress_skips_a_run_that_does_not_read() {
    let mut service = service();
    let home = project(&mut service);
    run_in(&mut service, &home, "nightly", "Passed");
    run_in(&mut service, &home, "weekly", "Failed");
    service
        .update(Resource::Runs, "weekly.json", &json(r#"{ "name": 5 }"#))
        .expect("validation only checks the members");
    service
        .create_in(
            Resource::Milestones,
            &home,
            &json(r#"{ "milestoneId": "M-1", "name": "v1.0", "testRunIds": ["nightly.json", "weekly.json", "gone.json"] }"#),
        )
        .expect("milestone");

    let progress = service.milestone_progress("M-1.json").expect("progress");
    assert_eq!(progress.total_cases, 1);
    assert_eq!(progress.passed, 1);
    assert_eq!(progress.failed, 0);
}

#[test]
fn a_milestone_that_does_not_read_has_no_progress() {
    let mut service = service();
    let home = project(&mut service);
    service
        .create_in(Resource::Milestones, &home, &json(r#"{ "milestoneId": "M-1", "name": "v1.0" }"#))
        .expect("milestone");
    service
        .update(Resource::Milestones, "M-1.json", &json(r#"{ "testRunIds": "nightly.json" }"#))
        .expect("validation only checks the members");

    let error = service.milestone_progress("M-1.json").expect_err("unreadable milestone");
    assert!(
        matches!(error, DomainError::Internal(ref m) if m == "Stored milestone JSON is invalid"),
        "{error:?}"
    );
    let summary = service
        .summary_report(
            &SummaryFilters {
                milestone_id: Some("M-1.json".to_owned()),
                ..SummaryFilters::default()
            },
            None,
        )
        .expect_err("unreadable milestone");
    assert!(
        matches!(summary, DomainError::Internal(ref m) if m == "Stored milestone JSON is invalid"),
        "{summary:?}"
    );
}

#[test]
fn a_summary_counts_every_readable_run_once_and_refuses_bad_filters() {
    let mut service = service();
    let home = project(&mut service);
    run_in(&mut service, &home, "nightly", "Passed");
    run_in(&mut service, &home, "weekly", "Failed");
    run_in(&mut service, &home, "monthly", "Blocked");
    service
        .update(Resource::Runs, "monthly.json", &json(r#"{ "name": 7 }"#))
        .expect("validation only checks the members");

    let report = service
        .summary_report(&SummaryFilters::default(), None)
        .expect("summary");
    assert_eq!(report.total, 2);
    assert_eq!(report.passed, 1);
    assert_eq!(report.failed, 1);
    assert_eq!(report.blocked, 0);

    let project_missing = service
        .summary_report(
            &SummaryFilters {
                project_id: Some("billing.json".to_owned()),
                ..SummaryFilters::default()
            },
            None,
        )
        .expect_err("no such project");
    assert!(
        matches!(project_missing, DomainError::NotFound(ref m) if m == "Project not found"),
        "{project_missing:?}"
    );

    let bad_date = service
        .summary_report(
            &SummaryFilters {
                from: Some("yesterday".to_owned()),
                ..SummaryFilters::default()
            },
            None,
        )
        .expect_err("not a date");
    assert_eq!(invalid_message(bad_date), "Invalid date filter: yesterday");
}

#[test]
fn an_update_that_names_another_document_is_refused() {
    let mut service = service();
    let home = project(&mut service);
    run_in(&mut service, &home, "nightly", "Passed");

    let renamed = service
        .update(Resource::Runs, "nightly.json", &json(r#"{ "testRunId": "other.json" }"#))
        .expect_err("identity change");
    assert_eq!(
        invalid_message(renamed),
        "Field `testRunId` names another document; an identifier is immutable, delete the resource and recreate it to rename it"
    );
    let missing = service
        .update(Resource::Runs, "weekly.json", &json(r#"{ "name": "weekly" }"#))
        .expect_err("no such run");
    assert!(matches!(missing, DomainError::NotFound(ref m) if m == "Resource not found"), "{missing:?}");
    assert_eq!(
        service.list(Resource::Runs, &ListQuery::default()).expect("list"),
        vec!["nightly.json".to_owned()]
    );
}

#[test]
fn a_document_reads_back_what_it_writes() {
    let case = TestCase::from_json(&json(
        r#"{
            "testCaseId": "TC-7",
            "title": "Checkout",
            "description": "happy path",
            "steps": ["Open the cart", { "action": "Pay", "expectedResult": "Receipt" }],
            "expectedResult": "Order placed",
            "priority": "High",
            "exploratory": false,
            "attachments": [{ "filename": "1-a.png", "originalName": "a.png", "mimeType": "image/png", "size": 12 }],
            "tags": ["smoke"],
            "version": 3
        }"#,
    ))
    .expect("a full case reads");
    let written = case.to_json();
    let again = TestCase::from_json(&written).expect("what a case writes reads back");
    assert!(json_eq(&again.to_json(), &written));
    assert_eq!(again.test_case_id, "TC-7");
    assert_eq!(again.version, Some(3));
    assert_eq!(again.exploratory, Some(false));

    let attachment = Attachment::from_json(&json(
        r#"{ "filename": "1-a.png", "originalName": "a.png", "mimeType": "image/png", "size": 12 }"#,
    ))
    .expect("attachment");
    let back = Attachment::from_json(&attachment.to_json()).expect("reads back");
    assert_eq!(back.original_name, "a.png");
    assert_eq!(back.uploaded_at, None);

    let milestone = Milestone::from_json(&json(
        r#"{ "milestoneId": "M-1", "name": "v1.0", "testRunIds": ["R-1.json"] }"#,
    ))
    .expect("milestone");
    let back = Milestone::from_json(&milestone.to_json()).expect("reads back");
    assert_eq!(back.test_run_ids, Some(vec!["R-1.json".to_owned()]));
}

#[test]
fn a_document_read_and_written_back_drops_only_its_null_members() {
    let stored = json(
        r#"{ "name": "chrome", "configId": "chrome.json", "browser": "Chrome", "os": null }"#,
    );
    let configuration = TestConfiguration::from_json(&stored).expect("configuration");
    let written = configuration.to_json();
    assert_eq!(written.str_at("configId").map(String::as_str), Some("chrome.json"));
    assert_eq!(written.str_at("name").map(String::as_str), Some("chrome"));
    assert_eq!(written.str_at("browser").map(String::as_str), Some("Chrome"));
    assert!(written.get("os").is_none());
    assert!(written.get("device").is_none());
}

#[test]
fn a_conditional_update_needs_the_tag_the_store_holds() {
    let mut service = service();
    let home = project(&mut service);
    run_in(&mut service, &home, "nightly", "Passed");

    let stale = service
        .update_with_etag(
            Resource::Runs,
            "nightly.json",
            &json(r#"{ "name": "renamed" }"#),
            Some("\"old\"".to_owned()),
            "\"new\"",
        )
        .expect_err("stale tag");
    assert!(
        matches!(stale, DomainError::PreconditionFailed { ref current_etag } if current_etag == "\"new\""),
        "{stale:?}"
    );
    let missing = service
        .update_with_etag(
            Resource::Runs,
            "weekly.json",
            &json(r#"{ "name": "renamed" }"#),
            Some("\"old\"".to_owned()),
            "\"new\"",
        )
        .expect_err("no such run");
    assert!(matches!(missing, DomainError::NotFound(ref m) if m == "Resource not found"), "{missing:?}");

    service
        .update_with_etag(
            Resource::Runs,
            "nightly.json",
            &json(r#"{ "name": "renamed" }"#),
            Some("\"new\"".to_owned()),
            "\"new\"",
        )
        .expect("matching tag");
    service
        .update_with_etag(Resource::Runs, "nightly.json", &json(r#"{ "tags": ["ci"] }"#), Some(String::new()), "\"x\"")
        .expect("an empty tag asks for nothing");
    let stored = service.get(Resource::Runs, "nightly.json").expect("run");
    assert_eq!(stored.str_at("name").map(String::as_str), Some("renamed"));
}

fn written_keys_are_known(resource: Resource, document: &JsonValue) {
    let known = tucano_domain::validation::known_fields(resource);
    match document {
        JsonValue::Object(members) => {
            for (key, _) in members {
                assert!(known.contains(&key.as_str()), "{key} is written but not a known field");
            }
        }
        other => panic!("models write objects, got {other:?}"),
    }
}

#[test]
fn what_the_models_write_is_what_a_body_may_carry() {
    let project = Project::from_json(&json(
        r#"{ "projectId": "P-1", "name": "project", "description": "d", "testSuites": [], "tags": ["a"] }"#,
    ))
    .expect("project");
    written_keys_are_known(Resource::Projects, &project.to_json());
    let suite = TestSuite::from_json(&json(r#"{ "suiteId": "S-1", "name": "suite", "testCases": [] }"#)).expect("suite");
    written_keys_are_known(Resource::Suites, &suite.to_json());
    let case = TestCase::from_json(&json(
        r#"{ "testCaseId": "TC-1", "title": "case", "expectedResult": "expected", "steps": ["a"], "tags": ["t"] }"#,
    ))
    .expect("case");
    written_keys_are_known(Resource::Cases, &case.to_json());
    let run = TestRun::from_json(&json(r#"{ "testRunId": "R-1", "timestamp": "1", "results": [] }"#)).expect("run");
    written_keys_are_known(Resource::Runs, &run.to_json());
    let milestone = Milestone::from_json(&json(r#"{ "milestoneId": "M-1", "name": "milestone", "testRunIds": [] }"#))
        .expect("milestone");
    written_keys_are_known(Resource::Milestones, &milestone.to_json());
    let configuration =
        TestConfiguration::from_json(&json(r#"{ "configId": "C-1", "name": "configuration", "os": "linux" }"#))
            .expect("configuration");
    written_keys_are_known(Resource::Configurations, &configuration.to_json());
}

fn is_invalid_id(error: &DomainError) -> bool {
    matches!(error, DomainError::InvalidRequest { code: "invalid_id", .. })
}

#[test]
fn an_identifier_the_store_cannot_file_is_refused() {
    let mut service = service();
    let home = project(&mut service);
    run_in(&mut service, &home, "nightly", "Passed");

    for new_id in ["../escape.json", "a/b.json", "..", ".", ""] {
        let body = format!(r#"{{ "newId": "{new_id}" }}"#);
        let error = service
            .duplicate(&DuplicateSpec::run(), "nightly.json", &json(&body))
            .expect_err("unusable identifier");
        assert!(is_invalid_id(&error), "{new_id}: {error:?}");
    }
    let copy = service
        .duplicate(&DuplicateSpec::run(), "nightly.json", &json(r#"{ "newId": "nightly-2.json" }"#))
        .expect("usable identifier");
    assert_eq!(copy, "nightly-2.json");

    let traversal = service
        .create_in(Resource::Runs, &home, &json(r#"{ "name": "../weekly", "timestamp": "1" }"#))
        .expect_err("traversal");
    assert!(is_invalid_id(&traversal), "{traversal:?}");

    let renamed = service
        .update(Resource::Runs, "nightly.json", &json(r#"{ "testRunId": "../other.json" }"#))
        .expect_err("unusable identity");
    assert!(is_invalid_id(&renamed), "{renamed:?}");

    let read = service
        .get(Resource::Projects, "../checkout.json")
        .expect_err("unusable project identifier");
    assert!(is_invalid_id(&read), "{read:?}");
    let removed = service
        .delete(Resource::Projects, "..")
        .expect_err("unusable project identifier");
    assert!(is_invalid_id(&removed), "{removed:?}");
    let missing = service
        .get(Resource::Projects, "absent.json")
        .expect_err("unknown project");
    assert!(matches!(missing, DomainError::NotFound(_)), "{missing:?}");
}

#[test]
fn an_audit_line_names_the_change_and_its_outcome() {
    let written: Result<(), DomainError> = Ok(());
    let line = audit_record("project", "create", "p-1", &written);
    assert_eq!(line.action, "create");
    assert_eq!(line.resource, "project");
    assert_eq!(line.id, "p-1");
    assert_eq!(line.outcome, AuditOutcome::Success);

    let refused: Result<(), DomainError> = Err(DomainError::Conflict("Resource already exists".to_owned()));
    let line = audit_record("project", "create", "p-1", &refused);
    assert_eq!(line.outcome, AuditOutcome::Failure("conflict"));
}
