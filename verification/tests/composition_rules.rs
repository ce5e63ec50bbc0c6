use tucano_domain::composition::{
    attach_case_to_run, attach_case_to_suite, attach_configuration_to_run, attach_defect_to_result,
    attach_suite_to_run, capture_case_version, detach_case_from_suite, detach_configuration_from_run,
    detach_defect_from_result, holds_case, upsert_result, Patch, ResultUpdate,
};
use tucano_domain::error::DomainError;
use tucano_domain::json::{JsonNumber, JsonValue};
use tucano_domain::models::{Attachment, DefectLink, Document, TestCase, TestConfiguration, TestRun, TestSuite};

fn case(id: &str) -> TestCase {
    TestCase {
        test_case_id: id.to_owned(),
        title: "case".to_owned(),
        description: None,
        preconditions: None,
        steps: None,
        expected_result: "expected".to_owned(),
        priority: None,
        severity: None,
        test_type: None,
        exploratory: None,
        attachments: None,
        tags: None,
        version: None,
        last_modified: None,
    }
}

fn suite(id: &str, cases: Vec<TestCase>) -> TestSuite {
    TestSuite {
        suite_id: id.to_owned(),
        name: "suite".to_owned(),
        description: None,
        test_cases: cases,
        tags: None,
    }
}

fn configuration(id: &str, name: &str) -> TestConfiguration {
    TestConfiguration {
        config_id: id.to_owned(),
        name: name.to_owned(),
        browser: Some("chrome".to_owned()),
        os: Some("linux".to_owned()),
        device: None,
        resolution: None,
    }
}

fn run() -> TestRun {
    TestRun {
        test_run_id: "R-1".to_owned(),
        timestamp: "1".to_owned(),
        name: None,
        projects: None,
        test_suites: None,
        test_cases: None,
        results: None,
        tags: None,
        configurations: None,
        case_versions: None,
    }
}

fn update(case_id: &str, status: &str) -> ResultUpdate {
    ResultUpdate {
        test_case_id: case_id.to_owned(),
        status: status.to_owned(),
        timestamp: "1".to_owned(),
        notes: Patch::Keep,
        duration_ms: Patch::Keep,
    }
}

fn pinned(run: &TestRun, case_id: &str) -> Option<u64> {
    run.case_versions
        .as_ref()
        .and_then(|pinned| pinned.iter().find(|(id, _)| id == case_id).map(|(_, v)| *v))
}

fn link(link_id: &str, defect_id: &str) -> DefectLink {
    DefectLink {
        link_id: link_id.to_owned(),
        defect_id: defect_id.to_owned(),
        defect_url: format!("https://tracker.example/{defect_id}"),
        tracker_type: "custom".to_owned(),
        title: None,
        status: None,
        linked_at: "1".to_owned(),
    }
}

fn to_serde(value: &JsonValue) -> serde_json::Value {
    match value {
        JsonValue::Null => serde_json::Value::Null,
        JsonValue::Bool(b) => serde_json::Value::Bool(*b),
        JsonValue::Number(JsonNumber::Unsigned(n)) => serde_json::Value::from(*n),
        JsonValue::Number(JsonNumber::Negative(n)) => serde_json::Value::from(*n),
        JsonValue::Number(JsonNumber::Decimal(s)) => serde_json::from_str(s).expect("number"),
        JsonValue::Str(s) => serde_json::Value::String(s.clone()),
        JsonValue::Array(items) => serde_json::Value::Array(items.iter().map(to_serde).collect()),
        JsonValue::Object(members) => serde_json::Value::Object(
            members.iter().map(|(k, v)| (k.clone(), to_serde(v))).collect(),
        ),
    }
}

#[test]
fn a_case_joins_a_suite_once() {
    let mut target = suite("S-1", Vec::new());
    attach_case_to_suite(&mut target, &case("TC-1"), "TC-1").expect("first add");

    assert_eq!(target.test_cases.len(), 1);
    let error = attach_case_to_suite(&mut target, &case("TC-1"), "TC-1")
        .expect_err("second add must conflict");
    assert!(matches!(error, DomainError::Conflict(_)));
    assert_eq!(target.test_cases.len(), 1);
}

#[test]
fn a_case_is_detected_as_present_under_either_identifier() {
    let mut target = suite("S-1", vec![case("TC-internal")]);
    assert!(attach_case_to_suite(&mut target, &case("TC-internal"), "TC-internal").is_err());

    let mut by_address = suite("S-1", vec![case("TC-internal")]);
    assert!(attach_case_to_suite(&mut by_address, &case("TC-other"), "TC-internal").is_err());
}

#[test]
fn removing_an_absent_case_is_not_found() {
    let mut target = suite("S-1", Vec::new());
    let error = detach_case_from_suite(&mut target, "TC-1").expect_err("absent");
    assert!(matches!(error, DomainError::NotFound(_)));

    let mut present = suite("S-1", vec![case("TC-1"), case("TC-2")]);
    detach_case_from_suite(&mut present, "TC-1").expect("present");
    assert_eq!(present.test_cases.len(), 1);
    assert_eq!(present.test_cases[0].test_case_id, "TC-2");
}

#[test]
fn suites_and_cases_join_a_run_exactly_once() {
    let mut target = run();
    attach_suite_to_run(&mut target, &suite("S-1", Vec::new()), "S-1").expect("suite");
    assert!(attach_suite_to_run(&mut target, &suite("S-1", Vec::new()), "S-1").is_err());

    attach_case_to_run(&mut target, &case("TC-1"), "TC-1").expect("case");
    assert!(attach_case_to_run(&mut target, &case("TC-1"), "TC-1").is_err());

    assert_eq!(target.test_suites.map(|suites| suites.len()), Some(1));
    assert_eq!(target.test_cases.map(|cases| cases.len()), Some(1));
}

#[test]
fn a_run_pins_the_first_version_it_captures_for_a_case() {
    let mut target = run();
    capture_case_version(&mut target, "TC-1", Some(3));
    capture_case_version(&mut target, "TC-1", Some(9));

    assert_eq!(
        pinned(&target, "TC-1"),
        Some(3),
        "a second capture must not revise the pinned version"
    );
}

#[test]
fn a_case_without_a_version_is_pinned_as_the_first_revision() {
    let mut target = run();
    capture_case_version(&mut target, "TC-1", None);
    assert_eq!(pinned(&target, "TC-1"), Some(1));
}

#[test]
fn each_case_is_pinned_under_its_own_identifier() {
    let mut target = run();
    capture_case_version(&mut target, "TC-1", Some(2));
    capture_case_version(&mut target, "TC-2", None);

    assert!(target.case_versions.is_some(), "pinned versions");
    assert_eq!(pinned(&target, "TC-1"), Some(2));
    assert_eq!(pinned(&target, "TC-2"), Some(1));
}

#[test]
fn a_second_result_for_a_case_merges_into_the_first() {
    let mut target = run();
    upsert_result(&mut target, update("TC-1", "Untested"));
    upsert_result(&mut target, update("TC-2", "Passed"));
    let mut second = update("TC-1", "Failed");
    second.timestamp = "2".to_owned();
    upsert_result(&mut target, second);

    let results = target.results.expect("results");
    assert_eq!(results.len(), 2);
    assert_eq!(results[0].test_case_id, "TC-1");
    assert_eq!(results[0].status, "Failed");
    assert_eq!(results[0].timestamp, "2");
    assert_eq!(results[1].test_case_id, "TC-2");
}

#[test]
fn a_re_recorded_result_keeps_the_fields_the_request_leaves_out() {
    let mut target = run();
    let mut first = update("TC-1", "Failed");
    first.notes = Patch::Value("flaky on CI".to_owned());
    first.duration_ms = Patch::Value(1200);
    upsert_result(&mut target, first);

    upsert_result(&mut target, update("TC-1", "Passed"));

    let result = &target.results.as_ref().expect("results")[0];
    assert_eq!(result.status, "Passed");
    assert_eq!(result.notes.as_deref(), Some("flaky on CI"));
    assert_eq!(result.duration_ms, Some(1200));
}

#[test]
fn an_explicit_null_clears_a_stored_field() {
    let mut target = run();
    let mut first = update("TC-1", "Failed");
    first.notes = Patch::Value("flaky on CI".to_owned());
    first.duration_ms = Patch::Value(1200);
    upsert_result(&mut target, first);

    let mut clearing = update("TC-1", "Passed");
    clearing.notes = Patch::Clear;
    clearing.duration_ms = Patch::Clear;
    upsert_result(&mut target, clearing);

    let result = &target.results.as_ref().expect("results")[0];
    assert_eq!(result.notes, None);
    assert_eq!(result.duration_ms, None);
}

#[test]
fn a_new_result_stores_what_the_request_describes() {
    let mut target = run();
    let mut described = update("TC-1", "Failed");
    described.notes = Patch::Value("boom".to_owned());
    described.duration_ms = Patch::Value(7);
    upsert_result(&mut target, described);

    let result = &target.results.as_ref().expect("results")[0];
    assert_eq!(result.test_case_id, "TC-1");
    assert_eq!(result.status, "Failed");
    assert_eq!(result.notes.as_deref(), Some("boom"));
    assert_eq!(result.duration_ms, Some(7));
    assert!(result.attachments.is_none());
    assert!(result.defect_links.is_none());
}

#[test]
fn a_new_result_stores_nothing_for_a_field_the_request_leaves_out() {
    let mut target = run();
    let mut described = update("TC-1", "Failed");
    described.notes = Patch::Clear;
    upsert_result(&mut target, described);

    let result = &target.results.as_ref().expect("results")[0];
    assert_eq!(result.notes, None);
    assert_eq!(result.duration_ms, None);
}

#[test]
fn re_recording_keeps_the_defect_links_and_attachments_it_cannot_describe() {
    let mut target = run();
    upsert_result(&mut target, update("TC-1", "Failed"));
    attach_defect_to_result(&mut target, "TC-1", link("L-1", "BUG-42")).expect("link");
    target.results.as_mut().expect("results")[0].attachments = Some(vec![Attachment {
        filename: "failure.log".to_owned(),
        original_name: "failure.log".to_owned(),
        mime_type: "text/plain".to_owned(),
        size: JsonNumber::Decimal("12.0".to_owned()),
        uploaded_at: None,
    }]);

    upsert_result(&mut target, update("TC-1", "Passed"));

    let result = &target.results.as_ref().expect("results")[0];
    assert_eq!(result.status, "Passed");
    assert_eq!(
        result
            .defect_links
            .as_ref()
            .expect("links")
            .iter()
            .map(|link| link.defect_id.as_str())
            .collect::<Vec<_>>(),
        ["BUG-42"]
    );
    assert_eq!(
        result
            .attachments
            .as_ref()
            .expect("attachments")
            .iter()
            .map(|attachment| attachment.filename.as_str())
            .collect::<Vec<_>>(),
        ["failure.log"]
    );
}

#[test]
fn a_run_holds_a_case_it_declares_directly() {
    let mut target = run();
    assert!(!holds_case(&target, "TC-1"));

    target.test_cases = Some(vec![case("TC-1")]);
    assert!(holds_case(&target, "TC-1"));
    assert!(!holds_case(&target, "TC-2"));
}

#[test]
fn a_run_holds_a_case_one_of_its_suites_declares() {
    let mut target = run();
    target.test_suites = Some(vec![suite("S-1", vec![case("TC-1")])]);

    assert!(holds_case(&target, "TC-1"));
    assert!(!holds_case(&target, "TC-2"));
}

#[test]
fn a_run_holds_a_case_it_already_records_a_result_for() {
    let mut target = run();
    upsert_result(&mut target, update("TC-1", "Passed"));

    assert!(holds_case(&target, "TC-1"));
    assert!(!holds_case(&target, "TC-2"));
}

#[test]
fn composition_leaves_the_source_document_untouched() {
    let source = case("TC-1");
    let snapshot = to_serde(&source.to_json());
    let mut target = suite("S-1", Vec::new());
    attach_case_to_suite(&mut target, &source, "TC-1").expect("add");
    target.test_cases[0].title = "changed".to_owned();

    assert_eq!(
        to_serde(&source.to_json()),
        snapshot,
        "the added case must be a copy"
    );
    assert_eq!(
        serde_json::Value::String(source.test_case_id.clone()),
        serde_json::Value::String("TC-1".to_owned())
    );
}

#[test]
fn a_configuration_joins_a_run_as_a_reference_exactly_once() {
    let mut target = run();
    let source = configuration("chrome-linux.json", "chrome-linux");
    attach_configuration_to_run(&mut target, &source, "chrome-linux.json").expect("link");

    let linked = target.configurations.as_ref().expect("linked");
    assert_eq!(linked.len(), 1);
    assert_eq!(linked[0].config_id, "chrome-linux.json");
    assert_eq!(linked[0].name, "chrome-linux");
    assert_eq!(
        linked[0].browser, None,
        "a reference embeds no full document"
    );

    let error = attach_configuration_to_run(&mut target, &source, "chrome-linux.json")
        .expect_err("second link must conflict");
    assert!(matches!(error, DomainError::Conflict(_)));
    assert_eq!(
        target
            .configurations
            .map(|configurations| configurations.len()),
        Some(1)
    );
}

#[test]
fn removing_an_absent_configuration_is_not_found() {
    let mut target = run();
    let error = detach_configuration_from_run(&mut target, "chrome-linux.json")
        .expect_err("absent link");
    assert!(matches!(error, DomainError::NotFound(_)));

    attach_configuration_to_run(
        &mut target,
        &configuration("chrome-linux.json", "chrome-linux"),
        "chrome-linux.json",
    )
    .expect("link");
    detach_configuration_from_run(&mut target, "chrome-linux.json").expect("unlink");
    assert_eq!(
        target
            .configurations
            .map(|configurations| configurations.len()),
        Some(0)
    );
}

#[test]
fn a_defect_joins_a_result_exactly_once() {
    let mut target = run();
    upsert_result(&mut target, update("TC-1", "Failed"));
    attach_defect_to_result(&mut target, "TC-1", link("L-1", "BUG-42")).expect("link");

    let links = target.results.as_ref().expect("results")[0]
        .defect_links
        .as_ref()
        .expect("links");
    assert_eq!(links.len(), 1);
    assert_eq!(links[0].defect_id, "BUG-42");

    let error = attach_defect_to_result(&mut target, "TC-1", link("L-2", "BUG-42"))
        .expect_err("the same defect must conflict");
    assert!(matches!(error, DomainError::Conflict(_)));
    assert_eq!(
        target.results.as_ref().expect("results")[0]
            .defect_links
            .as_ref()
            .map(|links| links.len()),
        Some(1)
    );
}

#[test]
fn linking_a_defect_needs_the_result_it_belongs_to() {
    let mut empty = run();
    let error = attach_defect_to_result(&mut empty, "TC-1", link("L-1", "BUG-42"))
        .expect_err("a run with no results has nothing to link to");
    assert!(matches!(error, DomainError::NotFound(_)));

    let mut other = run();
    upsert_result(&mut other, update("TC-2", "Passed"));
    let error = attach_defect_to_result(&mut other, "TC-1", link("L-1", "BUG-42"))
        .expect_err("the case must be the one the run recorded");
    assert!(matches!(error, DomainError::NotFound(_)));
}

#[test]
fn removing_an_absent_defect_link_is_not_found() {
    let mut target = run();
    let error = detach_defect_from_result(&mut target, "TC-1", "L-1")
        .expect_err("a run with no results has nothing to unlink");
    assert!(matches!(error, DomainError::NotFound(_)));

    upsert_result(&mut target, update("TC-1", "Failed"));
    attach_defect_to_result(&mut target, "TC-1", link("L-1", "BUG-42")).expect("link");
    let error = detach_defect_from_result(&mut target, "TC-1", "L-2")
        .expect_err("the link must be the one the result carries");
    assert!(matches!(error, DomainError::NotFound(_)));

    detach_defect_from_result(&mut target, "TC-1", "L-1").expect("unlink");
    let links = target.results.as_ref().expect("results")[0]
        .defect_links
        .as_ref()
        .expect("links");
    assert!(links.is_empty(), "{links:?}");
}

#[test]
fn unlinking_one_defect_leaves_the_others_in_place() {
    let mut target = run();
    upsert_result(&mut target, update("TC-1", "Failed"));
    attach_defect_to_result(&mut target, "TC-1", link("L-1", "BUG-42")).expect("first");
    attach_defect_to_result(&mut target, "TC-1", link("L-2", "BUG-43")).expect("second");

    detach_defect_from_result(&mut target, "TC-1", "L-1").expect("unlink");

    let links = target.results.as_ref().expect("results")[0]
        .defect_links
        .as_ref()
        .expect("links");
    assert_eq!(links.len(), 1);
    assert_eq!(links[0].defect_id, "BUG-43");
}
