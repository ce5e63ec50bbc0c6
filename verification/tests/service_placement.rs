use tucano_domain::error::DomainError;
use tucano_domain::json::{JsonNumber, JsonValue};
use tucano_domain::service::{ListQuery, TestService};
use tucano_domain::storage::{Parent, Resource};
use tucano_domain::store::Repository;

fn to_value(value: serde_json::Value) -> JsonValue {
    match value {
        serde_json::Value::Null => JsonValue::Null,
        serde_json::Value::Bool(b) => JsonValue::Bool(b),
        serde_json::Value::Number(n) => match (n.as_u64(), n.as_i64()) {
            (Some(u), _) => JsonValue::Number(JsonNumber::Unsigned(u)),
            (None, Some(i)) => JsonValue::Number(JsonNumber::Negative(i)),
            _ => JsonValue::Number(JsonNumber::Decimal(n.to_string())),
        },
        serde_json::Value::String(s) => JsonValue::Str(s),
        serde_json::Value::Array(items) => JsonValue::Array(items.into_iter().map(to_value).collect()),
        serde_json::Value::Object(map) => {
            JsonValue::Object(map.into_iter().map(|(k, v)| (k, to_value(v))).collect())
        }
    }
}

fn json(text: &str) -> JsonValue {
    to_value(serde_json::from_str(text).expect("test JSON"))
}

fn to_serde(value: &JsonValue) -> serde_json::Value {
    match value {
        JsonValue::Null => serde_json::Value::Null,
        JsonValue::Bool(b) => serde_json::Value::Bool(*b),
        JsonValue::Number(JsonNumber::Unsigned(n)) => serde_json::Value::from(*n),
        JsonValue::Number(JsonNumber::Negative(n)) => serde_json::Value::from(*n),
        JsonValue::Number(JsonNumber::Decimal(s)) => serde_json::from_str(s).expect("number"),
        JsonValue::Str(s) => serde_json::Value::String(s.clone()),
        JsonValue::Array(items) => serde_json::Value::Array(items.iter().map(to_serde).collect()),
        JsonValue::Object(members) => serde_json::Value::Object(
            members.iter().map(|(k, v)| (k.clone(), to_serde(v))).collect(),
        ),
    }
}

fn sj(text: &str) -> serde_json::Value {
    serde_json::from_str(text).expect("test JSON")
}

fn service() -> TestService {
    TestService::new(Repository::new())
}

fn create_project(service: &mut TestService, name: &str) -> Parent {
    let body = format!(r#"{{ "name": "{name}" }}"#);
    service.create(Resource::Projects, &json(&body)).expect("project");
    Parent::Project(format!("{name}.json"))
}

fn create_in(service: &mut TestService, resource: Resource, parent: &Parent, body: &str) {
    service.create_in(resource, parent, &json(body)).expect("created");
}

fn list(service: &TestService, resource: Resource) -> Vec<String> {
    service.list(resource, &ListQuery::default()).expect("list")
}

#[test]
fn moving_a_suite_brings_its_cases_to_the_new_project() {
    let mut service = service();
    let checkout = create_project(&mut service, "checkout");
    let billing = create_project(&mut service, "billing");
    create_in(&mut service, Resource::Suites, &checkout, r#"{ "name": "smoke" }"#);
    let smoke = Parent::Suite { project: "checkout.json".to_owned(), suite: "smoke.json".to_owned() };
    create_in(&mut service, Resource::Cases, &smoke, r#"{ "testCaseId": "TC-1", "title": "T", "expectedResult": "E" }"#);

    service
        .compose(Resource::Suites, &billing, &json(r#"{ "suiteId": "smoke.json", "mode": "move" }"#))
        .expect("move");

    assert!(service.list_children(&checkout, Resource::Suites).expect("children").is_empty());
    assert_eq!(
        service.list_children(&billing, Resource::Suites).expect("children"),
        vec!["smoke.json".to_owned()]
    );
    let moved = Parent::Suite { project: "billing.json".to_owned(), suite: "smoke.json".to_owned() };
    assert_eq!(
        service.list_children(&moved, Resource::Cases).expect("cases"),
        vec!["TC-1".to_owned()]
    );
    assert!(matches!(
        service.list_children(&smoke, Resource::Cases).expect_err("the old suite is gone"),
        DomainError::NotFound(_)
    ));
    assert_eq!(list(&service, Resource::Cases), vec!["TC-1".to_owned()]);
}

#[test]
fn copying_a_case_keeps_the_source_and_a_taken_target_is_a_conflict() {
    let mut service = service();
    let checkout = create_project(&mut service, "checkout");
    let billing = create_project(&mut service, "billing");
    create_in(&mut service, Resource::Cases, &checkout, r#"{ "testCaseId": "TC-1", "title": "T", "expectedResult": "E" }"#);

    service
        .compose(Resource::Cases, &billing, &json(r#"{ "testCaseId": "TC-1" }"#))
        .expect("copy");
    assert_eq!(service.list_children(&checkout, Resource::Cases).expect("cases"), vec!["TC-1".to_owned()]);
    assert_eq!(service.list_children(&billing, Resource::Cases).expect("cases"), vec!["TC-1".to_owned()]);

    create_in(&mut service, Resource::Cases, &checkout, r#"{ "testCaseId": "TC-2", "title": "T", "expectedResult": "E" }"#);
    create_in(&mut service, Resource::Cases, &billing, r#"{ "testCaseId": "TC-2", "title": "T", "expectedResult": "E" }"#);
    let error = service
        .compose(Resource::Cases, &billing, &json(r#"{ "testCaseId": "TC-2" }"#))
        .expect_err("two homes hold TC-2");
    assert!(matches!(error, DomainError::Conflict(_)));
}

#[test]
fn a_placement_into_a_home_that_already_holds_the_case_is_refused() {
    let mut service = service();
    let checkout = create_project(&mut service, "checkout");
    create_in(&mut service, Resource::Cases, &checkout, r#"{ "testCaseId": "TC-1", "title": "T", "expectedResult": "E" }"#);

    let error = service
        .compose(Resource::Cases, &checkout, &json(r#"{ "testCaseId": "TC-1", "mode": "move" }"#))
        .expect_err("the target holds it");
    assert!(
        matches!(&error, DomainError::Conflict(m) if m == "The target parent already holds a child with this identifier"),
        "{error:?}"
    );
    assert_eq!(service.list_children(&checkout, Resource::Cases).expect("cases"), vec!["TC-1".to_owned()]);
}

#[test]
fn only_suites_and_cases_are_placed_and_a_suite_only_into_a_project() {
    let mut service = service();
    let checkout = create_project(&mut service, "checkout");
    create_in(&mut service, Resource::Suites, &checkout, r#"{ "name": "smoke" }"#);
    create_in(&mut service, Resource::Suites, &checkout, r#"{ "name": "other" }"#);
    let other = Parent::Suite { project: "checkout.json".to_owned(), suite: "other.json".to_owned() };

    let error = service
        .compose(Resource::Suites, &other, &json(r#"{ "suiteId": "smoke.json" }"#))
        .expect_err("a suite inside a suite");
    assert!(
        matches!(&error, DomainError::InvalidRequest { message, .. } if message == "A test suite can only be placed into a project"),
        "{error:?}"
    );

    let error = service
        .compose(Resource::Suites, &checkout, &json(r#"{ "mode": "copy" }"#))
        .expect_err("no identifier");
    assert!(
        matches!(&error, DomainError::InvalidRequest { message, .. } if message == "Required field suiteId is missing"),
        "{error:?}"
    );

    let error = service
        .compose(Resource::Runs, &checkout, &json(r#"{ "mode": "copy" }"#))
        .expect_err("a run is not placed");
    assert!(
        matches!(&error, DomainError::InvalidRequest { message, .. } if message == "A placement request cannot carry the fields that create a new resource"),
        "{error:?}"
    );
}

#[test]
fn removing_a_case_a_suite_does_not_hold_is_not_found() {
    let mut service = service();
    let checkout = create_project(&mut service, "checkout");
    create_in(&mut service, Resource::Suites, &checkout, r#"{ "name": "smoke" }"#);

    let error = service.remove_case_from_suite("smoke.json", "TC-9").expect_err("absent");
    assert!(matches!(&error, DomainError::NotFound(m) if m == "Resource not found"), "{error:?}");
    let error = service.remove_case_from_suite("ghost.json", "TC-9").expect_err("no suite");
    assert!(matches!(&error, DomainError::NotFound(m) if m == "Test suite not found"), "{error:?}");
}

#[test]
fn release_and_environment_names_are_distinct_sorted_and_limited_to_reachable_projects() {
    let mut service = service();
    let checkout = create_project(&mut service, "checkout");
    let billing = create_project(&mut service, "billing");
    create_in(&mut service, Resource::Milestones, &checkout, r#"{ "milestoneId": "M-1", "name": "v2.0" }"#);
    create_in(&mut service, Resource::Milestones, &checkout, r#"{ "milestoneId": "M-2", "name": "v1.0" }"#);
    create_in(&mut service, Resource::Milestones, &billing, r#"{ "milestoneId": "M-3", "name": "v1.0" }"#);
    create_in(&mut service, Resource::Milestones, &billing, r#"{ "milestoneId": "M-4", "name": "v3.0" }"#);
    create_in(&mut service, Resource::Configurations, &billing, r#"{ "name": "chrome" }"#);

    assert_eq!(
        service.release_names(None).expect("names"),
        vec!["v1.0".to_owned(), "v2.0".to_owned(), "v3.0".to_owned()]
    );
    let reachable = ["checkout.json".to_owned()];
    assert_eq!(
        service.release_names(Some(&reachable)).expect("names"),
        vec!["v1.0".to_owned(), "v2.0".to_owned()]
    );
    assert_eq!(service.environment_names(None).expect("names"), vec!["chrome".to_owned()]);
    assert!(service.environment_names(Some(&reachable)).expect("names").is_empty());
}

#[test]
fn step_attachments_need_a_structured_step_and_round_trip() {
    let mut service = service();
    let checkout = create_project(&mut service, "checkout");
    create_in(
        &mut service,
        Resource::Cases,
        &checkout,
        r#"{ "testCaseId": "TC-1", "title": "T", "expectedResult": "E", "steps": ["Open", { "action": "Pick" }] }"#,
    );

    let error = service
        .store_step_attachment(&checkout, "TC-1", 0, "shot.png", b"png")
        .expect_err("a plain step");
    assert!(
        matches!(&error, DomainError::InvalidRequest { message, .. } if message == "Step 0 is a plain string step, not a structured step"),
        "{error:?}"
    );
    let error = service
        .store_step_attachment(&checkout, "TC-1", 7, "shot.png", b"png")
        .expect_err("no such step");
    assert!(
        matches!(&error, DomainError::InvalidRequest { message, .. } if message == "Step index 7 is out of range"),
        "{error:?}"
    );
    let error = service
        .list_step_attachments(&checkout, "TC-9", 1)
        .expect_err("no such case");
    assert!(matches!(&error, DomainError::NotFound(m) if m == "Test case not found"), "{error:?}");

    let stored = service
        .store_step_attachment(&checkout, "TC-1", 1, "shot.png", b"png")
        .expect("stored");
    assert!(stored.filename.ends_with("-shot.png"));
    assert_eq!(stored.size, 3);
    let listed = service.list_step_attachments(&checkout, "TC-1", 1).expect("listed");
    assert_eq!(listed.len(), 1);
    let entry = to_serde(&listed[0]);
    assert_eq!(entry["originalName"], "shot.png");
    assert_eq!(entry["mimeType"], "image/png");
    assert_eq!(entry["size"], 3);

    service
        .delete_step_attachment(&checkout, "TC-1", 1, &stored.filename)
        .expect("deleted");
    assert!(service.list_step_attachments(&checkout, "TC-1", 1).expect("listed").is_empty());
    let error = service
        .delete_step_attachment(&checkout, "TC-1", 1, &stored.filename)
        .expect_err("already gone");
    assert!(matches!(&error, DomainError::NotFound(m) if m == "File not found"), "{error:?}");
}

#[test]
fn an_oversized_upload_is_refused_before_anything_is_written() {
    let mut service = service();
    let checkout = create_project(&mut service, "checkout");
    create_in(&mut service, Resource::Cases, &checkout, r#"{ "testCaseId": "TC-1", "title": "T", "expectedResult": "E" }"#);
    let contents = vec![0u8; 52_428_801];
    let error = service
        .store_attachment(&checkout, "TC-1", "big.bin", &contents)
        .expect_err("too large");
    assert!(matches!(error, DomainError::PayloadTooLarge));
    let document = service.get(Resource::Cases, "TC-1").expect("case");
    assert!(document.get("attachments").is_none());
    let _ = sj("null");
}

#[test]
fn an_attachment_on_a_missing_case_is_not_found() {
    let mut service = service();
    let checkout = create_project(&mut service, "checkout");
    let error = service
        .store_attachment(&checkout, "TC-1", "notes.txt", b"x")
        .expect_err("no case");
    assert!(matches!(&error, DomainError::NotFound(m) if m == "File not found"), "{error:?}");
    let error = service.read_attachment(&checkout, "TC-1", "1-notes.txt").expect_err("no case");
    assert!(matches!(&error, DomainError::NotFound(m) if m == "File not found"), "{error:?}");
}
