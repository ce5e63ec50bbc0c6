use tucano_domain::error::DomainError;
use tucano_domain::json::{JsonNumber, JsonValue};
use tucano_domain::reports::Scope;
use tucano_domain::service::{ListQuery, TestService};
use tucano_domain::storage::{Parent, Resource};
use tucano_domain::store::Repository;

fn to_value(value: serde_json::Value) -> JsonValue {
    match value {
        serde_json::Value::Null => JsonValue::Null,
        serde_json::Value::Bool(b) => JsonValue::Bool(b),
        serde_json::Value::Number(n) => match (n.as_u64(), n.as_i64()) {
            (Some(u), _) => JsonValue::Number(JsonNumber::Unsigned(u)),
            (None, Some(i)) => JsonValue::Number(JsonNumber::Negative(i)),
            _ => JsonValue::Number(JsonNumber::Decimal(n.to_string())),
        },
        serde_json::Value::String(s) => JsonValue::Str(s),
        serde_json::Value::Array(items) => JsonValue::Array(items.into_iter().map(to_value).collect()),
        serde_json::Value::Object(map) => {
            JsonValue::Object(map.into_iter().map(|(k, v)| (k, to_value(v))).collect())
        }
    }
}

fn json(text: &str) -> JsonValue {
    to_value(serde_json::from_str(text).expect("test JSON"))
}

fn service() -> TestService {
    TestService::new(Repository::new())
}

fn project(service: &mut TestService) -> Parent {
    service
        .create(
            Resource::Projects,
            &json(r#"{ "projectId": "checkout.json", "name": "checkout" }"#),
        )
        .expect("project");
    Parent::Project("checkout.json".to_owned())
}

fn nightly(service: &mut TestService, home: &Parent) {
    service
        .create_in(
            Resource::Runs,
            home,
            &json(
                r#"{ "name": "nightly", "timestamp": "1", "results": [{ "testCaseId": "TC-1", "status": "Passed", "timestamp": "1" }] }"#,
            ),
        )
        .expect("run");
}

fn case(service: &mut TestService, parent: &Parent, id: &str) {
    let body = format!(r#"{{ "testCaseId": "{id}", "title": "T", "expectedResult": "E" }}"#);
    service
        .create_in(Resource::Cases, parent, &json(&body))
        .expect("case");
}

fn recorded(service: &TestService) -> Vec<(String, String)> {
    let run = service.get(Resource::Runs, "nightly.json").expect("run");
    let results = run.get("results").and_then(JsonValue::as_array).expect("results");
    results
        .iter()
        .map(|r| {
            (
                r.str_at("testCaseId").cloned().unwrap_or_default(),
                r.str_at("status").cloned().unwrap_or_default(),
            )
        })
        .collect()
}

#[test]
fn a_junit_import_appends_the_cases_a_run_does_not_record() {
    let mut service = service();
    let home = project(&mut service);
    nightly(&mut service, &home);

    let summary = service
        .import_junit_results(
            "nightly.json",
            r#"<testsuite>
                 <testcase classname="Checkout" name="pays"/>
                 <testcase classname="Checkout" name="declines"><failure message="card"/></testcase>
                 <testcase classname="Checkout" name="pays"/>
               </testsuite>"#,
        )
        .expect("import");
    assert_eq!(summary.imported, 2);
    assert_eq!(summary.duplicates, 1);
    assert_eq!(summary.errors, 0);
    assert_eq!(summary.summary.passed, 1);
    assert_eq!(summary.summary.failed, 1);
    assert_eq!(summary.summary.blocked, 0);
    assert_eq!(
        recorded(&service),
        vec![
            ("TC-1".to_owned(), "Passed".to_owned()),
            ("Checkout.pays".to_owned(), "Passed".to_owned()),
            ("Checkout.declines".to_owned(), "Failed".to_owned()),
        ]
    );

    let malformed = service
        .import_junit_results("nightly.json", "<testsuite>")
        .expect_err("malformed");
    assert!(matches!(malformed, DomainError::InvalidRequest { .. }), "{malformed:?}");
    assert_eq!(recorded(&service).len(), 3);
}

#[test]
fn a_json_import_leaves_recorded_cases_alone() {
    let mut service = service();
    let home = project(&mut service);
    nightly(&mut service, &home);

    let body = json(
        r#"[{ "testCaseId": "TC-1", "status": "Failed" }, { "testCaseId": "TC-9", "status": "Blocked", "notes": "no device" }]"#,
    );
    let summary = service
        .import_json_results("nightly.json", Some(&body))
        .expect("import");
    assert_eq!(summary.imported, 1);
    assert_eq!(summary.duplicates, 1);
    assert_eq!(summary.summary.blocked, 1);
    assert_eq!(
        recorded(&service),
        vec![
            ("TC-1".to_owned(), "Passed".to_owned()),
            ("TC-9".to_owned(), "Blocked".to_owned()),
        ]
    );

    let missing = service
        .import_json_results("weekly.json", Some(&body))
        .expect_err("no such run");
    assert!(matches!(missing, DomainError::NotFound(ref m) if m == "Test run not found"), "{missing:?}");
}

#[test]
fn a_defect_is_linked_to_a_result_once_and_unlinked_once() {
    let mut service = service();
    let home = project(&mut service);
    nightly(&mut service, &home);
    let body = json(
        r#"{ "defectId": "BUG-42", "defectUrl": "https://acme.atlassian.net/browse/BUG-42", "trackerType": "jira", "title": "Checkout fails" }"#,
    );

    let link = service
        .link_defect_to_result("nightly.json", "TC-1", &body)
        .expect("link");
    assert!(link.link_id.starts_with("link-"), "{}", link.link_id);
    assert_eq!(link.defect_id, "BUG-42");
    assert_eq!(link.title.as_deref(), Some("Checkout fails"));
    assert_eq!(link.status, None);

    let listed = service.list_defects("nightly.json", "TC-1").expect("list");
    assert_eq!(listed.len(), 1);
    assert_eq!(listed[0].link_id, link.link_id);

    let twice = service
        .link_defect_to_result("nightly.json", "TC-1", &body)
        .expect_err("linked twice");
    assert!(
        matches!(twice, DomainError::Conflict(ref m) if m == "Defect is already linked to test result"),
        "{twice:?}"
    );
    let no_result = service
        .link_defect_to_result("nightly.json", "TC-2", &body)
        .expect_err("no result");
    assert!(
        matches!(no_result, DomainError::NotFound(ref m) if m == "Test result not found in test run"),
        "{no_result:?}"
    );

    service
        .unlink_defect_from_result("nightly.json", "TC-1", &link.link_id)
        .expect("unlink");
    assert!(service.list_defects("nightly.json", "TC-1").expect("list").is_empty());
    let gone = service
        .unlink_defect_from_result("nightly.json", "TC-1", &link.link_id)
        .expect_err("already unlinked");
    assert!(
        matches!(gone, DomainError::NotFound(ref m) if m == "Defect link not found in test result"),
        "{gone:?}"
    );
}

#[test]
fn coverage_counts_the_cases_each_suite_and_project_holds() {
    let mut service = service();
    let home = project(&mut service);
    service
        .create_in(Resource::Suites, &home, &json(r#"{ "suiteId": "S-1", "name": "smoke" }"#))
        .expect("suite");
    let smoke = Parent::Suite {
        project: "checkout.json".to_owned(),
        suite: "smoke.json".to_owned(),
    };
    case(&mut service, &smoke, "TC-1");
    case(&mut service, &smoke, "TC-2");
    case(&mut service, &home, "TC-3");

    let report = service
        .coverage_report(Scope::Project("checkout.json".to_owned()))
        .expect("coverage");
    assert_eq!(report.project_id.as_deref(), Some("checkout.json"));
    assert_eq!(report.total_cases, 3);
    assert_eq!(report.suites.len(), 1);
    assert_eq!(report.suites[0].suite_id, "smoke.json");
    assert_eq!(report.suites[0].name, "smoke");
    assert_eq!(report.suites[0].case_count, 2);

    let everything = service.coverage_report(Scope::All).expect("coverage");
    assert_eq!(everything.project_id, None);
    assert_eq!(everything.total_cases, 3);

    let missing = service
        .coverage_report(Scope::Project("billing.json".to_owned()))
        .expect_err("no such project");
    assert!(matches!(missing, DomainError::NotFound(ref m) if m == "Project not found"), "{missing:?}");
}

#[test]
fn a_changed_case_keeps_its_previous_version_as_a_revision() {
    let mut service = service();
    let home = project(&mut service);
    case(&mut service, &home, "TC-1");
    assert!(service.list_case_history(&home, "TC-1").expect("history").is_empty());

    service
        .update(Resource::Cases, "TC-1", &json(r#"{ "title": "Pay with a card" }"#))
        .expect("update");

    let history = service.list_case_history(&home, "TC-1").expect("history");
    assert_eq!(history.len(), 1);
    assert_eq!(history[0].version, 1);
    assert_eq!(history[0].changed_fields, vec!["title".to_owned()]);

    let first = service.read_case_revision(&home, "TC-1", 1).expect("revision");
    assert_eq!(first.str_at("title").map(String::as_str), Some("T"));
    let none = service
        .read_case_revision(&home, "TC-1", 2)
        .expect_err("the live version is no revision");
    assert!(matches!(none, DomainError::NotFound(ref m) if m == "Revision not found"), "{none:?}");

    let live = service.get(Resource::Cases, "TC-1").expect("case");
    assert_eq!(live.get("version").and_then(JsonValue::as_u64), Some(2));
}

#[test]
fn children_are_listed_under_a_parent_that_exists() {
    let mut service = service();
    let home = project(&mut service);
    case(&mut service, &home, "TC-2");
    case(&mut service, &home, "TC-1");

    assert_eq!(
        service
            .list_children_matching(&home, Resource::Cases, &ListQuery::default())
            .expect("children"),
        vec!["TC-1".to_owned(), "TC-2".to_owned()]
    );
    let missing = service
        .list_children_matching(
            &Parent::Project("billing.json".to_owned()),
            Resource::Cases,
            &ListQuery::default(),
        )
        .expect_err("no such project");
    assert!(matches!(missing, DomainError::NotFound(ref m) if m == "Project not found"), "{missing:?}");

    assert_eq!(
        service
            .project_of(Resource::Cases, "TC-1", "Test case not found")
            .expect("home"),
        "checkout.json"
    );
    let unknown = service
        .project_of(Resource::Cases, "TC-9", "Test case not found")
        .expect_err("no such case");
    assert!(matches!(unknown, DomainError::NotFound(ref m) if m == "Test case not found"), "{unknown:?}");
}

#[test]
fn importing_the_same_report_twice_records_nothing_new() {
    let mut service = service();
    let home = project(&mut service);
    nightly(&mut service, &home);
    let report = r#"<testsuite>
                      <testcase classname="Checkout" name="pays"/>
                      <testcase classname="Checkout" name="declines"><failure message="card"/></testcase>
                      <testcase classname="Checkout"/>
                    </testsuite>"#;

    let first = service.import_junit_results("nightly.json", report).expect("first import");
    assert_eq!(first.imported, 2);
    let after_first = recorded(&service);

    let second = service.import_junit_results("nightly.json", report).expect("second import");
    assert_eq!(second.imported, 0);
    assert_eq!(second.duplicates, 2);
    assert_eq!(second.errors, first.errors);
    assert_eq!(second.skipped, 2 + first.errors);
    assert_eq!(second.summary.passed, 0);
    assert_eq!(second.summary.failed, 0);
    assert_eq!(second.summary.blocked, 0);
    assert_eq!(recorded(&service), after_first);
}
