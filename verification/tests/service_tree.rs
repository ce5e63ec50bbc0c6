use tucano_domain::duplicate::DuplicateSpec;
use tucano_domain::error::DomainError;
use tucano_domain::json::{JsonNumber, JsonValue};
use tucano_domain::progress::ProgressCounts;
use tucano_domain::reports::SummaryFilters;
use tucano_domain::service::{
    ambiguous, case_content_changed, merged_document, normalise_marker, stamp_case_creation, Composed, Created,
    ListQuery, TestService,
};
use tucano_domain::storage::{Parent, Placement, Resource};
use tucano_domain::store::Repository;

fn to_value(value: serde_json::Value) -> JsonValue {
    match value {
        serde_json::Value::Null => JsonValue::Null,
        serde_json::Value::Bool(b) => JsonValue::Bool(b),
        serde_json::Value::Number(n) => match (n.as_u64(), n.as_i64()) {
            (Some(u), _) => JsonValue::Number(JsonNumber::Unsigned(u)),
            (None, Some(i)) => JsonValue::Number(JsonNumber::Negative(i)),
            _ => JsonValue::Number(JsonNumber::Decimal(n.to_string())),
        },
        serde_json::Value::String(s) => JsonValue::Str(s),
        serde_json::Value::Array(items) => JsonValue::Array(items.into_iter().map(to_value).collect()),
        serde_json::Value::Object(map) => {
            JsonValue::Object(map.into_iter().map(|(k, v)| (k, to_value(v))).collect())
        }
    }
}

fn json(text: &str) -> JsonValue {
    to_value(serde_json::from_str(text).expect("test JSON"))
}

fn to_serde(value: &JsonValue) -> serde_json::Value {
    match value {
        JsonValue::Null => serde_json::Value::Null,
        JsonValue::Bool(b) => serde_json::Value::Bool(*b),
        JsonValue::Number(JsonNumber::Unsigned(n)) => serde_json::Value::from(*n),
        JsonValue::Number(JsonNumber::Negative(n)) => serde_json::Value::from(*n),
        JsonValue::Number(JsonNumber::Decimal(s)) => serde_json::from_str(s).expect("number"),
        JsonValue::Str(s) => serde_json::Value::String(s.clone()),
        JsonValue::Array(items) => serde_json::Value::Array(items.iter().map(to_serde).collect()),
        JsonValue::Object(members) => serde_json::Value::Object(
            members.iter().map(|(k, v)| (k.clone(), to_serde(v))).collect(),
        ),
    }
}

fn sj(text: &str) -> serde_json::Value {
    serde_json::from_str(text).expect("test JSON")
}

/// The pass rate a response reports for these counts.
fn pass_percentage(progress: &ProgressCounts) -> f64 {
    if progress.total_cases > 0 {
        (progress.passed as f64 / progress.total_cases as f64) * 100.0
    } else {
        0.0
    }
}

fn at<'a>(value: &'a JsonValue, key: &str) -> Option<&'a JsonValue> {
    value.get(key)
}

fn text<'a>(value: &'a JsonValue, key: &str) -> Option<&'a str> {
    value.str_at(key).map(String::as_str)
}

fn service() -> TestService {
    TestService::new(Repository::new())
}

fn list(service: &TestService, resource: Resource) -> Vec<String> {
    service
        .list(resource, &ListQuery::default())
        .expect("list should succeed")
}

fn project(service: &mut TestService) -> Parent {
    service
        .create(
            Resource::Projects,
            &json(r#"{ "projectId": "checkout.json", "name": "checkout" }"#),
        )
        .expect("project");
    Parent::Project("checkout.json".to_owned())
}

fn smoke() -> Parent {
    Parent::Suite {
        project: "checkout.json".to_owned(),
        suite: "smoke.json".to_owned(),
    }
}

fn add_suite(service: &mut TestService, project: &Parent) -> Parent {
    service
        .create_in(
            Resource::Suites,
            project,
            &json(r#"{ "suiteId": "S-1", "name": "smoke" }"#),
        )
        .expect("suite");
    smoke()
}

fn case(service: &mut TestService, parent: &Parent, id: &str) {
    let body = format!(r#"{{ "testCaseId": "{id}", "title": "T", "expectedResult": "E" }}"#);
    service
        .create_in(Resource::Cases, parent, &json(&body))
        .expect("case");
}

#[test]
fn tests_reading_a_project_assembles_its_children() {
    let mut service = service();
    let project = project(&mut service);
    let suite = add_suite(&mut service, &project);
    case(&mut service, &suite, "TC-suite");
    case(&mut service, &project, "TC-direct");

    let document = service
        .get(Resource::Projects, "checkout.json")
        .expect("project");
    let suites = at(&document, "testSuites").and_then(JsonValue::as_array).expect("suites");
    assert_eq!(suites.len(), 1);
    assert_eq!(text(&suites[0], "name"), Some("smoke"));
    let suite_cases = at(&suites[0], "testCases").and_then(JsonValue::as_array).expect("cases");
    assert_eq!(text(&suite_cases[0], "testCaseId"), Some("TC-suite"));
    let direct = at(&document, "testCases").and_then(JsonValue::as_array).expect("direct cases");
    assert_eq!(direct.len(), 1);
    assert_eq!(text(&direct[0], "testCaseId"), Some("TC-direct"));

    let suite_document = service.get(Resource::Suites, "smoke.json").expect("suite");
    let cases = at(&suite_document, "testCases").and_then(JsonValue::as_array).expect("cases");
    assert_eq!(text(&cases[0], "testCaseId"), Some("TC-suite"));
}

#[test]
fn tests_a_project_without_direct_cases_omits_the_test_cases_field() {
    let mut service = service();
    project(&mut service);
    let document = service
        .get(Resource::Projects, "checkout.json")
        .expect("project");
    assert!(document.get("testCases").is_none());
    assert_eq!(
        at(&document, "testSuites").and_then(JsonValue::as_array).map(Vec::len),
        Some(0)
    );
}

#[test]
fn tests_an_identifier_in_several_parents_is_a_conflict() {
    let mut service = service();
    let project = project(&mut service);
    let suite = add_suite(&mut service, &project);
    case(&mut service, &project, "TC-1");
    case(&mut service, &suite, "TC-1");

    let error = service
        .get(Resource::Cases, "TC-1")
        .expect_err("ambiguous identifier");
    assert!(matches!(error, DomainError::Conflict(ref message) if message.contains("2 parents")));
    assert_eq!(
        list(&service, Resource::Cases),
        vec!["TC-1".to_owned()],
        "lists de-duplicate rather than fail"
    );
    assert!(service.delete(Resource::Cases, "TC-1").is_err());
}

#[test]
fn tests_deleting_a_project_cascades_through_the_tree() {
    let mut service = service();
    let project = project(&mut service);
    let suite = add_suite(&mut service, &project);
    case(&mut service, &suite, "TC-suite");
    case(&mut service, &project, "TC-direct");

    service
        .delete(Resource::Projects, "checkout.json")
        .expect("cascade");

    assert!(list(&service, Resource::Projects).is_empty());
    assert!(list(&service, Resource::Suites).is_empty());
    assert!(list(&service, Resource::Cases).is_empty());
}

#[test]
fn tests_requiring_a_missing_test_case_is_not_found() {
    let service = service();
    assert!(matches!(
        service.require_test_case("TC-1").expect_err("missing"),
        DomainError::NotFound(_)
    ));
}

fn another_project(service: &mut TestService, name: &str) -> Parent {
    let body = format!(r#"{{ "name": "{name}" }}"#);
    service
        .create(Resource::Projects, &json(&body))
        .expect("project");
    Parent::Project(format!("{name}.json"))
}

fn run_in(service: &mut TestService, home: &Parent, name: &str) {
    let body = format!(
        r#"{{ "name": "{name}", "timestamp": "1", "results": [{{ "testCaseId": "TC-1", "status": "Passed", "timestamp": "1" }}] }}"#
    );
    service
        .create_in(Resource::Runs, home, &json(&body))
        .expect("run");
}

#[test]
fn tests_a_home_preferred_identifier_resolves_the_occurrence_it_names() {
    let mut service = service();
    let checkout = project(&mut service);
    let billing = another_project(&mut service, "billing");
    run_in(&mut service, &checkout, "nightly");
    run_in(&mut service, &billing, "nightly");

    let error = service
        .resolve(Resource::Runs, "nightly.json", None, "Test run not found")
        .expect_err("two homes");
    assert_eq!(
        error.to_string(),
        ambiguous(Resource::Runs, &[checkout.clone(), billing.clone()]).to_string(),
        "the global rule must not pick one of the two"
    );

    assert_eq!(
        service
            .resolve(Resource::Runs, "nightly.json", Some(&billing), "Test run not found")
            .expect("billing's run"),
        billing
    );
    assert_eq!(
        service
            .resolve(Resource::Runs, "nightly.json", Some(&checkout), "Test run not found")
            .expect("checkout's run"),
        checkout
    );

    run_in(&mut service, &checkout, "weekly");
    assert_eq!(
        service
            .resolve(Resource::Runs, "weekly.json", Some(&billing), "Test run not found")
            .expect("one home only"),
        checkout
    );
}

#[test]
fn tests_the_conflict_names_the_parent_scoped_routes_of_its_own_resource() {
    let homes = [
        Parent::Project("billing.json".to_owned()),
        Parent::Project("checkout.json".to_owned()),
    ];
    for (resource, endpoint) in [
        (
            Resource::Runs,
            "POST /projects/{id}/test_runs, or the matching /{run_id} delete",
        ),
        (
            Resource::Milestones,
            "POST /projects/{id}/milestones, or the matching /{milestone_id} delete",
        ),
        (
            Resource::Configurations,
            "POST /projects/{id}/configurations, or the matching /{config_id} delete",
        ),
        (
            Resource::Suites,
            "POST /projects/{id}/test_suites, or the matching /{suite_id} delete",
        ),
        (
            Resource::Cases,
            "POST /projects/{id}/test_cases, POST /test_suites/{id}/test_cases, the matching /{case_id} delete, or the parent-scoped attachment routes /projects/{id}/test_cases/{case_id}/attachments and /test_suites/{id}/test_cases/{case_id}/attachments",
        ),
    ] {
        let message = ambiguous(resource, &homes).to_string();
        assert!(message.contains(endpoint), "{resource:?}: {message}");
        assert!(
            message.contains("2 parents (project billing.json, project checkout.json)"),
            "{resource:?}: {message}"
        );
    }
}

#[test]
fn the_conflict_labels_a_suite_home_so_the_list_counts() {
    let homes = [
        Parent::Project("billing.json".to_owned()),
        Parent::Suite {
            project: "payments.json".to_owned(),
            suite: "smoke.checkout.json".to_owned(),
        },
    ];

    let message = ambiguous(Resource::Cases, &homes).to_string();
    assert!(
        message.contains(
            "2 parents (project billing.json, suite smoke.checkout.json in project payments.json)"
        ),
        "{message}"
    );
}

#[test]
fn composed_message_created() {
    let composed = Composed::Created(Created {
        id: "x.json".to_owned(),
    });
    assert_eq!(composed.message("Test suite"), "Test suite created");
}

#[test]
fn composed_message_copied() {
    let composed = Composed::Placed {
        id: "x.json".to_owned(),
        mode: Placement::Copy,
    };
    assert_eq!(composed.message("Test case"), "Test case copied");
}

#[test]
fn composed_message_moved() {
    let composed = Composed::Placed {
        id: "x.json".to_owned(),
        mode: Placement::Move,
    };
    assert_eq!(composed.message("Test suite"), "Test suite moved");
}

#[test]
fn composed_id_created() {
    let composed = Composed::Created(Created {
        id: "new.json".to_owned(),
    });
    assert_eq!(composed.id(), "new.json");
}

#[test]
fn composed_id_placed() {
    let composed = Composed::Placed {
        id: "placed.json".to_owned(),
        mode: Placement::Copy,
    };
    assert_eq!(composed.id(), "placed.json");
}

#[test]
fn tests_documents_round_trip_through_the_service() {
    let mut service = service();

    let created = service
        .create(Resource::Projects, &json(r#"{ "name": "checkout" }"#))
        .expect("create");
    assert_eq!(created.id, "checkout.json");
    assert_eq!(list(&service, Resource::Projects), vec!["checkout.json"]);

    let stored = service.get(Resource::Projects, "checkout.json").expect("get");
    assert_eq!(to_serde(&stored)["name"], "checkout");

    service
        .update(Resource::Projects, "checkout.json", &json(r#"{ "name": "updated" }"#))
        .expect("update");
    assert_eq!(
        to_serde(&service.get(Resource::Projects, "checkout.json").expect("get"))["name"],
        "updated"
    );

    service.delete(Resource::Projects, "checkout.json").expect("delete");
    assert!(service.get(Resource::Projects, "checkout.json").is_err());
    assert!(list(&service, Resource::Projects).is_empty());
}

#[test]
fn tests_creating_a_duplicate_is_a_conflict() {
    let mut service = service();
    service
        .create(Resource::Projects, &json(r#"{ "name": "checkout" }"#))
        .expect("create");

    let error = service
        .create(Resource::Projects, &json(r#"{ "name": "checkout" }"#))
        .expect_err("duplicate");
    assert!(matches!(error, DomainError::Conflict(_)));
}

#[test]
fn tests_an_unknown_field_is_rejected_before_anything_is_persisted() {
    let mut service = service();

    let error = service
        .create(Resource::Projects, &json(r#"{ "name": "alpha", "sneaky": 1 }"#))
        .expect_err("unknown field");
    assert!(matches!(
        error,
        DomainError::InvalidRequest {
            code: "invalid_request",
            ..
        }
    ));
    assert!(
        list(&service, Resource::Projects).is_empty(),
        "a rejected payload must not be stored"
    );
}

#[test]
fn tests_updating_a_missing_document_is_not_found() {
    let mut service = service();
    let error = service
        .update(Resource::Projects, "missing.json", &json(r#"{ "name": "missing" }"#))
        .expect_err("missing");
    assert!(matches!(error, DomainError::NotFound(_)));
}

#[test]
fn tests_listing_filters_by_substring_and_by_tag() {
    let mut service = service();
    service
        .create(Resource::Projects, &json(r#"{ "name": "alpha" }"#))
        .expect("alpha");
    service
        .create(Resource::Projects, &json(r#"{ "name": "beta", "tags": ["Smoke"] }"#))
        .expect("beta");

    let filtered = service
        .list(
            Resource::Projects,
            &ListQuery {
                configuration: None,
                filter: Some("ALPH".to_owned()),
                tags: None,
            },
        )
        .expect("filter");
    assert_eq!(filtered, vec!["alpha.json"]);

    let tagged = service
        .list(
            Resource::Projects,
            &ListQuery {
                configuration: None,
                filter: None,
                tags: Some(" smoke ".to_owned()),
            },
        )
        .expect("tags");
    assert_eq!(tagged, vec!["beta.json"]);

    let untagged = service
        .list(
            Resource::Projects,
            &ListQuery {
                configuration: None,
                filter: None,
                tags: Some("does-not-exist".to_owned()),
            },
        )
        .expect("tags");
    assert!(untagged.is_empty());
}

#[test]
fn tests_runs_are_listed_by_the_configuration_they_link() {
    let mut service = service();
    let home = project(&mut service);
    for (id, name) in [("R-1", "nightly"), ("R-2", "weekly"), ("R-3", "release")] {
        let body = format!(r#"{{ "testRunId": "{id}", "name": "{name}", "timestamp": "1", "tags": ["ci"] }}"#);
        service.create_in(Resource::Runs, &home, &json(&body)).expect("run");
    }
    for name in ["chrome-linux", "firefox-windows"] {
        let body = format!(r#"{{ "name": "{name}" }}"#);
        service
            .create_in(Resource::Configurations, &home, &json(&body))
            .expect("configuration");
    }
    for (run, configuration) in [
        ("nightly.json", "chrome-linux.json"),
        ("weekly.json", "firefox-windows.json"),
    ] {
        let body = format!(r#"{{ "configId": "{configuration}" }}"#);
        service.link_configuration_to_run(run, &json(&body)).expect("link");
    }

    let query = |configuration: &str| ListQuery {
        configuration: Some(configuration.to_owned()),
        ..ListQuery::default()
    };

    assert_eq!(
        service.list(Resource::Runs, &query("chrome-linux.json")).unwrap(),
        vec!["nightly.json"]
    );
    assert_eq!(
        service.list(Resource::Runs, &query("firefox-windows.json")).unwrap(),
        vec!["weekly.json"]
    );
    assert_eq!(
        service.list(Resource::Runs, &query("firefox-linux.json")).unwrap(),
        Vec::<String>::new()
    );

    let composed = ListQuery {
        filter: Some("NIGHT".to_owned()),
        tags: Some(" ci ".to_owned()),
        configuration: Some("chrome-linux.json".to_owned()),
    };
    assert_eq!(service.list(Resource::Runs, &composed).unwrap(), vec!["nightly.json"]);

    let tag_only = ListQuery {
        tags: Some("ci".to_owned()),
        configuration: Some("chrome-linux.json".to_owned()),
        ..ListQuery::default()
    };
    assert_eq!(service.list(Resource::Runs, &tag_only).unwrap(), vec!["nightly.json"]);

    assert_eq!(
        service
            .list(Resource::Configurations, &query("chrome-linux.json"))
            .unwrap(),
        vec!["chrome-linux.json", "firefox-windows.json"]
    );
}

#[test]
fn tests_markers_store_empty_child_arrays() {
    let mut service = service();
    let project = project(&mut service);
    service
        .create_in(
            Resource::Suites,
            &project,
            &json(
                r#"{
                    "suiteId": "S-1",
                    "name": "smoke",
                    "testCases": [{
                        "testCaseId": "TC-ignored",
                        "title": "ignored",
                        "expectedResult": "ignored"
                    }]
                }"#,
            ),
        )
        .expect("suite");

    let suite = Parent::Suite {
        project: "checkout.json".to_owned(),
        suite: "smoke.json".to_owned(),
    };
    case(&mut service, &suite, "TC-real");

    let marker = service
        .repository()
        .read_at(Resource::Suites, Some(&project), "smoke.json")
        .expect("marker");
    assert_eq!(
        to_serde(&marker)["testCases"].as_array().map(Vec::len),
        Some(0),
        "the marker must not duplicate membership"
    );

    assert_eq!(
        list(&service, Resource::Cases),
        vec!["TC-real".to_owned()],
        "only folders are children"
    );

    let project_marker = service
        .repository()
        .read_at(Resource::Projects, None, "checkout.json")
        .expect("project marker");
    assert_eq!(
        to_serde(&project_marker)["testSuites"].as_array().map(Vec::len),
        Some(0)
    );
}

#[test]
fn tests_cases_join_suites_by_copy_and_leave_the_source_alone() {
    let mut service = service();
    let project = project(&mut service);
    add_suite(&mut service, &project);
    case(&mut service, &project, "TC-001");

    service
        .add_case_to_suite("smoke.json", &json(r#"{ "testCaseId": "TC-001" }"#))
        .expect("copied into the suite");
    let suite_document = service.get(Resource::Suites, "smoke.json").expect("suite");
    assert_eq!(
        to_serde(&suite_document)["testCases"].as_array().map(Vec::len),
        Some(1)
    );

    let duplicate = service
        .add_case_to_suite("smoke.json", &json(r#"{ "testCaseId": "TC-001" }"#))
        .expect_err("the suite already owns the case");
    assert!(matches!(duplicate, DomainError::Conflict(_)));

    let missing = service
        .add_case_to_suite("smoke.json", &json("{}"))
        .expect_err("missing field");
    assert!(matches!(missing, DomainError::InvalidRequest { .. }));

    assert!(matches!(
        service.require_test_case("TC-001").expect_err("two occurrences"),
        DomainError::Conflict(_)
    ));

    service
        .remove_case_from_suite("smoke.json", "TC-001")
        .expect("remove");
    let suite_document = service.get(Resource::Suites, "smoke.json").expect("suite");
    assert_eq!(
        to_serde(&suite_document)["testCases"].as_array().map(Vec::len),
        Some(0)
    );

    let project_document = service.get(Resource::Projects, "checkout.json").expect("project");
    assert_eq!(
        to_serde(&project_document)["testCases"].as_array().map(Vec::len),
        Some(1),
        "the copied case left the project's own case untouched"
    );
}

#[test]
fn tests_moving_a_case_leaves_it_with_one_home() {
    let mut service = service();
    let project = project(&mut service);
    let suite = add_suite(&mut service, &project);
    case(&mut service, &project, "TC-001");

    let composed = service
        .compose(
            Resource::Cases,
            &suite,
            &json(r#"{ "testCaseId": "TC-001", "mode": "move" }"#),
        )
        .expect("move");
    assert_eq!(
        composed,
        Composed::Placed {
            id: "TC-001".to_owned(),
            mode: Placement::Move
        }
    );

    let document = service.get(Resource::Projects, "checkout.json").expect("project");
    assert!(document.get("testCases").is_none(), "the old home lost it");
    let suite_document = service.get(Resource::Suites, "smoke.json").expect("suite");
    assert_eq!(
        to_serde(&suite_document)["testCases"].as_array().map(Vec::len),
        Some(1)
    );
    assert_eq!(list(&service, Resource::Cases), vec!["TC-001".to_owned()]);
}

#[test]
fn tests_a_suite_can_be_placed_into_another_project() {
    let mut service = service();
    let project = project(&mut service);
    add_suite(&mut service, &project);
    service
        .create(Resource::Projects, &json(r#"{ "name": "other" }"#))
        .expect("other project");
    let other = Parent::Project("other.json".to_owned());

    service
        .compose(Resource::Suites, &other, &json(r#"{ "suiteId": "smoke.json" }"#))
        .expect("copy");

    assert_eq!(
        service.list_children(&other, Resource::Suites).expect("children"),
        vec!["smoke.json".to_owned()]
    );
    assert_eq!(
        service.list_children(&project, Resource::Suites).expect("children"),
        vec!["smoke.json".to_owned()],
        "a copy leaves the source in place"
    );
}

#[test]
fn tests_composition_grammar_rejects_mixed_and_unknown_modes() {
    let mut service = service();
    let project = project(&mut service);

    let mixed = service
        .compose(Resource::Suites, &project, &json(r#"{ "name": "smoke", "mode": "copy" }"#))
        .expect_err("mixed");
    assert!(matches!(mixed, DomainError::InvalidRequest { .. }));

    let unknown = service
        .compose(
            Resource::Suites,
            &project,
            &json(r#"{ "suiteId": "smoke.json", "mode": "sideways" }"#),
        )
        .expect_err("unknown mode");
    assert!(matches!(unknown, DomainError::InvalidRequest { .. }));

    let unnamed = service
        .compose(Resource::Suites, &project, &json("{}"))
        .expect_err("nothing to create or place");
    assert!(matches!(unnamed, DomainError::InvalidRequest { .. }));
}

#[test]
fn tests_creating_in_a_missing_parent_is_not_found() {
    let mut service = service();
    let missing = Parent::Project("ghost.json".to_owned());
    let error = service
        .create_in(Resource::Suites, &missing, &json(r#"{ "suiteId": "S-1", "name": "smoke" }"#))
        .expect_err("no project");
    assert!(matches!(error, DomainError::NotFound(ref m) if m == "Project not found"));
    assert!(list(&service, Resource::Suites).is_empty());
}

#[test]
fn tests_duplicating_a_project_stores_a_copy_under_a_new_identifier() {
    let mut service = service();
    service
        .create(
            Resource::Projects,
            &json(r#"{ "projectId": "checkout.json", "name": "checkout" }"#),
        )
        .expect("create");

    let new_id = service
        .duplicate(&DuplicateSpec::project(), "checkout.json", &json(r#"{ "newId": "P-2.json" }"#))
        .expect("duplicate");
    assert_eq!(new_id, "P-2.json");

    let copy = to_serde(&service.get(Resource::Projects, "P-2.json").expect("copy"));
    assert_eq!(copy["projectId"], "P-2.json");
    assert_eq!(copy["name"], "checkout");
    assert!(
        service.get(Resource::Projects, "checkout.json").is_ok(),
        "the source must remain"
    );
}

#[test]
fn tests_a_duplicated_suite_stays_in_its_project() {
    let mut service = service();
    let project = project(&mut service);
    service
        .create_in(Resource::Suites, &project, &json(r#"{ "suiteId": "S-1", "name": "smoke" }"#))
        .expect("suite");

    let new_id = service
        .duplicate(&DuplicateSpec::suite(), "smoke.json", &json(r#"{ "newId": "S-2.json" }"#))
        .expect("duplicate");
    assert_eq!(new_id, "S-2.json");
    assert_eq!(
        service.list_children(&project, Resource::Suites).expect("children"),
        vec!["S-2.json".to_owned(), "smoke.json".to_owned()]
    );
}

#[test]
fn tests_duplicating_onto_an_existing_identifier_is_a_conflict() {
    let mut service = service();
    service
        .create(Resource::Projects, &json(r#"{ "name": "checkout" }"#))
        .expect("source");
    service
        .create(Resource::Projects, &json(r#"{ "name": "occupied" }"#))
        .expect("target");

    let error = service
        .duplicate(
            &DuplicateSpec::project(),
            "checkout.json",
            &json(r#"{ "newId": "occupied.json" }"#),
        )
        .expect_err("duplicate onto an occupied id");
    assert!(matches!(error, DomainError::Conflict(_)));

    let target = service.get(Resource::Projects, "occupied.json").expect("target intact");
    assert_eq!(to_serde(&target)["name"], "occupied");
}

#[test]
fn tests_duplicating_a_missing_document_reports_the_named_entity() {
    let mut service = service();
    let error = service
        .duplicate(&DuplicateSpec::run(), "missing.json", &json("{}"))
        .expect_err("missing");
    assert!(matches!(error, DomainError::NotFound(message) if message == "Test run not found"));
}

#[test]
fn tests_run_results_are_recorded_and_updated() {
    let mut service = service();
    let home = project(&mut service);
    service
        .create_in(
            Resource::Runs,
            &home,
            &json(
                r#"{
                    "testRunId": "R-1",
                    "name": "nightly",
                    "timestamp": "1",
                    "testCases": [{ "testCaseId": "TC-1", "title": "T", "expectedResult": "E" }]
                }"#,
            ),
        )
        .expect("run");

    service
        .record_run_result("nightly.json", &json(r#"{ "testCaseId": "TC-1", "status": "Passed" }"#))
        .expect("record");
    service
        .record_run_result(
            "nightly.json",
            &json(r#"{ "testCaseId": "TC-1", "status": "Failed", "notes": "flaky" }"#),
        )
        .expect("update");

    let run = to_serde(&service.get(Resource::Runs, "nightly.json").expect("run"));
    let results = run["results"].as_array().expect("results");
    assert_eq!(results.len(), 1);
    assert_eq!(results[0]["status"], "Failed");
    assert_eq!(results[0]["notes"], "flaky");

    let invalid = service
        .record_run_result("nightly.json", &json(r#"{ "testCaseId": "TC-1", "status": "Nope" }"#))
        .expect_err("bad status");
    assert!(matches!(
        invalid,
        DomainError::InvalidRequest {
            code: "invalid_status",
            ..
        }
    ));
}

#[test]
fn tests_a_result_for_a_case_the_run_does_not_hold_is_not_found() {
    let mut service = service();
    let home = project(&mut service);
    run_in(&mut service, &home, "nightly");

    service
        .record_run_result("nightly.json", &json(r#"{ "testCaseId": "TC-1", "status": "Failed" }"#))
        .expect("a case the run already records stays writable");

    let error = service
        .record_run_result("nightly.json", &json(r#"{ "testCaseId": "TC-2", "status": "Failed" }"#))
        .expect_err("a case the run never picked up");
    assert!(matches!(error, DomainError::NotFound(message) if message == "Test case not in test run"));
}

#[test]
fn tests_a_result_body_is_rejected_rather_than_read_field_by_field() {
    let mut service = service();
    let home = project(&mut service);
    run_in(&mut service, &home, "nightly");

    let unknown = service
        .record_run_result(
            "nightly.json",
            &json(r#"{ "testCaseId": "TC-1", "status": "Passed", "outcome": "ok" }"#),
        )
        .expect_err("unknown field");
    assert!(
        matches!(unknown, DomainError::InvalidRequest { ref message, .. } if message == "Unknown field `outcome`"),
        "{unknown:?}"
    );

    for body in [
        r#"{ "testCaseId": "TC-1", "status": "Passed", "notes": 3 }"#,
        r#"{ "testCaseId": "TC-1", "status": "Passed", "durationMs": -5 }"#,
        r#"{ "testCaseId": "TC-1", "status": "Passed", "durationMs": 1.5 }"#,
        r#"{ "testCaseId": "TC-1", "status": "Passed", "durationMs": "5" }"#,
        r#"{ "testCaseId": "TC-1", "status": "Passed", "timestamp": 5 }"#,
        r#"{ "testCaseId": "TC-1", "status": "Passed", "timestamp": "" }"#,
        r#"{ "testCaseId": "TC-1", "status": "Passed" , "status2": "x"}"#,
    ] {
        let error = service
            .record_run_result("nightly.json", &json(body))
            .expect_err("malformed field");
        assert!(
            matches!(error, DomainError::InvalidRequest { .. }),
            "{body} must be a 400, got {error:?}"
        );
    }
}

#[test]
fn tests_a_re_recorded_result_keeps_what_the_request_leaves_out() {
    let mut service = service();
    let home = project(&mut service);
    run_in(&mut service, &home, "nightly");

    service
        .record_run_result(
            "nightly.json",
            &json(
                r#"{
                    "testCaseId": "TC-1",
                    "status": "Failed",
                    "notes": "flaky on CI",
                    "durationMs": 1200
                }"#,
            ),
        )
        .expect("record");

    service
        .record_run_result("nightly.json", &json(r#"{ "testCaseId": "TC-1", "status": "Passed" }"#))
        .expect("update");

    let run = to_serde(&service.get(Resource::Runs, "nightly.json").expect("run"));
    let result = &run["results"][0];
    assert_eq!(result["status"], "Passed");
    assert_eq!(result["notes"], "flaky on CI");
    assert_eq!(result["durationMs"], 1200);

    service
        .record_run_result(
            "nightly.json",
            &json(r#"{ "testCaseId": "TC-1", "status": "Passed", "notes": null, "durationMs": null }"#),
        )
        .expect("clear");

    let run = to_serde(&service.get(Resource::Runs, "nightly.json").expect("run"));
    assert_eq!(run["results"][0].get("notes"), None);
    assert_eq!(run["results"][0].get("durationMs"), None);
}

#[test]
fn tests_a_run_embeds_a_snapshot_of_the_case_it_selected() {
    let mut service = service();
    let project = project(&mut service);
    case(&mut service, &project, "TC-1");
    service
        .create_in(
            Resource::Runs,
            &project,
            &json(r#"{ "testRunId": "R-1", "name": "nightly", "timestamp": "1" }"#),
        )
        .expect("run");

    service
        .add_case_to_run("nightly.json", &json(r#"{ "testCaseId": "TC-1" }"#))
        .expect("add");

    service
        .update(
            Resource::Cases,
            "TC-1",
            &json(
                r#"{
                    "testCaseId": "TC-1",
                    "title": "changed",
                    "expectedResult": "changed"
                }"#,
            ),
        )
        .expect("update");

    let run = to_serde(&service.get(Resource::Runs, "nightly.json").expect("run"));
    assert_eq!(run["testCases"][0]["title"], "T");
}

#[test]
fn tests_milestone_progress_reads_the_referenced_runs() {
    let mut service = service();
    let home = project(&mut service);
    service
        .create_in(
            Resource::Runs,
            &home,
            &json(
                r#"{
                    "testRunId": "R-1",
                    "name": "nightly",
                    "timestamp": "1",
                    "results": [
                        { "testCaseId": "TC-1", "status": "Passed", "timestamp": "1" },
                        { "testCaseId": "TC-2", "status": "Failed", "timestamp": "1" },
                        { "testCaseId": "TC-3", "status": "Blocked", "timestamp": "1" }
                    ]
                }"#,
            ),
        )
        .expect("run");
    service
        .create_in(
            Resource::Milestones,
            &home,
            &json(r#"{ "milestoneId": "M-1", "name": "v1.0", "testRunIds": ["nightly.json"] }"#),
        )
        .expect("milestone");

    let progress = service.milestone_progress("M-1.json").expect("progress");
    assert_eq!(progress.milestone_id, "M-1");
    assert_eq!(progress.total_cases, 3);
    assert_eq!(progress.passed, 1);
    assert_eq!(pass_percentage(&progress), 33.33333333333333);
}

#[test]
fn tests_milestone_progress_counts_every_case_a_run_holds_once() {
    let mut service = service();
    let home = project(&mut service);
    let suite = add_suite(&mut service, &home);
    for id in ["TC-1", "TC-2", "TC-3"] {
        case(&mut service, &suite, id);
    }

    service
        .create_in(
            Resource::Runs,
            &home,
            &json(
                r#"{
                    "testRunId": "R-1",
                    "name": "nightly",
                    "timestamp": "1",
                    "testCases": [{ "testCaseId": "TC-1", "title": "T", "expectedResult": "E" }]
                }"#,
            ),
        )
        .expect("run");
    service
        .add_suite_to_run("nightly.json", &json(r#"{ "suiteId": "smoke.json" }"#))
        .expect("link suite");
    for (id, status) in [("TC-2", "Passed"), ("TC-3", "Failed")] {
        let body = format!(r#"{{ "testCaseId": "{id}", "status": "{status}", "timestamp": "1" }}"#);
        service.record_run_result("nightly.json", &json(&body)).expect("record");
    }
    service
        .create_in(
            Resource::Milestones,
            &home,
            &json(r#"{ "milestoneId": "M-1", "name": "v1.0", "testRunIds": ["nightly.json"] }"#),
        )
        .expect("milestone");

    let progress = service.milestone_progress("M-1.json").expect("progress");
    assert_eq!(progress.total_cases, 3);
    assert_eq!(progress.passed, 1);
    assert_eq!(progress.failed, 1);
    assert_eq!(progress.blocked, 0);
    assert_eq!(progress.untested, 1);
    assert_eq!(progress.retest, 0);
    assert_eq!(
        progress.passed + progress.failed + progress.blocked + progress.untested + progress.retest,
        progress.total_cases
    );
    assert_eq!(pass_percentage(&progress), 33.33333333333333);
}

#[test]
fn tests_progress_for_a_missing_milestone_is_not_found() {
    let service = service();
    let error = service.milestone_progress("missing.json").expect_err("missing");
    assert!(matches!(error, DomainError::NotFound(message) if message == "Milestone not found"));
}

#[test]
fn tests_attachments_are_recorded_in_the_case_and_round_trip() {
    let mut service = service();
    let project = project(&mut service);
    case(&mut service, &project, "TC-1");

    let parent = service.require_test_case("TC-1").expect("parent");
    let stored = service
        .store_attachment(&parent, "TC-1", "notes.txt", b"evidence")
        .expect("store");
    assert_eq!(stored.original_name, "notes.txt");
    assert_eq!(stored.size, 8);
    assert!(stored.filename.ends_with("-notes.txt"));

    assert_eq!(
        service.read_attachment(&parent, "TC-1", &stored.filename).expect("read"),
        b"evidence"
    );

    let document = to_serde(&service.get(Resource::Cases, "TC-1").expect("case"));
    assert_eq!(
        document["attachments"][0]["filename"],
        serde_json::Value::String(stored.filename.clone())
    );
    assert_eq!(document["attachments"][0]["originalName"], "notes.txt");
    assert_eq!(document["attachments"][0]["mimeType"], "text/plain");

    service
        .delete_attachment(&parent, "TC-1", &stored.filename)
        .expect("delete");
    assert!(service.read_attachment(&parent, "TC-1", &stored.filename).is_err());
    let document = service.get(Resource::Cases, "TC-1").expect("case");
    assert!(document.get("attachments").is_none());
}

#[test]
fn tests_an_ambiguous_identifier_names_both_homes() {
    let mut service = service();
    let checkout = project(&mut service);
    let billing = another_project(&mut service, "billing");
    run_in(&mut service, &checkout, "nightly");
    run_in(&mut service, &billing, "nightly");

    let error = service.get(Resource::Runs, "nightly.json").expect_err("ambiguous");
    match error {
        DomainError::Conflict(message) => {
            assert!(message.contains("2 parents"), "{message}");
            assert!(message.contains("billing.json"), "{message}");
            assert!(message.contains("checkout.json"), "{message}");
            assert!(
                message.contains("POST /projects/{id}/test_runs"),
                "the conflict must name the parent-scoped route: {message}"
            );
        }
        other => panic!("expected a conflict, got {other:?}"),
    }

    assert!(matches!(
        service
            .record_run_result("nightly.json", &json(r#"{ "testCaseId": "TC-9", "status": "Passed" }"#))
            .expect_err("ambiguous"),
        DomainError::Conflict(_)
    ));
}

#[test]
fn tests_the_retired_flat_creates_name_their_replacement() {
    let mut service = service();
    project(&mut service);

    for (resource, body, message) in [
        (
            Resource::Runs,
            r#"{ "name": "nightly", "timestamp": "1" }"#,
            "Test runs are created inside a project: POST /projects/{id}/test_runs",
        ),
        (
            Resource::Milestones,
            r#"{ "name": "v1.0" }"#,
            "Milestones are created inside a project: POST /projects/{id}/milestones",
        ),
        (
            Resource::Configurations,
            r#"{ "name": "chrome" }"#,
            "Configurations are created inside a project: POST /projects/{id}/configurations",
        ),
    ] {
        let error = service.create(resource, &json(body)).expect_err("retired route");
        match error {
            DomainError::InvalidRequest { code, message: got } => {
                assert_eq!(code, "invalid_request", "{resource:?}");
                assert_eq!(got, message, "{resource:?}");
            }
            other => panic!("{resource:?} produced {other:?}"),
        }
        assert!(
            list(&service, resource).is_empty(),
            "{resource:?}: a retired route must store nothing"
        );
    }
}

#[test]
fn tests_an_identifier_no_project_holds_is_not_found() {
    let mut service = service();
    project(&mut service);

    for resource in [Resource::Runs, Resource::Milestones, Resource::Configurations] {
        let error = service
            .resolve(resource, "missing.json", None, "Resource not found")
            .expect_err("nothing holds it");
        assert!(
            matches!(&error, DomainError::NotFound(message) if message == "Resource not found"),
            "{resource:?} produced {error:?}"
        );
    }

    assert!(matches!(
        service.milestone_progress("missing.json").expect_err("missing"),
        DomainError::NotFound(message) if message == "Milestone not found"
    ));
}

#[test]
fn tests_duplicating_a_run_stores_the_copy_in_its_own_home() {
    let mut service = service();
    let checkout = project(&mut service);
    let billing = another_project(&mut service, "billing");
    run_in(&mut service, &billing, "nightly");

    let new_id = service
        .duplicate(&DuplicateSpec::run(), "nightly.json", &json("{}"))
        .expect("duplicate");

    let copies = service.list_children(&billing, Resource::Runs).expect("billing's runs");
    assert_eq!(copies.len(), 2, "{copies:?}");
    assert!(copies.contains(&new_id), "{copies:?}");
    assert!(
        service
            .list_children(&checkout, Resource::Runs)
            .expect("checkout's runs")
            .is_empty(),
        "a duplicate must not move or copy into another project"
    );
}

#[test]
fn tests_the_summary_report_counts_two_runs_sharing_an_identifier() {
    let mut service = service();
    let checkout = project(&mut service);
    let billing = another_project(&mut service, "billing");
    run_in(&mut service, &checkout, "nightly");
    run_in(&mut service, &billing, "nightly");

    assert_eq!(
        list(&service, Resource::Runs),
        vec!["nightly.json".to_owned()],
        "the listing still de-duplicates"
    );

    let report = service
        .summary_report(&SummaryFilters::default(), None)
        .expect("report");
    assert_eq!(report.total, 2, "one result per project's run");
    assert_eq!(report.passed, 2);
}

#[test]
fn tests_milestone_progress_prefers_its_own_home_for_a_shared_identifier() {
    let mut service = service();
    let checkout = project(&mut service);
    let billing = another_project(&mut service, "billing");
    run_in(&mut service, &checkout, "nightly");
    run_in(&mut service, &billing, "nightly");
    let platform = another_project(&mut service, "platform");
    service
        .create_in(
            Resource::Milestones,
            &platform,
            &json(r#"{ "name": "v1.0", "testRunIds": ["nightly.json"] }"#),
        )
        .expect("milestone");

    let error = service
        .milestone_progress("v1.0.json")
        .expect_err("two runs answer to the reference");
    assert!(
        matches!(&error, DomainError::Conflict(_)),
        "an arbitrary pick would report a wrong number, got {error:?}"
    );
}

#[test]
fn tests_milestone_progress_resolves_a_shared_identifier_from_its_home() {
    let mut service = service();
    let checkout = project(&mut service);
    let billing = another_project(&mut service, "billing");
    run_in(&mut service, &checkout, "nightly");
    run_in(&mut service, &billing, "nightly");
    service
        .create_in(
            Resource::Milestones,
            &billing,
            &json(r#"{ "name": "v1.0", "testRunIds": ["nightly.json"] }"#),
        )
        .expect("milestone");

    let progress = service.milestone_progress("v1.0.json").expect("progress");
    assert_eq!(progress.total_cases, 1);
    assert_eq!(progress.passed, 1);
}

#[test]
fn tests_milestone_progress_skips_a_reference_no_project_holds() {
    let mut service = service();
    let checkout = project(&mut service);
    run_in(&mut service, &checkout, "nightly");
    service
        .create_in(
            Resource::Milestones,
            &checkout,
            &json(r#"{ "name": "v1.0", "testRunIds": ["nightly.json", "deleted.json"] }"#),
        )
        .expect("milestone");

    let progress = service.milestone_progress("v1.0.json").expect("progress");
    assert_eq!(
        progress.total_cases, 1,
        "progress recomputes over the runs that still exist"
    );
}

#[test]
fn tests_a_run_links_the_configuration_its_own_home_holds() {
    let mut service = service();
    let checkout = project(&mut service);
    let billing = another_project(&mut service, "billing");
    for home in [&checkout, &billing] {
        service
            .create_in(Resource::Configurations, home, &json(r#"{ "name": "chrome" }"#))
            .expect("configuration");
    }
    run_in(&mut service, &billing, "nightly");

    assert!(matches!(
        service
            .document(Resource::Configurations, "chrome.json")
            .expect_err("two homes"),
        DomainError::Conflict(_)
    ));
    service
        .link_configuration_to_run("nightly.json", &json(r#"{ "configId": "chrome.json" }"#))
        .expect("the run's own configuration");

    let run = to_serde(&service.get(Resource::Runs, "nightly.json").expect("run"));
    assert_eq!(run["configurations"][0]["configId"], "chrome.json");

    service
        .unlink_configuration_from_run("nightly.json", "chrome.json")
        .expect("unlink");
    let run = to_serde(&service.get(Resource::Runs, "nightly.json").expect("run"));
    assert!(run["configurations"].as_array().is_none_or(Vec::is_empty));
}

#[test]
fn tests_a_write_goes_back_to_the_home_the_read_resolved() {
    let mut service = service();
    let checkout = project(&mut service);
    let billing = another_project(&mut service, "billing");
    run_in(&mut service, &billing, "nightly");

    service
        .record_run_result("nightly.json", &json(r#"{ "testCaseId": "TC-1", "status": "Failed" }"#))
        .expect("record");

    assert_eq!(
        service.list_children(&billing, Resource::Runs).expect("billing's runs"),
        vec!["nightly.json".to_owned()],
        "the write must not create a second occurrence elsewhere"
    );
    assert!(service
        .list_children(&checkout, Resource::Runs)
        .expect("checkout's runs")
        .is_empty());

    let run = to_serde(&service.get(Resource::Runs, "nightly.json").expect("run"));
    let results = run["results"].as_array().expect("results");
    assert_eq!(results.len(), 1);
    assert_eq!(results[0]["status"], "Failed");
}

#[test]
fn tests_a_parent_addressed_read_never_answers_a_conflict() {
    let mut service = service();
    let checkout = project(&mut service);
    let billing = another_project(&mut service, "billing");
    for (home, marker) in [(&checkout, "in-checkout"), (&billing, "in-billing")] {
        let body = format!(r#"{{ "name": "nightly", "testRunId": "{marker}", "timestamp": "1" }}"#);
        service.create_in(Resource::Runs, home, &json(&body)).expect("run");
    }

    assert!(matches!(
        service.document(Resource::Runs, "nightly.json").expect_err("two homes"),
        DomainError::Conflict(_)
    ));
    for (home, marker) in [(&checkout, "in-checkout"), (&billing, "in-billing")] {
        let document = service
            .document_in(Resource::Runs, home, "nightly.json", "Test run not found")
            .expect("the named home's occurrence");
        assert_eq!(to_serde(&document)["testRunId"], marker, "{home:?}");
    }

    let platform = another_project(&mut service, "platform");
    let error = service
        .document_in(Resource::Runs, &platform, "nightly.json", "Test run not found")
        .expect_err("this home does not hold it");
    assert!(
        matches!(&error, DomainError::NotFound(message) if message == "Test run not found"),
        "{error:?}"
    );

    assert!(matches!(
        service
            .document_in(Resource::Runs, &billing, "ghost.json", "Test run not found")
            .expect_err("absent"),
        DomainError::NotFound(_)
    ));
}

#[test]
fn merged_document_replaces_only_supplied_fields() {
    let stored = json(r#"{ "title": "old", "steps": "s", "priority": "high" }"#);
    let body = json(r#"{ "title": "new" }"#);
    let merged = to_serde(&merged_document(&stored, &body).expect("merge"));
    assert_eq!(merged["title"], "new");
    assert_eq!(merged["steps"], "s");
    assert_eq!(merged["priority"], "high");
}

#[test]
fn merged_document_null_keeps_stored_value() {
    let stored = json(r#"{ "title": "old", "steps": "s" }"#);
    let body = json(r#"{ "title": null }"#);
    let merged = to_serde(&merged_document(&stored, &body).expect("merge"));
    assert_eq!(merged["title"], "old");
    assert_eq!(merged["steps"], "s");
}

#[test]
fn merged_document_non_object_stored_returns_error() {
    let stored = json(r#""just a string""#);
    let body = json(r#"{ "title": "new" }"#);
    assert!(matches!(merged_document(&stored, &body), Err(DomainError::Internal(_))));
}

#[test]
fn merged_document_empty_body_returns_stored_unchanged() {
    let stored = json(r#"{ "title": "old", "steps": "s" }"#);
    let body = json("{}");
    let merged = merged_document(&stored, &body).expect("merge");
    assert_eq!(to_serde(&merged), to_serde(&stored));
}

#[test]
fn case_content_changed_detects_title_change() {
    let stored = json(r#"{ "title": "a", "steps": "s" }"#);
    let merged = json(r#"{ "title": "b", "steps": "s" }"#);
    assert!(case_content_changed(&stored, &merged));
}

#[test]
fn case_content_changed_detects_steps_change() {
    let stored = json(r#"{ "title": "a", "steps": "s1" }"#);
    let merged = json(r#"{ "title": "a", "steps": "s2" }"#);
    assert!(case_content_changed(&stored, &merged));
}

#[test]
fn case_content_changed_detects_preconditions_change() {
    let stored = json(r#"{ "title": "a", "preconditions": "p1" }"#);
    let merged = json(r#"{ "title": "a", "preconditions": "p2" }"#);
    assert!(case_content_changed(&stored, &merged));
}

#[test]
fn case_content_changed_detects_expected_result_change() {
    let stored = json(r#"{ "title": "a", "expectedResult": "e1" }"#);
    let merged = json(r#"{ "title": "a", "expectedResult": "e2" }"#);
    assert!(case_content_changed(&stored, &merged));
}

#[test]
fn case_content_changed_ignores_non_qualifying_fields() {
    let stored = json(r#"{ "title": "a", "steps": "s", "tags": ["old"], "name": "x" }"#);
    let merged = json(r#"{ "title": "a", "steps": "s", "tags": ["new"], "name": "y" }"#);
    assert!(!case_content_changed(&stored, &merged));
}

#[test]
fn case_content_changed_false_when_identical() {
    let doc = json(r#"{ "title": "a", "steps": "s", "preconditions": "p", "expectedResult": "e" }"#);
    assert!(!case_content_changed(&doc, &doc));
}

#[test]
fn stamp_case_creation_sets_version_and_last_modified() {
    let mut doc = json(r#"{ "title": "new case" }"#);
    stamp_case_creation(&mut doc);
    let doc = to_serde(&doc);
    assert_eq!(doc["version"], 1);
    assert!(doc["lastModified"].is_string());
    assert!(!doc["lastModified"].as_str().unwrap().is_empty());
}

#[test]
fn stamp_case_creation_overwrites_client_supplied_values() {
    let mut doc = json(r#"{ "title": "x", "version": 99, "lastModified": "client-time" }"#);
    stamp_case_creation(&mut doc);
    let doc = to_serde(&doc);
    assert_eq!(doc["version"], 1);
    assert_ne!(doc["lastModified"], "client-time");
}

#[test]
fn stamp_case_creation_noop_for_non_object() {
    let mut doc = json(r#""not an object""#);
    stamp_case_creation(&mut doc);
    assert_eq!(to_serde(&doc), sj(r#""not an object""#));
}

#[test]
fn normalise_marker_project_sets_suite_collection_and_id() {
    let mut doc = json(r#"{ "name": "p" }"#);
    normalise_marker(Resource::Projects, "p.json", &mut doc);
    let doc = to_serde(&doc);
    assert_eq!(doc["projectId"], "p.json");
    assert_eq!(doc["testSuites"], sj("[]"));
}

#[test]
fn normalise_marker_suite_sets_case_collection_and_id() {
    let mut doc = json(r#"{ "name": "s" }"#);
    normalise_marker(Resource::Suites, "s.json", &mut doc);
    let doc = to_serde(&doc);
    assert_eq!(doc["suiteId"], "s.json");
    assert_eq!(doc["testCases"], sj("[]"));
}

#[test]
fn normalise_marker_run_sets_id_and_timestamp() {
    let mut doc = json(r#"{ "name": "r" }"#);
    normalise_marker(Resource::Runs, "r.json", &mut doc);
    let doc = to_serde(&doc);
    assert_eq!(doc["testRunId"], "r.json");
    assert!(doc["timestamp"].is_string());
    assert!(!doc["timestamp"].as_str().unwrap().is_empty());
}

#[test]
fn normalise_marker_milestone_sets_id() {
    let mut doc = json(r#"{ "name": "m" }"#);
    normalise_marker(Resource::Milestones, "m.json", &mut doc);
    assert_eq!(to_serde(&doc)["milestoneId"], "m.json");
}

#[test]
fn normalise_marker_configuration_sets_id() {
    let mut doc = json(r#"{ "name": "c" }"#);
    normalise_marker(Resource::Configurations, "c.json", &mut doc);
    assert_eq!(to_serde(&doc)["configId"], "c.json");
}

#[test]
fn normalise_marker_configuration_takes_the_id_over_a_supplied_identity() {
    let mut doc = json(r#"{ "name": "c", "configId": "somewhere/else" }"#);
    normalise_marker(Resource::Configurations, "c.json", &mut doc);
    assert_eq!(to_serde(&doc)["configId"], "c.json");
}

#[test]
fn normalise_marker_case_is_identity() {
    let mut doc = json(r#"{ "testCaseId": "C-1", "title": "t" }"#);
    let original = to_serde(&doc);
    normalise_marker(Resource::Cases, "C-1", &mut doc);
    assert_eq!(to_serde(&doc), original);
}

#[test]
fn normalise_marker_does_not_overwrite_client_identity() {
    let mut doc = json(r#"{ "projectId": "client-id", "name": "p" }"#);
    normalise_marker(Resource::Projects, "p.json", &mut doc);
    assert_eq!(to_serde(&doc)["projectId"], "client-id");
}

#[test]
fn service_documents_round_trip_through_the_service() {
    tests_documents_round_trip_through_the_service();
}

#[test]
fn service_creating_a_duplicate_is_a_conflict() {
    tests_creating_a_duplicate_is_a_conflict();
}

#[test]
fn service_an_unknown_field_is_rejected_before_anything_is_persisted() {
    tests_an_unknown_field_is_rejected_before_anything_is_persisted();
}

#[test]
fn service_updating_a_missing_document_is_not_found() {
    tests_updating_a_missing_document_is_not_found();
}

#[test]
fn service_listing_filters_by_substring_and_by_tag() {
    tests_listing_filters_by_substring_and_by_tag();
}

#[test]
fn service_runs_are_listed_by_the_configuration_they_link() {
    tests_runs_are_listed_by_the_configuration_they_link();
}

#[test]
fn service_reading_a_project_assembles_its_children() {
    tests_reading_a_project_assembles_its_children();
}

#[test]
fn service_a_project_without_direct_cases_omits_the_test_cases_field() {
    tests_a_project_without_direct_cases_omits_the_test_cases_field();
}

#[test]
fn service_markers_store_empty_child_arrays() {
    tests_markers_store_empty_child_arrays();
}

#[test]
fn service_an_identifier_in_several_parents_is_a_conflict() {
    tests_an_identifier_in_several_parents_is_a_conflict();
}

#[test]
fn service_cases_join_suites_by_copy_and_leave_the_source_alone() {
    tests_cases_join_suites_by_copy_and_leave_the_source_alone();
}

#[test]
fn service_moving_a_case_leaves_it_with_one_home() {
    tests_moving_a_case_leaves_it_with_one_home();
}

#[test]
fn service_a_suite_can_be_placed_into_another_project() {
    tests_a_suite_can_be_placed_into_another_project();
}

#[test]
fn service_composition_grammar_rejects_mixed_and_unknown_modes() {
    tests_composition_grammar_rejects_mixed_and_unknown_modes();
}

#[test]
fn service_creating_in_a_missing_parent_is_not_found() {
    tests_creating_in_a_missing_parent_is_not_found();
}

#[test]
fn service_deleting_a_project_cascades_through_the_tree() {
    tests_deleting_a_project_cascades_through_the_tree();
}

#[test]
fn service_a_duplicated_suite_stays_in_its_project() {
    tests_a_duplicated_suite_stays_in_its_project();
}

#[test]
fn service_duplicating_onto_an_existing_identifier_is_a_conflict() {
    tests_duplicating_onto_an_existing_identifier_is_a_conflict();
}

#[test]
fn service_duplicating_a_missing_document_reports_the_named_entity() {
    tests_duplicating_a_missing_document_reports_the_named_entity();
}

#[test]
fn service_a_run_embeds_a_snapshot_of_the_case_it_selected() {
    tests_a_run_embeds_a_snapshot_of_the_case_it_selected();
}

#[test]
fn service_milestone_progress_reads_the_referenced_runs() {
    tests_milestone_progress_reads_the_referenced_runs();
}

#[test]
fn service_progress_for_a_missing_milestone_is_not_found() {
    tests_progress_for_a_missing_milestone_is_not_found();
}

#[test]
fn service_attachments_are_recorded_in_the_case_and_round_trip() {
    tests_attachments_are_recorded_in_the_case_and_round_trip();
}

#[test]
fn service_requiring_a_missing_test_case_is_not_found() {
    tests_requiring_a_missing_test_case_is_not_found();
}

#[test]
fn service_a_home_preferred_identifier_resolves_the_occurrence_it_names() {
    tests_a_home_preferred_identifier_resolves_the_occurrence_it_names();
}

#[test]
fn service_an_ambiguous_identifier_names_both_homes() {
    tests_an_ambiguous_identifier_names_both_homes();
}

#[test]
fn service_the_retired_flat_creates_name_their_replacement() {
    tests_the_retired_flat_creates_name_their_replacement();
}

#[test]
fn service_an_identifier_no_project_holds_is_not_found() {
    tests_an_identifier_no_project_holds_is_not_found();
}

#[test]
fn service_duplicating_a_run_stores_the_copy_in_its_own_home() {
    tests_duplicating_a_run_stores_the_copy_in_its_own_home();
}

#[test]
fn service_the_summary_report_counts_two_runs_sharing_an_identifier() {
    tests_the_summary_report_counts_two_runs_sharing_an_identifier();
}

#[test]
fn service_milestone_progress_prefers_its_own_home_for_a_shared_identifier() {
    tests_milestone_progress_prefers_its_own_home_for_a_shared_identifier();
}

#[test]
fn service_milestone_progress_resolves_a_shared_identifier_from_its_home() {
    tests_milestone_progress_resolves_a_shared_identifier_from_its_home();
}

#[test]
fn service_milestone_progress_skips_a_reference_no_project_holds() {
    tests_milestone_progress_skips_a_reference_no_project_holds();
}

#[test]
fn service_a_run_links_the_configuration_its_own_home_holds() {
    tests_a_run_links_the_configuration_its_own_home_holds();
}

#[test]
fn service_a_parent_addressed_read_never_answers_a_conflict() {
    tests_a_parent_addressed_read_never_answers_a_conflict();
}
