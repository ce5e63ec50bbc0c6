use tucano_domain::duplicate::{apply_overrides, DuplicateSpec};
use tucano_domain::json::{JsonNumber, JsonValue};

fn to_value(value: serde_json::Value) -> JsonValue {
    match value {
        serde_json::Value::Null => JsonValue::Null,
        serde_json::Value::Bool(b) => JsonValue::Bool(b),
        serde_json::Value::Number(n) => match (n.as_u64(), n.as_i64()) {
            (Some(u), _) => JsonValue::Number(JsonNumber::Unsigned(u)),
            (None, Some(i)) => JsonValue::Number(JsonNumber::Negative(i)),
            _ => JsonValue::Number(JsonNumber::Decimal(n.to_string())),
        },
        serde_json::Value::String(s) => JsonValue::Str(s),
        serde_json::Value::Array(items) => JsonValue::Array(items.into_iter().map(to_value).collect()),
        serde_json::Value::Object(map) => {
            JsonValue::Object(map.into_iter().map(|(k, v)| (k, to_value(v))).collect())
        }
    }
}

fn json(text: &str) -> JsonValue {
    to_value(serde_json::from_str(text).expect("test JSON"))
}

fn to_serde(value: &JsonValue) -> serde_json::Value {
    match value {
        JsonValue::Null => serde_json::Value::Null,
        JsonValue::Bool(b) => serde_json::Value::Bool(*b),
        JsonValue::Number(JsonNumber::Unsigned(n)) => serde_json::Value::from(*n),
        JsonValue::Number(JsonNumber::Negative(n)) => serde_json::Value::from(*n),
        JsonValue::Number(JsonNumber::Decimal(s)) => serde_json::from_str(s).expect("number"),
        JsonValue::Str(s) => serde_json::Value::String(s.clone()),
        JsonValue::Array(items) => serde_json::Value::Array(items.iter().map(to_serde).collect()),
        JsonValue::Object(members) => serde_json::Value::Object(
            members.iter().map(|(k, v)| (k.clone(), to_serde(v))).collect(),
        ),
    }
}

fn sj(text: &str) -> serde_json::Value {
    serde_json::from_str(text).expect("test JSON")
}

#[test]
fn an_explicit_new_id_is_used_verbatim() {
    let mut document = json(r#"{ "projectId": "P-1", "name": "checkout" }"#);
    let id = apply_overrides(
        &DuplicateSpec::project(),
        "checkout.json",
        &json(r#"{ "newId": "P-2" }"#),
        &mut document,
    );

    assert_eq!(id, "P-2");
    assert_eq!(to_serde(&document)["projectId"], "P-2");
}

#[test]
fn a_derived_id_strips_the_extension_and_appends_a_suffix() {
    let mut document = json(r#"{ "projectId": "P-1", "name": "checkout" }"#);
    let id = apply_overrides(&DuplicateSpec::project(), "checkout.json", &json("{}"), &mut document);

    assert!(
        id.starts_with("checkout-copy-"),
        "unexpected derived id {id}"
    );
    assert!(
        id.ends_with(".json"),
        "derived id must be addressable: {id}"
    );
    assert_eq!(to_serde(&document)["projectId"], serde_json::Value::String(id.clone()));
}

#[test]
fn derived_ids_carry_the_suffix_the_storage_layer_requires() {
    for spec in [
        DuplicateSpec::project(),
        DuplicateSpec::suite(),
        DuplicateSpec::run(),
        DuplicateSpec::milestone(),
    ] {
        let mut document = json("{}");
        let id = apply_overrides(&spec, "source.json", &json("{}"), &mut document);

        assert!(id.starts_with("source-copy-"), "{spec:?} derived {id}");
        assert!(id.ends_with(".json"), "{spec:?} derived {id}");
        assert_eq!(to_serde(&document)[spec.id_field], serde_json::Value::String(id.clone()));
    }

    let mut case_document = json(r#"{ "testCaseId": "TC-1" }"#);
    let id = apply_overrides(&DuplicateSpec::case(), "TC-1", &json("{}"), &mut case_document);

    assert!(id.starts_with("TC-1-copy-"), "unexpected derived id {id}");
    assert!(!id.ends_with(".json"), "test cases keep bare ids: {id}");
    assert_eq!(to_serde(&case_document)["testCaseId"], serde_json::Value::String(id.clone()));
}

#[test]
fn a_milestone_copy_keeps_every_field_it_references() {
    let mut document = json(
        r#"{
            "milestoneId": "M-1.json",
            "name": "Sprint 42",
            "startDate": "2026-09-01",
            "targetDate": "2026-09-15",
            "status": "Open",
            "testSuiteIds": ["S-1.json"],
            "testRunIds": ["RUN-1.json"]
        }"#,
    );
    let id = apply_overrides(&DuplicateSpec::milestone(), "M-1.json", &json("{}"), &mut document);

    let document = to_serde(&document);
    assert!(id.starts_with("M-1-copy-"), "unexpected derived id {id}");
    assert_eq!(document["milestoneId"], serde_json::Value::String(id.clone()));
    assert_eq!(document["name"], "Sprint 42");
    assert_eq!(document["startDate"], "2026-09-01");
    assert_eq!(document["targetDate"], "2026-09-15");
    assert_eq!(document["status"], "Open");
    assert_eq!(document["testSuiteIds"], sj(r#"["S-1.json"]"#));
    assert_eq!(document["testRunIds"], sj(r#"["RUN-1.json"]"#));
}

#[test]
fn renames_are_applied_only_when_the_body_supplies_them() {
    let mut document = json(r#"{ "suiteId": "S-1", "name": "smoke" }"#);
    apply_overrides(
        &DuplicateSpec::suite(),
        "smoke.json",
        &json(r#"{ "newName": "regression" }"#),
        &mut document,
    );
    assert_eq!(to_serde(&document)["name"], "regression");

    let mut untouched = json(r#"{ "suiteId": "S-1", "name": "smoke" }"#);
    apply_overrides(&DuplicateSpec::suite(), "smoke.json", &json("{}"), &mut untouched);
    assert_eq!(to_serde(&untouched)["name"], "smoke");
}

#[test]
fn test_cases_are_renamed_through_new_title() {
    let mut document = json(r#"{ "testCaseId": "TC-1", "title": "Old" }"#);
    apply_overrides(&DuplicateSpec::case(), "TC-1", &json(r#"{ "newTitle": "New" }"#), &mut document);

    assert_eq!(to_serde(&document)["title"], "New");
    assert!(
        document.get("name").is_none(),
        "cases must not gain a name field"
    );
}

#[test]
fn run_copies_lose_their_results_and_gain_a_fresh_timestamp() {
    let mut document = json(
        r#"{
            "testRunId": "R-1",
            "timestamp": "1",
            "results": [{ "testCaseId": "TC-1", "status": "Passed", "timestamp": "1" }]
        }"#,
    );
    let id = apply_overrides(
        &DuplicateSpec::run(),
        "nightly.json",
        &json(r#"{ "newId": "R-2" }"#),
        &mut document,
    );

    assert_eq!(id, "R-2");
    assert!(document.get("results").is_none());
    assert_ne!(to_serde(&document)["timestamp"], sj(r#""1""#));
}

#[test]
fn other_resources_keep_their_results() {
    let mut document = json(
        r#"{
            "suiteId": "S-1",
            "name": "smoke",
            "results": ["kept"]
        }"#,
    );
    apply_overrides(&DuplicateSpec::suite(), "smoke.json", &json("{}"), &mut document);
    assert_eq!(to_serde(&document)["results"], sj(r#"["kept"]"#));
}

#[test]
fn a_document_that_is_not_an_object_reports_unknown() {
    let mut document = json(r#"["not", "an", "object"]"#);
    let id = apply_overrides(&DuplicateSpec::project(), "checkout.json", &json("{}"), &mut document);
    assert_eq!(id, "unknown");
}
