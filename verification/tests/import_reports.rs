use tucano_domain::error::DomainError;
use tucano_domain::import::{nests_too_deeply, parse, parse_json, ImportStatus, ParsedCase, MAX_ELEMENT_DEPTH};
use tucano_domain::json::{JsonNumber, JsonValue};

fn to_value(value: serde_json::Value) -> JsonValue {
    match value {
        serde_json::Value::Null => JsonValue::Null,
        serde_json::Value::Bool(b) => JsonValue::Bool(b),
        serde_json::Value::Number(n) => match (n.as_u64(), n.as_i64()) {
            (Some(u), _) => JsonValue::Number(JsonNumber::Unsigned(u)),
            (None, Some(i)) => JsonValue::Number(JsonNumber::Negative(i)),
            _ => JsonValue::Number(JsonNumber::Decimal(n.to_string())),
        },
        serde_json::Value::String(s) => JsonValue::Str(s),
        serde_json::Value::Array(items) => JsonValue::Array(items.into_iter().map(to_value).collect()),
        serde_json::Value::Object(map) => {
            JsonValue::Object(map.into_iter().map(|(k, v)| (k, to_value(v))).collect())
        }
    }
}

/// Reads a request body as JSON, then as an import body.
fn parse_json_bytes(body: &[u8]) -> Result<Vec<ParsedCase>, DomainError> {
    let value = serde_json::from_slice::<serde_json::Value>(body).ok().map(to_value);
    parse_json(value.as_ref())
}

#[test]
fn maps_the_three_junit_outcomes_to_run_statuses() {
    let report = parse(
        r#"<testsuite classname="Checkout">
             <testcase classname="Checkout" name="pays"/>
             <testcase classname="Checkout" name="declines">
               <failure message="card declined">stack</failure>
             </testcase>
             <testcase classname="Checkout" name="times out">
               <error message="timeout">trace</error>
             </testcase>
             <testcase classname="Checkout" name="is skipped">
               <skipped/>
             </testcase>
           </testsuite>"#,
    )
    .expect("valid JUnit");

    assert_eq!(report.errors, 0);
    let statuses: Vec<(String, ImportStatus)> = report
        .cases
        .iter()
        .map(|case| (case.test_case_id.clone(), case.status))
        .collect();
    assert_eq!(
        statuses,
        vec![
            ("Checkout.pays".to_owned(), ImportStatus::Passed),
            ("Checkout.declines".to_owned(), ImportStatus::Failed),
            ("Checkout.times out".to_owned(), ImportStatus::Failed),
            ("Checkout.is skipped".to_owned(), ImportStatus::Blocked),
        ]
    );
}

#[test]
fn records_the_failure_message_as_notes() {
    let report = parse(
        r#"<testsuite>
             <testcase classname="Suite" name="breaks">
               <failure message="expected 1 got 2"/>
             </testcase>
             <testcase classname="Suite" name="passes"/>
           </testsuite>"#,
    )
    .expect("valid JUnit");

    assert_eq!(report.cases[0].notes.as_deref(), Some("expected 1 got 2"));
    assert_eq!(report.cases[1].notes, None);
}

#[test]
fn reads_the_enclosing_suite_timestamp() {
    let report = parse(
        r#"<testsuites>
             <testsuite timestamp="2026-09-10T12:00:00Z">
               <testcase classname="Suite" name="nested"/>
             </testsuite>
           </testsuites>"#,
    )
    .expect("valid JUnit");

    assert_eq!(
        report.cases[0].timestamp.as_deref(),
        Some("2026-09-10T12:00:00Z")
    );
}

#[test]
fn a_testcase_without_a_classname_is_named_by_its_name_alone() {
    let report = parse(r#"<testsuite><testcase name="bare"/></testsuite>"#).expect("valid JUnit");

    assert_eq!(report.cases[0].test_case_id, "bare");
}

#[test]
fn a_testcase_that_cannot_be_named_is_an_error_not_a_case() {
    let report = parse(
        r#"<testsuite>
             <testcase classname="Suite"/>
             <testcase classname="Suite" name="named"/>
           </testsuite>"#,
    )
    .expect("valid JUnit");

    assert_eq!(report.errors, 1);
    assert_eq!(report.cases.len(), 1);
    assert_eq!(report.cases[0].test_case_id, "Suite.named");
}

#[test]
fn finds_testcases_at_any_depth() {
    let report = parse(
        r#"<testsuites>
             <testsuite>
               <testsuite>
                 <testcase classname="Deep" name="inner"/>
               </testsuite>
             </testsuite>
           </testsuites>"#,
    )
    .expect("valid JUnit");

    assert_eq!(report.cases.len(), 1);
    assert_eq!(report.cases[0].test_case_id, "Deep.inner");
}

#[test]
fn malformed_xml_is_an_invalid_request() {
    let error = parse("<testsuite><testcase></testsuite>").expect_err("malformed");
    assert!(matches!(
        error,
        DomainError::InvalidRequest {
            code: "invalid_request",
            ..
        }
    ));
}

#[test]
fn an_over_deep_document_is_refused_before_the_parser_sees_it() {
    let document = format!("{}{}", "<a>".repeat(5_000), "</a>".repeat(5_000));

    match parse(&document).expect_err("over-deep document") {
        DomainError::InvalidRequest {
            code: "invalid_request",
            message,
        } => assert_eq!(message, "JUnit XML nests elements too deeply"),
        other => panic!("unexpected error: {other:?}"),
    }

    assert!(nests_too_deeply(&"<a>".repeat(5_000)));
}

#[test]
fn the_depth_bound_holds_exactly_at_the_limit() {
    let at_limit = format!(
        "{}{}",
        "<a>".repeat(MAX_ELEMENT_DEPTH),
        "</a>".repeat(MAX_ELEMENT_DEPTH)
    );
    let over_limit = format!(
        "{}{}",
        "<a>".repeat(MAX_ELEMENT_DEPTH + 1),
        "</a>".repeat(MAX_ELEMENT_DEPTH + 1)
    );

    assert!(!nests_too_deeply(&at_limit));
    assert!(nests_too_deeply(&over_limit));

    assert!(parse(&at_limit).is_ok());
    assert!(parse(&over_limit).is_err());
}

#[test]
fn self_closing_siblings_do_not_consume_the_depth_bound() {
    let mut document = String::from("<testsuite>");
    for _ in 0..200 {
        document.push_str(r#"<testcase name="t"/>"#);
    }
    document.push_str("</testsuite>");

    assert_eq!(parse(&document).expect("valid JUnit").cases.len(), 200);
}

#[test]
fn cdata_bodies_do_not_accumulate_towards_the_depth_bound() {
    let mut document = String::from("<testsuite>");
    for index in 0..200 {
        document.push_str(&format!(
            r#"<testcase name="t{index}"><failure><![CDATA[at <boom> (x:1)]]></failure></testcase>"#
        ));
    }
    document.push_str("</testsuite>");

    assert_eq!(parse(&document).expect("valid JUnit").cases.len(), 200);
}

#[test]
fn a_reasonably_deep_report_still_imports() {
    let mut document = String::from("<testsuites>");
    for _ in 0..8 {
        document.push_str("<testsuite>");
    }
    document.push_str(r#"<testcase classname="Deep" name="inner"/>"#);
    for _ in 0..8 {
        document.push_str("</testsuite>");
    }
    document.push_str("</testsuites>");

    let report = parse(&document).expect("valid JUnit");
    assert_eq!(report.cases.len(), 1);
    assert_eq!(report.cases[0].test_case_id, "Deep.inner");
}

#[test]
fn a_json_array_maps_its_fields_and_statuses() {
    let cases = parse_json_bytes(
        br#"[{"testCaseId":"TC-1","status":"Passed","notes":"ok"},
             {"testCaseId":"TC-2","status":"Failed"},
             {"testCaseId":"TC-3","status":"Blocked","timestamp":"1"}]"#,
    )
    .expect("valid JSON");

    assert_eq!(cases.len(), 3);
    assert_eq!(cases[0].test_case_id, "TC-1");
    assert_eq!(cases[0].status, ImportStatus::Passed);
    assert_eq!(cases[0].notes.as_deref(), Some("ok"));
    assert_eq!(cases[0].timestamp, None);
    assert_eq!(cases[1].status, ImportStatus::Failed);
    assert_eq!(cases[1].notes, None);
    assert_eq!(cases[2].status, ImportStatus::Blocked);
    assert_eq!(cases[2].timestamp.as_deref(), Some("1"));
}

#[test]
fn a_json_body_may_be_wrapped_in_a_results_field() {
    let cases = parse_json_bytes(br#"{"results":[{"testCaseId":"TC-1","status":"Passed"}]}"#)
        .expect("valid wrapper");
    assert_eq!(cases.len(), 1);
    assert_eq!(cases[0].test_case_id, "TC-1");

    let bodies: &[&[u8]] = &[
        br#"{"cases":[]}"#,
        br#"{"results":[],"extra":1}"#,
        br#"{"results":"nope"}"#,
        br#"{"results":{}}"#,
        b"\"results\"",
        b"null",
        b"42",
    ];
    for body in bodies {
        let error = parse_json_bytes(body).expect_err("unusable body");
        assert!(
            matches!(
                error,
                DomainError::InvalidRequest {
                    code: "invalid_request",
                    ..
                }
            ),
            "rejected {body:?} as {error:?}"
        );
    }
}

#[test]
fn an_empty_json_body_parses_to_no_cases() {
    assert!(parse_json_bytes(b"[]").expect("valid").is_empty());
    assert!(parse_json_bytes(br#"{"results":[]}"#).expect("valid").is_empty());
}

#[test]
fn json_null_optional_fields_mean_absent() {
    let cases = parse_json_bytes(
        br#"[{"testCaseId":"TC-1","status":"Passed","notes":null,"timestamp":null}]"#,
    )
    .expect("valid");
    assert_eq!(cases[0].notes, None);
    assert_eq!(cases[0].timestamp, None);
}

#[test]
fn a_json_entry_problem_names_its_position() {
    let bodies: &[&[u8]] = &[
        br#"[{"status":"Passed"}]"#,
        br#"[{"testCaseId":"TC-1"}]"#,
        br#"[{"testCaseId":"TC-1","status":"Passed","unknown":1}]"#,
        br#"[{"testCaseId":"TC-1","status":"Passed","notes":5}]"#,
        br#"[{"testCaseId":"","status":"Passed"}]"#,
        br#"["not an object"]"#,
    ];
    for body in bodies {
        let error = parse_json_bytes(body).expect_err("unusable entry");
        match error {
            DomainError::InvalidRequest {
                code: "invalid_request",
                message,
            } => assert!(
                message.contains("entry 0"),
                "names the entry, got {message}"
            ),
            other => panic!("unexpected error: {other:?}"),
        }
    }
}

#[test]
fn a_json_status_outside_the_three_is_rejected_as_invalid_status() {
    for status in ["Untested", "Retest", "passed", "Unknown", ""] {
        let body = format!(r#"[{{"testCaseId":"TC-1","status":"{status}"}}]"#);
        let error = parse_json_bytes(body.as_bytes()).expect_err("unmappable status");
        assert!(
            matches!(
                error,
                DomainError::InvalidRequest {
                    code: "invalid_status",
                    ..
                }
            ),
            "rejected {status:?} as {error:?}"
        );
    }
}

#[test]
fn malformed_json_is_an_invalid_request() {
    for body in [&b"{not json"[..], b"", b"[{\"testCaseId\":]", b"[1,2,3"] {
        let error = parse_json_bytes(body).expect_err("malformed");
        assert!(matches!(
            error,
            DomainError::InvalidRequest {
                code: "invalid_request",
                ..
            }
        ));
    }
}
