use tucano_domain::audit::{audited, placement_action, resource_noun};
use tucano_domain::defect::validate_url;
use tucano_domain::error::DomainError;
use tucano_domain::files::{content_disposition, original_name};
use tucano_domain::import::nests_too_deeply;
use tucano_domain::reports::{coverage, parse_date_filter, ProjectCases, SuiteCases, SuiteCoverage};
use tucano_domain::storage::{Placement, Resource};
use tucano_domain::timestamps::{current_iso8601_timestamp, format_iso8601};

fn assert_invalid(tracker_type: &str, url: &str) {
    let error = validate_url(tracker_type, url).expect_err("url must be rejected");
    assert!(
        matches!(error, DomainError::InvalidRequest { .. }),
        "{error:?} should be a 400"
    );
}

#[test]
fn a_jira_link_must_be_an_atlassian_browse_url() {
    for url in [
        "https://acme.atlassian.net/browse/BUG-42",
        "https://acme.atlassian.net/browse/PROJ-1?filter=recent",
        "https://acme.atlassian.net/browse/PROJ-1#comment-7",
    ] {
        assert!(validate_url("jira", url).is_ok(), "{url} should be accepted");
    }

    for url in [
        "https://acme.atlassian.net/BUG-42",
        "https://atlassian.net/browse/BUG-42",
        "https://acme.atlassian.net/browse/",
        "https://acme.atlassian.net/browse/BUG-42/comments",
        "https://not-atlassian.example/browse/BUG-42",
        "http://acme.atlassian.net/browse/BUG-42",
    ] {
        assert_invalid("jira", url);
    }
}

#[test]
fn a_github_link_must_be_an_issue_url() {
    for url in [
        "https://github.com/acme/checkout/issues/42",
        "https://github.com/acme/checkout/issues/42#issuecomment-1",
    ] {
        assert!(validate_url("github", url).is_ok(), "{url} should be accepted");
    }

    for url in [
        "https://github.com/acme/issues/42",
        "https://github.com/acme/checkout/pulls/42",
        "https://github.com/acme/checkout/issues/",
        "https://github.com/issues/42",
        "https://gitlab.com/acme/checkout/issues/42",
        "https://gh.example/acme/checkout/issues/42",
    ] {
        assert_invalid("github", url);
    }
}

#[test]
fn a_gitlab_link_must_be_an_issue_url() {
    for url in [
        "https://gitlab.com/acme/checkout/-/issues/42",
        "https://gitlab.com/acme/platform/checkout/-/issues/42",
    ] {
        assert!(validate_url("gitlab", url).is_ok(), "{url} should be accepted");
    }

    for url in [
        "https://gitlab.com/acme/checkout/issues/42",
        "https://gitlab.com/-/issues/42",
        "https://gitlab.com/acme/checkout/-/issues/",
        "https://gitlab.com/acme/checkout/-/issues/42/notes",
        "https://github.com/acme/checkout/-/issues/42",
    ] {
        assert_invalid("gitlab", url);
    }
}

#[test]
fn a_custom_link_only_has_to_be_a_well_formed_https_url() {
    for url in [
        "https://tracker.example/BUG-42",
        "https://example.com",
        "https://localhost:8080/defects/1",
        "https://tracker.example/issues?q=BUG-42",
    ] {
        assert!(validate_url("custom", url).is_ok(), "{url} should be accepted");
    }

    for url in [
        "http://tracker.example/BUG-42",
        "tracker.example/BUG-42",
        "//tracker.example/BUG-42",
        "https:///BUG-42",
        "https://user@tracker.example/BUG-42",
        "https://tracker.example/BUG 42",
        "https://tracker.example./BUG-42",
    ] {
        assert_invalid("custom", url);
    }
}

#[test]
fn a_tracker_document_is_matched_whatever_the_case_of_its_scheme_and_host() {
    assert!(validate_url("github", "HTTPS://GitHub.com/acme/checkout/issues/42").is_ok());
    assert!(validate_url("jira", "https://ACME.Atlassian.NET/browse/BUG-42").is_ok());
}

#[test]
fn an_unknown_tracker_type_is_rejected_whatever_the_url() {
    let error = validate_url("bugzilla", "https://tracker.example/BUG-42")
        .expect_err("an unsupported tracker must be rejected");
    assert!(
        matches!(error, DomainError::InvalidRequest { .. }),
        "{error:?}"
    );
}

#[test]
fn markup_that_only_looks_like_a_close_tag_does_not_discount_a_real_element() {
    let in_a_comment = "<a><!--</a></a></a>-->".repeat(200);
    let in_an_attribute = r#"<a b="</a> </a>">"#.repeat(200);

    assert!(nests_too_deeply(&in_a_comment));
    assert!(nests_too_deeply(&in_an_attribute));
}

#[test]
fn iso8601_renders_known_epochs() {
    for (seconds, expected) in [
        (0_u64, "1970-01-01T00:00:00Z"),
        (1, "1970-01-01T00:00:01Z"),
        (86_399, "1970-01-01T23:59:59Z"),
        (86_400, "1970-01-02T00:00:00Z"),
        (1_700_000_000, "2023-11-14T22:13:20Z"),
        (1_709_164_800, "2024-02-29T00:00:00Z"),
        (1_704_067_199, "2023-12-31T23:59:59Z"),
    ] {
        assert_eq!(format_iso8601(seconds), expected, "epoch {seconds}");
    }
}

#[test]
fn current_iso8601_timestamp_has_the_documented_shape() {
    let value = current_iso8601_timestamp();
    assert_eq!(value.len(), 20, "timestamp: {value}");
    assert!(value.ends_with('Z'), "timestamp: {value}");
    assert_eq!(&value[4..5], "-");
    assert_eq!(&value[10..11], "T");
}

#[test]
fn original_name_undoes_the_stored_prefix() {
    assert_eq!(original_name("1789740136589400280-notes.txt"), "notes.txt");
    assert_eq!(
        original_name("1789740136589400280-123-notes.txt"),
        "123-notes.txt"
    );
    assert_eq!(original_name("notes.txt"), "notes.txt");
    assert_eq!(original_name("1234.txt"), "1234.txt");
}

#[test]
fn content_disposition_names_the_original_file() {
    assert_eq!(
        content_disposition("1789740136589400280-report.pdf"),
        "attachment; filename=\"report.pdf\""
    );
    assert_eq!(
        content_disposition("1789740136589400280-rapport-généré.txt"),
        "attachment; filename=\"rapport-g_n_r_.txt\"; \
         filename*=UTF-8''rapport-g%C3%A9n%C3%A9r%C3%A9.txt"
    );
}

#[test]
fn content_disposition_cannot_escape_the_header() {
    let disposition = content_disposition("17-ev\"il\r\nX-Evil: 1.txt");
    assert_eq!(
        disposition,
        "attachment; filename=\"ev_il__X-Evil:_1.txt\"; \
         filename*=UTF-8''ev%22il%0D%0AX-Evil%3A%201.txt"
    );
    assert_eq!(
        disposition,
        disposition.trim(),
        "the value carries no line break: {disposition:?}"
    );
}

fn suite(suite_id: &str, case_count: usize) -> SuiteCases {
    SuiteCases {
        suite_id: suite_id.to_owned(),
        name: suite_id.trim_end_matches(".json").to_owned(),
        case_count,
    }
}

fn no_cases() -> ProjectCases {
    ProjectCases { direct: 0, suites: Vec::new() }
}

#[test]
fn an_empty_scope_reports_no_cases_and_no_suites() {
    let report = coverage(None, Vec::new());

    assert!(report.project_id.is_none());
    assert_eq!(report.total_cases, 0);
    assert!(report.suites.is_empty());
}

#[test]
fn a_scoped_report_echoes_the_identifier() {
    let report = coverage(Some("checkout.json"), vec![no_cases()]);

    assert_eq!(report.project_id.as_deref(), Some("checkout.json"));
}

fn same_suites(actual: &[SuiteCoverage], expected: &[(&str, &str, usize)]) -> bool {
    actual.len() == expected.len()
        && actual.iter().zip(expected).all(|(a, (id, name, count))| {
            a.suite_id == *id && a.name == *name && a.case_count == *count
        })
}

#[test]
fn cases_held_directly_by_a_project_join_the_total() {
    let report = coverage(
        Some("checkout.json"),
        vec![ProjectCases {
            direct: 3,
            suites: vec![suite("smoke.json", 2)],
        }],
    );

    assert_eq!(report.total_cases, 5);
    assert!(same_suites(&report.suites, &[("smoke.json", "smoke", 2)]));
}

#[test]
fn a_global_report_sums_every_project_and_keeps_their_suites() {
    let report = coverage(
        None,
        vec![
            ProjectCases {
                direct: 1,
                suites: vec![suite("smoke.json", 2)],
            },
            ProjectCases {
                direct: 0,
                suites: vec![suite("regression.json", 4), suite("nightly.json", 0)],
            },
        ],
    );

    assert!(report.project_id.is_none());
    assert_eq!(report.total_cases, 7);
    assert_eq!(
        report
            .suites
            .iter()
            .map(|entry| entry.suite_id.as_str())
            .collect::<Vec<_>>(),
        ["smoke.json", "regression.json", "nightly.json"]
    );
}

#[test]
fn a_date_filter_accepts_a_bare_date_or_a_timestamp() {
    assert_eq!(
        parse_date_filter("2026-09-10").expect("bare date"),
        "2026-09-10"
    );
    assert_eq!(
        parse_date_filter("2026-09-10T12:00:00Z").expect("timestamp"),
        "2026-09-10"
    );

    for value in ["", "2026", "2026/09/10", "yesterday", "2026-9-1"] {
        let error = parse_date_filter(value).expect_err("unusable date");
        assert!(
            matches!(error, DomainError::InvalidRequest { code, .. } if code == "invalid_request"),
            "value {value:?} produced {error:?}"
        );
    }
}

#[test]
fn audited_returns_whatever_the_operation_answered() {
    let written = audited("project", "create", "p-1", || {
        Ok::<_, DomainError>("created".to_owned())
    });
    assert_eq!(written.as_deref().ok(), Some("created"));

    let refused = audited("project", "create", "p-1", || {
        Err::<String, _>(DomainError::Conflict("Resource already exists".to_owned()))
    });
    assert_eq!(refused.err().map(|error| error.code()), Some("conflict"));
}

#[test]
fn every_resource_and_placement_has_a_label() {
    for resource in Resource::ALL {
        assert!(!resource_noun(resource).is_empty(), "{resource:?}");
    }
    assert_eq!(resource_noun(Resource::Suites), "test_suite");
    assert_eq!(resource_noun(Resource::Cases), "test_case");
    assert_eq!(placement_action(Placement::Copy), "copy");
    assert_eq!(placement_action(Placement::Move), "move");
}
