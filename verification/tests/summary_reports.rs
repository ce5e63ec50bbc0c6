use tucano_domain::models::{Project, TestCaseResult, TestConfiguration, TestRun};
use tucano_domain::reports::{run_is_in_scope, run_reachable, summary, SummaryFilters, SummaryReport};

fn result(status: &str, duration_ms: Option<u64>) -> TestCaseResult {
    TestCaseResult {
        test_case_id: "TC-1".to_owned(),
        status: status.to_owned(),
        timestamp: "1".to_owned(),
        notes: None,
        duration_ms,
        attachments: None,
        defect_links: None,
    }
}

fn run(timestamp: &str) -> TestRun {
    TestRun {
        test_run_id: "R-1".to_owned(),
        timestamp: timestamp.to_owned(),
        name: None,
        projects: None,
        test_suites: None,
        test_cases: None,
        results: None,
        tags: None,
        configurations: None,
        case_versions: None,
    }
}

fn project(id: &str) -> Project {
    Project {
        project_id: id.to_owned(),
        name: id.to_owned(),
        description: None,
        test_suites: Vec::new(),
        tags: None,
    }
}

fn configuration(id: &str) -> TestConfiguration {
    TestConfiguration {
        config_id: id.to_owned(),
        name: id.to_owned(),
        browser: None,
        os: None,
        device: None,
        resolution: None,
    }
}

/// The pass rate a response reports for these counts.
fn pass_percentage(report: &SummaryReport) -> f64 {
    if report.total > 0 {
        (report.passed as f64 / report.total as f64) * 100.0
    } else {
        0.0
    }
}

/// A home distinct from every project the filters below name, so a test
/// that is not about the home cannot be satisfied by it.
const HOME: &str = "platform.json";

#[test]
fn an_empty_result_set_reports_zeroes() {
    let report = summary(&[]);
    assert_eq!(report.total, 0);
    assert_eq!(report.passed, 0);
    assert_eq!(report.failed, 0);
    assert_eq!(report.blocked, 0);
    assert_eq!(report.untested, 0);
    assert_eq!(pass_percentage(&report), 0.0);
    assert_eq!(report.total_duration_ms, 0);
}

#[test]
fn the_buckets_split_by_status_and_retest_counts_only_toward_the_total() {
    let report = summary(&[
        result("Passed", None),
        result("Failed", None),
        result("Blocked", None),
        result("Untested", None),
        result("Retest", None),
        result("Skipped", None),
    ]);

    assert_eq!(report.total, 6);
    assert_eq!(report.passed, 1);
    assert_eq!(report.failed, 1);
    assert_eq!(report.blocked, 1);
    assert_eq!(report.untested, 1);
    assert_eq!(pass_percentage(&report), 1.0 / 6.0 * 100.0);
}

#[test]
fn the_issue_example_produces_the_documented_pass_rate() {
    let mut results = Vec::new();
    for _ in 0..95 {
        results.push(result("Passed", None));
    }
    for _ in 0..15 {
        results.push(result("Failed", None));
    }
    for _ in 0..6 {
        results.push(result("Blocked", None));
    }
    for _ in 0..4 {
        results.push(result("Untested", None));
    }

    let report = summary(&results);

    assert_eq!(report.total, 120);
    assert_eq!(report.passed, 95);
    assert_eq!(report.failed, 15);
    assert_eq!(report.blocked, 6);
    assert_eq!(report.untested, 4);
    assert_eq!(pass_percentage(&report), 95.0 / 120.0 * 100.0);
}

#[test]
fn durations_sum_and_a_result_without_one_counts_as_zero() {
    let report = summary(&[
        result("Passed", Some(1_500)),
        result("Failed", None),
        result("Passed", Some(2_000)),
    ]);

    assert_eq!(report.total_duration_ms, 3_500);
}

#[test]
fn a_project_filter_keeps_only_runs_that_embed_it() {
    let mut filters = SummaryFilters {
        project_id: Some("checkout.json".to_owned()),
        ..SummaryFilters::default()
    };
    let linked = TestRun {
        projects: Some(vec![project("checkout.json")]),
        ..run("1")
    };
    let other = TestRun {
        projects: Some(vec![project("billing.json")]),
        ..run("1")
    };

    assert!(run_is_in_scope(&linked, HOME, "R-1", &filters, None));
    assert!(!run_is_in_scope(&other, HOME, "R-1", &filters, None));

    assert!(!run_is_in_scope(&run("1"), HOME, "R-1", &filters, None));
    assert!(run_is_in_scope(&run("1"), "checkout.json", "R-1", &filters, None));

    filters.project_id = None;
    assert!(run_is_in_scope(&run("1"), HOME, "R-1", &filters, None));
}

#[test]
fn a_run_is_reachable_when_its_home_and_every_project_it_names_are() {
    let reachable = ["checkout.json".to_owned(), "billing.json".to_owned()];

    assert!(run_reachable(&run("1"), "checkout.json", &reachable));
    assert!(!run_reachable(&run("1"), HOME, &reachable));

    let covered = TestRun {
        projects: Some(vec![project("checkout.json"), project("billing.json")]),
        ..run("1")
    };
    assert!(run_reachable(&covered, "checkout.json", &reachable));
    assert!(!run_reachable(&covered, HOME, &reachable));

    let crossing = TestRun {
        projects: Some(vec![project("checkout.json"), project(HOME)]),
        ..run("1")
    };
    assert!(
        !run_reachable(&crossing, "checkout.json", &reachable),
        "an unreachable covered project hides the run"
    );
}

#[test]
fn a_milestone_filter_keeps_only_the_runs_it_references() {
    let filters = SummaryFilters {
        milestone_id: Some("v1.0.json".to_owned()),
        ..SummaryFilters::default()
    };
    let referenced = ["nightly.json".to_owned(), "weekly.json".to_owned()];

    assert!(run_is_in_scope(&run("1"), HOME, "nightly.json", &filters, Some(&referenced)));
    assert!(!run_is_in_scope(&run("1"), HOME, "daily.json", &filters, Some(&referenced)));
}

#[test]
fn a_configuration_filter_keeps_only_linked_runs() {
    let filters = SummaryFilters {
        configuration_id: Some("chrome-linux.json".to_owned()),
        ..SummaryFilters::default()
    };
    let linked = TestRun {
        configurations: Some(vec![configuration("chrome-linux.json")]),
        ..run("1")
    };
    let other = TestRun {
        configurations: Some(vec![configuration("firefox-windows.json")]),
        ..run("1")
    };

    assert!(run_is_in_scope(&linked, HOME, "R-1", &filters, None));
    assert!(!run_is_in_scope(&other, HOME, "R-1", &filters, None));
    assert!(!run_is_in_scope(&run("1"), HOME, "R-1", &filters, None));
}

#[test]
fn date_bounds_are_inclusive() {
    let filters = SummaryFilters {
        from: Some("2026-09-10".to_owned()),
        to: Some("2026-09-12".to_owned()),
        ..SummaryFilters::default()
    };

    assert!(run_is_in_scope(&run("1788998400"), HOME, "R-1", &filters, None));
    assert!(run_is_in_scope(&run("2026-09-12T23:59:59Z"), HOME, "R-1", &filters, None));
    assert!(!run_is_in_scope(&run("2026-09-09T23:59:59Z"), HOME, "R-1", &filters, None));
    assert!(!run_is_in_scope(&run("2026-09-13T00:00:00Z"), HOME, "R-1", &filters, None));
}

#[test]
fn a_run_without_a_comparable_date_is_left_out_when_a_date_filter_is_set() {
    let filters = SummaryFilters {
        from: Some("2026-09-10".to_owned()),
        ..SummaryFilters::default()
    };

    assert!(!run_is_in_scope(&run("not a date"), HOME, "R-1", &filters, None));
    assert!(run_is_in_scope(
        &run("not a date"),
        HOME,
        "R-1",
        &SummaryFilters::default(),
        None
    ));
}
