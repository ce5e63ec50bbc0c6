use tucano_domain::models::{Milestone, TestCase, TestCaseResult, TestRun, TestSuite};
use tucano_domain::progress::{compute, ProgressCounts};

fn case(id: &str) -> TestCase {
    TestCase {
        test_case_id: id.to_owned(),
        title: "case".to_owned(),
        description: None,
        preconditions: None,
        steps: None,
        expected_result: "expected".to_owned(),
        priority: None,
        severity: None,
        test_type: None,
        exploratory: None,
        attachments: None,
        tags: None,
        version: None,
        last_modified: None,
    }
}

fn result(case_id: &str, status: &str) -> TestCaseResult {
    TestCaseResult {
        test_case_id: case_id.to_owned(),
        status: status.to_owned(),
        timestamp: "1".to_owned(),
        notes: None,
        duration_ms: None,
        attachments: None,
        defect_links: None,
    }
}

fn suite(suite_id: &str, case_ids: &[&str]) -> TestSuite {
    TestSuite {
        suite_id: suite_id.to_owned(),
        name: suite_id.to_owned(),
        description: None,
        test_cases: case_ids.iter().map(|id| case(id)).collect(),
        tags: None,
    }
}

fn milestone(id: &str, run_ids: Option<Vec<String>>) -> Milestone {
    Milestone {
        milestone_id: id.to_owned(),
        name: "v1.0".to_owned(),
        description: None,
        start_date: None,
        target_date: None,
        status: None,
        test_suite_ids: None,
        test_run_ids: run_ids,
    }
}

/// A run holding `case_count` declared cases named `TC-0..`, the given linked
/// suites, and the given recorded results.
fn run_holding(results: &[(&str, &str)], case_count: Option<usize>, suites: &[&str]) -> TestRun {
    TestRun {
        test_run_id: "R".to_owned(),
        timestamp: "1".to_owned(),
        name: None,
        projects: None,
        test_suites: if suites.is_empty() {
            None
        } else {
            Some(suites.iter().map(|spec| {
                let mut parts = spec.split(':');
                let id = parts.next().expect("suite id");
                let cases: Vec<&str> = parts.next().map(|c| c.split(',').collect()).unwrap_or_default();
                suite(id, &cases)
            }).collect())
        },
        test_cases: case_count.map(|count| {
            (0..count)
                .map(|index| case(&format!("TC-{index}")))
                .collect()
        }),
        results: Some(
            results
                .iter()
                .map(|(case_id, status)| result(case_id, status))
                .collect(),
        ),
        tags: None,
        configurations: None,
        case_versions: None,
    }
}

fn run(results: &[(&str, &str)], case_count: Option<usize>) -> TestRun {
    run_holding(results, case_count, &[])
}

fn buckets(progress: &ProgressCounts) -> usize {
    progress.passed + progress.failed + progress.blocked + progress.untested + progress.retest
}

/// The pass rate a response reports for these counts.
fn pass_percentage(progress: &ProgressCounts) -> f64 {
    if progress.total_cases > 0 {
        (progress.passed as f64 / progress.total_cases as f64) * 100.0
    } else {
        0.0
    }
}

#[test]
fn a_run_contributes_every_case_it_holds() {
    let runs = [
        run(&[("TC-1", "Passed")], Some(2)),
        run(&[("TC-2", "Failed"), ("TC-3", "Blocked")], None),
    ];
    let progress = compute(&milestone("M-1", Some(vec!["R-1".to_owned()])), &runs);

    assert_eq!(progress.milestone_id, "M-1");
    assert_eq!(progress.total_cases, 4);
    assert_eq!(progress.passed, 1);
    assert_eq!(progress.failed, 1);
    assert_eq!(progress.blocked, 1);
    assert_eq!(progress.untested, 1);
    assert_eq!(pass_percentage(&progress), 25.0);
}

#[test]
fn a_case_declared_and_recorded_counts_once_with_its_recorded_status() {
    let runs = [run(&[("TC-0", "Failed"), ("TC-1", "Passed")], Some(2))];
    let progress = compute(&milestone("M-1", None), &runs);

    assert_eq!(progress.total_cases, 2);
    assert_eq!(progress.passed, 1);
    assert_eq!(progress.failed, 1);
    assert_eq!(progress.untested, 0);
}

#[test]
fn cases_embedded_in_a_linked_suite_are_part_of_the_population() {
    let runs = [run_holding(&[("TC-1", "Passed")], Some(1), &["SMOKE:TC-0,TC-1"])];
    let progress = compute(&milestone("M-1", None), &runs);

    assert_eq!(progress.total_cases, 2);
    assert_eq!(progress.passed, 1);
    assert_eq!(progress.untested, 1);
    assert_eq!(pass_percentage(&progress), 50.0);
}

#[test]
fn results_beyond_the_declared_snapshot_extend_the_population() {
    let runs = [run(
        &[("TC-1", "Passed"), ("TC-2", "Failed"), ("TC-3", "Blocked")],
        Some(1),
    )];
    let progress = compute(&milestone("M-1", None), &runs);

    assert_eq!(progress.total_cases, 4);
    assert_eq!(progress.untested, 1);
    assert_eq!(buckets(&progress), progress.total_cases);
    assert_eq!(pass_percentage(&progress), 25.0);
}

#[test]
fn a_held_case_without_a_result_and_an_unknown_status_both_count_as_untested() {
    let runs = [run(&[("TC-1", "Untested"), ("TC-2", "Skipped")], Some(1))];
    let progress = compute(&milestone("M-1", None), &runs);

    assert_eq!(progress.total_cases, 3);
    assert_eq!(progress.untested, 3);
    assert_eq!(progress.retest, 0);
    assert_eq!(pass_percentage(&progress), 0.0);
}

#[test]
fn retest_keeps_its_own_bucket() {
    let runs = [run(&[("TC-1", "Retest")], None)];
    let progress = compute(&milestone("M-1", None), &runs);

    assert_eq!(progress.total_cases, 1);
    assert_eq!(progress.retest, 1);
    assert_eq!(progress.untested, 0);
}

#[test]
fn every_shape_of_run_keeps_the_buckets_summing_to_the_total() {
    let shapes = [
        run(&[], None),
        run(&[("TC-1", "Passed")], None),
        run(&[("TC-0", "Passed"), ("TC-1", "Failed")], Some(2)),
        run_holding(&[("TC-9", "Weird")], Some(1), &["S:TC-9"]),
    ];
    for shape in shapes {
        let progress = compute(&milestone("M-1", None), &[shape]);
        assert_eq!(buckets(&progress), progress.total_cases);
        assert!((0.0..=100.0).contains(&pass_percentage(&progress)));
    }
}

#[test]
fn no_runs_reports_zero_everywhere() {
    let progress = compute(&milestone("M-1", None), &[]);

    assert_eq!(progress.total_cases, 0);
    assert_eq!(progress.passed, 0);
    assert_eq!(pass_percentage(&progress), 0.0);
}

#[test]
fn the_progress_identifier_comes_from_the_document_not_the_call_site() {
    let progress = compute(&milestone("M-from-document", None), &[]);
    assert_eq!(progress.milestone_id, "M-from-document");
}
