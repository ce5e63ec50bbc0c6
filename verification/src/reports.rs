//! Aggregation for the reporting endpoints: the pure arithmetic behind the
//! coverage and summary reports, and the filters that decide which runs a
//! summary counts.

use vstd::prelude::*;

use crate::composition::listed;
use crate::error::{DomainError, ErrorModel, invalid_request_model};
use crate::files::is_digit;
use crate::models::{TestCaseResult, TestRun};
use crate::order::{lex_less, less_than};
use crate::text::{chars_of, concat, str_eq, string_of};
use crate::timestamps::{iso8601, iso8601_date};

verus! {

/// The cases one suite holds.
#[derive(Debug)]
pub struct SuiteCases {
    /// The suite's wire identifier, `<folder>.json`.
    pub suite_id: String,
    /// The suite's own name.
    pub name: String,
    /// How many cases the suite folder holds.
    pub case_count: usize,
}

/// The cases one project holds, split into those sitting directly in the
/// project folder and those inside each of its suites.
#[derive(Debug)]
pub struct ProjectCases {
    /// Cases held directly by the project rather than by a suite.
    pub direct: usize,
    /// One entry per suite, in the order the store listed them.
    pub suites: Vec<SuiteCases>,
}

/// Which projects a report covers.
#[derive(Debug)]
pub enum Scope {
    /// Every project in the tree.
    All,
    /// Exactly the project `id`.
    Project(String),
    /// Exactly these projects, taken as given.
    Projects(Vec<String>),
}

/// One suite's line of the coverage report.
#[derive(Debug)]
pub struct SuiteCoverage {
    pub suite_id: String,
    pub name: String,
    pub case_count: usize,
}

/// How many cases the tree holds, per suite and in total.
#[derive(Debug)]
pub struct CoverageReport {
    pub project_id: Option<String>,
    pub total_cases: usize,
    pub suites: Vec<SuiteCoverage>,
}

/// The case count of every project in `projects`: those held directly plus
/// those inside each of its suites.
pub open spec fn suite_total(suites: Seq<SuiteCases>) -> int
    decreases suites.len(),
{
    if suites.len() == 0 { 0 } else { suite_total(suites.drop_last()) + suites.last().case_count }
}

/// The number of cases `projects` hold in total.
pub open spec fn case_total(projects: Seq<ProjectCases>) -> int
    decreases projects.len(),
{
    if projects.len() == 0 {
        0
    } else {
        case_total(projects.drop_last()) + projects.last().direct + suite_total(projects.last().suites@)
    }
}

/// The suites of `projects`, in order.
pub open spec fn all_suites(projects: Seq<ProjectCases>) -> Seq<SuiteCases>
    decreases projects.len(),
{
    if projects.len() == 0 {
        Seq::empty()
    } else {
        all_suites(projects.drop_last()) + projects.last().suites@
    }
}

/// Builds a coverage report from the counts found under `project_id`, or under
/// every project when no scope was asked for.
///
/// A case may live directly in a project folder, so `total_cases` counts those
/// as well and can exceed the sum of the per-suite counts.
pub fn coverage(project_id: Option<&str>, projects: Vec<ProjectCases>) -> (r: CoverageReport)
    requires
        case_total(projects@) <= usize::MAX,
    ensures
        r.total_cases == case_total(projects@),
        r.suites@.len() == all_suites(projects@).len(),
        forall|k: int| 0 <= k < r.suites@.len() ==> {
            &&& (#[trigger] r.suites@[k]).suite_id == all_suites(projects@)[k].suite_id
            &&& r.suites@[k].name == all_suites(projects@)[k].name
            &&& r.suites@[k].case_count == all_suites(projects@)[k].case_count
        },
        match project_id {
            Some(id) => r.project_id matches Some(p) && p@ == id@,
            None => r.project_id is None,
        },
{
    let ghost input = projects@;
    let count: usize = projects.len();
    assert(input.len() == count);
    let mut total_cases: usize = 0;
    let mut suites: Vec<SuiteCoverage> = Vec::new();
    let mut rest = projects;
    let mut i: usize = 0;
    let mut remaining: Vec<ProjectCases> = Vec::new();
    std::mem::swap(&mut remaining, &mut rest);
    let mut queue: Vec<ProjectCases> = Vec::new();
    while remaining.len() > 0
        invariant
            0 <= i <= input.len(),
            input.len() <= usize::MAX,
            remaining@ == input.skip(i as int),
            total_cases == case_total(input.take(i as int)),
            case_total(input) <= usize::MAX,
            suites@.len() == all_suites(input.take(i as int)).len(),
            forall|k: int| 0 <= k < suites@.len() ==> {
                &&& (#[trigger] suites@[k]).suite_id == all_suites(input.take(i as int))[k].suite_id
                &&& suites@[k].name == all_suites(input.take(i as int))[k].name
                &&& suites@[k].case_count == all_suites(input.take(i as int))[k].case_count
            },
        decreases remaining.len(),
    {
        let project = remaining.remove(0);
        proof {
            assert(project == input[i as int]);
            assert(input.take(i + 1).drop_last() =~= input.take(i as int));
            assert(input.skip(i + 1) =~= input.skip(i as int).drop_first());
            lemma_case_total_prefix(input, i as int + 1);
            lemma_suite_total_nonneg(project.suites@);
            assert(case_total(input.take(i as int)) + project.direct + suite_total(project.suites@)
                <= usize::MAX);
        }
        let ProjectCases { direct, suites: project_suites } = project;
        let ghost ps = project_suites@;
        let suite_count: usize = project_suites.len();
        assert(ps.len() == suite_count);
        total_cases = total_cases + direct;
        let mut list = project_suites;
        let mut j: usize = 0;
        let ghost base = suites@;
        while list.len() > 0
            invariant
                0 <= j <= ps.len(),
                ps.len() <= usize::MAX,
                list@ == ps.skip(j as int),
                total_cases == case_total(input.take(i as int)) + direct + suite_total(ps.take(j as int)),
                case_total(input.take(i as int)) + direct + suite_total(ps) <= usize::MAX,
                suites@.len() == base.len() + j,
                suites@.take(base.len() as int) == base,
                forall|k: int| 0 <= k < j ==> {
                    &&& (#[trigger] suites@[base.len() + k]).suite_id == ps[k].suite_id
                    &&& suites@[base.len() + k].name == ps[k].name
                    &&& suites@[base.len() + k].case_count == ps[k].case_count
                },
            decreases list.len(),
        {
            let suite = list.remove(0);
            proof {
                assert(suite == ps[j as int]);
                assert(ps.take(j + 1).drop_last() =~= ps.take(j as int));
                assert(ps.skip(j + 1) =~= ps.skip(j as int).drop_first());
                lemma_suite_total_prefix(ps, j as int + 1);
            }
            total_cases = total_cases + suite.case_count;
            let ghost before = suites@;
            suites.push(SuiteCoverage { suite_id: suite.suite_id, name: suite.name, case_count: suite.case_count });
            assert(suites@.take(base.len() as int) =~= before.take(base.len() as int));
            j = j + 1;
        }
        proof {
            assert(ps.take(j as int) =~= ps);
            let next = input.take(i + 1);
            assert(next.last() == input[i as int]);
            assert(all_suites(next) == all_suites(input.take(i as int)) + ps);
            assert forall|k: int| 0 <= k < suites@.len() implies {
                &&& (#[trigger] suites@[k]).suite_id == all_suites(next)[k].suite_id
                &&& suites@[k].name == all_suites(next)[k].name
                &&& suites@[k].case_count == all_suites(next)[k].case_count
            } by {
                if k < base.len() {
                    assert(suites@[k] == base[k]);
                } else {
                    assert(suites@[base.len() + (k - base.len())] == suites@[k]);
                }
            }
        }
        i = i + 1;
    }
    proof { assert(input.take(i as int) =~= input); }
    let echo = match project_id {
        Some(id) => Some(id.to_owned()),
        None => None,
    };
    CoverageReport { project_id: echo, total_cases, suites }
}

proof fn lemma_suite_total_prefix(s: Seq<SuiteCases>, n: int)
    requires
        0 <= n <= s.len(),
    ensures
        suite_total(s.take(n)) <= suite_total(s),
    decreases s.len() - n,
{
    if n < s.len() {
        lemma_suite_total_prefix(s, n + 1);
        assert(s.take(n + 1).drop_last() =~= s.take(n));
    } else {
        assert(s.take(n) =~= s);
    }
}

proof fn lemma_case_total_prefix(s: Seq<ProjectCases>, n: int)
    requires
        0 <= n <= s.len(),
    ensures
        case_total(s.take(n)) <= case_total(s),
        n >= 1 ==> case_total(s.take(n - 1)) + s[n - 1].direct + suite_total(s[n - 1].suites@) == case_total(s.take(n)),
    decreases s.len() - n,
{
    if n < s.len() {
        lemma_case_total_prefix(s, n + 1);
        assert(s.take(n + 1).drop_last() =~= s.take(n));
        lemma_suite_total_nonneg(s[n].suites@);
    } else {
        assert(s.take(n) =~= s);
    }
    if n >= 1 {
        assert(s.take(n).drop_last() =~= s.take(n - 1));
    }
}

proof fn lemma_suite_total_nonneg(s: Seq<SuiteCases>)
    ensures
        suite_total(s) >= 0,
    decreases s.len(),
{
    if s.len() > 0 {
        lemma_suite_total_nonneg(s.drop_last());
    }
}


/// The optional scope of a summary report.
///
/// Every field is optional and they combine conjunctively: a run is counted
/// only when it satisfies all of the filters that are set. `from` and `to`
/// bound the run's own date, inclusive, already normalised to `YYYY-MM-DD`.
#[derive(Debug)]
pub struct SummaryFilters {
    pub project_id: Option<String>,
    pub milestone_id: Option<String>,
    pub configuration_id: Option<String>,
    pub from: Option<String>,
    pub to: Option<String>,
}

impl Default for SummaryFilters {
    fn default() -> (r: Self)
        ensures
            r.project_id is None,
            r.milestone_id is None,
            r.configuration_id is None,
            r.from is None,
            r.to is None,
    {
        SummaryFilters { project_id: None, milestone_id: None, configuration_id: None, from: None, to: None }
    }
}

/// The counts of a summary report. The pass rate is `passed` over `total`.
#[derive(Debug)]
pub struct SummaryReport {
    pub total: usize,
    pub passed: usize,
    pub failed: usize,
    pub blocked: usize,
    pub untested: usize,
    pub total_duration_ms: u64,
}

/// How many of `results` carry exactly `status`.
pub open spec fn status_count(results: Seq<TestCaseResult>, status: Seq<char>) -> nat
    decreases results.len(),
{
    if results.len() == 0 {
        0
    } else {
        status_count(results.drop_last(), status) + if results.last().status@ == status { 1nat } else { 0nat }
    }
}

/// The durations of `results` summed, a result without one counting as zero.
pub open spec fn duration_total(results: Seq<TestCaseResult>) -> nat
    decreases results.len(),
{
    if results.len() == 0 {
        0
    } else {
        duration_total(results.drop_last()) + match results.last().duration_ms {
            Some(d) => d as nat,
            None => 0nat,
        }
    }
}

/// The four named buckets of a summary, taken together.
pub open spec fn bucketed(results: Seq<TestCaseResult>) -> nat {
    status_count(results, "Passed"@) + status_count(results, "Failed"@) + status_count(results, "Blocked"@)
        + status_count(results, "Untested"@)
}

proof fn lemma_duration_prefix(s: Seq<TestCaseResult>, n: int)
    requires
        0 <= n <= s.len(),
    ensures
        duration_total(s.take(n)) <= duration_total(s),
    decreases s.len() - n,
{
    if n < s.len() {
        lemma_duration_prefix(s, n + 1);
        assert(s.take(n + 1).drop_last() =~= s.take(n));
    } else {
        assert(s.take(n) =~= s);
    }
}

/// No result lands in two buckets: the named buckets together never hold more
/// results than the report counts.
pub proof fn lemma_buckets_within_total(results: Seq<TestCaseResult>)
    ensures
        bucketed(results) <= results.len(),
    decreases results.len(),
{
    reveal_strlit("Passed");
    reveal_strlit("Failed");
    reveal_strlit("Blocked");
    reveal_strlit("Untested");
    assert("Passed"@[0] == 'P' && "Failed"@[0] == 'F' && "Blocked"@[0] == 'B' && "Untested"@[0] == 'U');
    if results.len() > 0 {
        lemma_buckets_within_total(results.drop_last());
        let status = results.last().status@;
        assert(status == "Passed"@ ==> status != "Failed"@ && status != "Blocked"@ && status != "Untested"@);
        assert(status == "Failed"@ ==> status != "Blocked"@ && status != "Untested"@);
        assert(status == "Blocked"@ ==> status != "Untested"@);
    }
}

/// Whether the durations of `results` sum to what a `u64` counter holds.
pub fn durations_fit(results: &[TestCaseResult]) -> (r: bool)
    ensures
        r == (duration_total(results@) <= u64::MAX),
{
    let ghost all = results@;
    let mut total: u64 = 0;
    let mut i: usize = 0;
    while i < results.len()
        invariant
            i <= results.len(),
            all == results@,
            total == duration_total(all.take(i as int)),
        decreases results.len() - i,
    {
        assert(all.take(i + 1).drop_last() =~= all.take(i as int));
        let d: u64 = match results[i].duration_ms {
            Some(d) => d,
            None => 0,
        };
        if d > u64::MAX - total {
            proof { lemma_duration_prefix(all, i + 1); }
            return false;
        }
        total = total + d;
        i = i + 1;
    }
    assert(all.take(i as int) =~= all);
    true
}

/// Sums the recorded results into a summary report.
///
/// `total` counts every result. `passed`, `failed`, `blocked` and `untested`
/// are the named buckets; `Retest` and any unrecognised status contribute to
/// `total` but to no bucket.
pub fn summary(results: &[TestCaseResult]) -> (r: SummaryReport)
    requires
        duration_total(results@) <= u64::MAX,
    ensures
        r.total == results@.len(),
        r.passed == status_count(results@, "Passed"@),
        r.failed == status_count(results@, "Failed"@),
        r.blocked == status_count(results@, "Blocked"@),
        r.untested == status_count(results@, "Untested"@),
        r.total_duration_ms == duration_total(results@),
        r.passed + r.failed + r.blocked + r.untested <= r.total,
{
    let ghost all = results@;
    let mut passed: usize = 0;
    let mut failed: usize = 0;
    let mut blocked: usize = 0;
    let mut untested: usize = 0;
    let mut total_duration_ms: u64 = 0;
    let mut i: usize = 0;
    while i < results.len()
        invariant
            i <= results.len(),
            all == results@,
            duration_total(all) <= u64::MAX,
            passed == status_count(all.take(i as int), "Passed"@),
            failed == status_count(all.take(i as int), "Failed"@),
            blocked == status_count(all.take(i as int), "Blocked"@),
            untested == status_count(all.take(i as int), "Untested"@),
            passed <= i && failed <= i && blocked <= i && untested <= i,
            total_duration_ms == duration_total(all.take(i as int)),
        decreases results.len() - i,
    {
        let result = &results[i];
        proof {
            reveal_strlit("Passed");
            reveal_strlit("Failed");
            reveal_strlit("Blocked");
            reveal_strlit("Untested");
            assert("Passed"@[0] == 'P' && "Failed"@[0] == 'F' && "Blocked"@[0] == 'B' && "Untested"@[0] == 'U');
            assert(all.take(i + 1).drop_last() =~= all.take(i as int));
            assert(all.take(i + 1).last() == all[i as int]);
            lemma_duration_prefix(all, i + 1);
        }
        if str_eq(result.status.as_str(), "Passed") {
            passed = passed + 1;
        } else if str_eq(result.status.as_str(), "Failed") {
            failed = failed + 1;
        } else if str_eq(result.status.as_str(), "Blocked") {
            blocked = blocked + 1;
        } else if str_eq(result.status.as_str(), "Untested") {
            untested = untested + 1;
        }
        let spent: u64 = match result.duration_ms {
            Some(d) => d,
            None => 0,
        };
        total_duration_ms = total_duration_ms + spent;
        i = i + 1;
    }
    proof {
        assert(all.take(i as int) =~= all);
        lemma_buckets_within_total(all);
    }
    SummaryReport { total: results.len(), passed, failed, blocked, untested, total_duration_ms }
}

/// Whether one of `ids` spells `id`.
pub open spec fn contains_id(ids: Seq<String>, id: Seq<char>) -> bool {
    exists|k: int| 0 <= k < ids.len() && (#[trigger] ids[k])@ == id
}

/// Whether the run's `projects` snapshot names project `id`.
pub open spec fn names_project(run: TestRun, id: Seq<char>) -> bool {
    match run.projects {
        Some(ps) => exists|k: int| 0 <= k < ps@.len() && (#[trigger] ps@[k]).project_id@ == id,
        None => false,
    }
}

/// Whether the run links configuration `id`.
pub open spec fn links_configuration(run: TestRun, id: Seq<char>) -> bool {
    match run.configurations {
        Some(cs) => exists|k: int| 0 <= k < cs@.len() && (#[trigger] cs@[k]).config_id@ == id,
        None => false,
    }
}

/// Whether every character of `s` between `lo` and `hi` is an ASCII digit.
pub open spec fn digits_between(s: Seq<char>, lo: int, hi: int) -> bool {
    forall|k: int| lo <= k < hi ==> is_digit(#[trigger] s[k])
}

/// The leading `YYYY-MM-DD` of `s`, when it carries one.
pub open spec fn date_prefix_of(s: Seq<char>) -> Option<Seq<char>> {
    if s.len() >= 10 && s[4] == '-' && s[7] == '-' && digits_between(s, 0, 4) && digits_between(s, 5, 7)
        && digits_between(s, 8, 10) {
        Some(s.take(10))
    } else {
        None
    }
}

/// The value of a string of decimal digits.
pub open spec fn digits_value(s: Seq<char>) -> nat
    decreases s.len(),
{
    if s.len() == 0 {
        0
    } else {
        digits_value(s.drop_last()) * 10 + (s.last() as nat - '0' as nat) as nat
    }
}

/// What reading `s` as an unsigned 64-bit integer gives: an optional `+`,
/// then one or more ASCII digits whose value fits.
pub open spec fn parsed_u64(s: Seq<char>) -> Option<u64> {
    let body = if s.len() > 0 && s[0] == '+' { s.drop_first() } else { s };
    if body.len() > 0 && digits_between(body, 0, body.len() as int) && digits_value(body) <= u64::MAX {
        Some(digits_value(body) as u64)
    } else {
        None
    }
}

/// The calendar date a run's timestamp falls on: Unix seconds rendered as a
/// string, or a timestamp that starts with a date.
pub open spec fn run_date_of(timestamp: Seq<char>) -> Option<Seq<char>> {
    match parsed_u64(timestamp) {
        Some(seconds) => Some(iso8601(seconds as nat).take(10)),
        None => date_prefix_of(timestamp),
    }
}

/// Whether a run stored in `home` as `run_id` passes every filter that is set.
pub open spec fn in_scope(
    run: TestRun,
    home: Seq<char>,
    run_id: Seq<char>,
    filters: SummaryFilters,
    milestone_runs: Option<Seq<String>>,
) -> bool {
    &&& (filters.project_id matches Some(p) ==> (p@ == home || names_project(run, p@)))
    &&& (milestone_runs matches Some(ids) ==> contains_id(ids, run_id))
    &&& (filters.configuration_id matches Some(c) ==> links_configuration(run, c@))
    &&& ((filters.from is Some || filters.to is Some) ==> (match run_date_of(run.timestamp@) {
        Some(date) => (filters.from matches Some(f) ==> !lex_less(date, f@))
            && (filters.to matches Some(t) ==> !lex_less(t@, date)),
        None => false,
    }))
}

/// Whether the caller reaches a run stored in `home`: its home and every
/// project its snapshot names must be reachable.
pub open spec fn reachable_run(run: TestRun, home: Seq<char>, reachable: Seq<String>) -> bool {
    &&& contains_id(reachable, home)
    &&& match run.projects {
        Some(ps) => forall|k: int| 0 <= k < ps@.len() ==> contains_id(reachable, (#[trigger] ps@[k]).project_id@),
        None => true,
    }
}

pub(crate) fn contains(ids: &[String], id: &str) -> (r: bool)
    ensures
        r == contains_id(ids@, id@),
{
    let mut i: usize = 0;
    while i < ids.len()
        invariant
            i <= ids.len(),
            forall|k: int| 0 <= k < i ==> (#[trigger] ids@[k])@ != id@,
        decreases ids.len() - i,
    {
        if str_eq(ids[i].as_str(), id) {
            return true;
        }
        i = i + 1;
    }
    false
}

fn run_names_project(run: &TestRun, id: &str) -> (r: bool)
    ensures
        r == names_project(*run, id@),
{
    match &run.projects {
        Some(ps) => {
            let mut i: usize = 0;
            while i < ps.len()
                invariant
                    i <= ps.len(),
                    run.projects matches Some(v) && v@ == ps@,
                    forall|k: int| 0 <= k < i ==> (#[trigger] ps@[k]).project_id@ != id@,
                decreases ps.len() - i,
            {
                if str_eq(ps[i].project_id.as_str(), id) {
                    assert(ps@[i as int].project_id@ == id@);
                    return true;
                }
                i = i + 1;
            }
            false
        },
        None => false,
    }
}

fn run_links_configuration(run: &TestRun, id: &str) -> (r: bool)
    ensures
        r == links_configuration(*run, id@),
{
    match &run.configurations {
        Some(cs) => {
            let mut i: usize = 0;
            while i < cs.len()
                invariant
                    i <= cs.len(),
                    run.configurations matches Some(v) && v@ == cs@,
                    forall|k: int| 0 <= k < i ==> (#[trigger] cs@[k]).config_id@ != id@,
                decreases cs.len() - i,
            {
                if str_eq(cs[i].config_id.as_str(), id) {
                    assert(cs@[i as int].config_id@ == id@);
                    return true;
                }
                i = i + 1;
            }
            false
        },
        None => false,
    }
}

/// Whether a run belongs in a summary report.
///
/// `home` is the project the run is stored in, which counts as a match for a
/// project filter even when the run's own `projects` snapshot omits it.
/// `milestone_runs` is the set of run identifiers the milestone filter
/// references, resolved before the walk.
pub fn run_is_in_scope(
    run: &TestRun,
    home: &str,
    run_id: &str,
    filters: &SummaryFilters,
    milestone_runs: Option<&[String]>,
) -> (r: bool)
    ensures
        r == in_scope(*run, home@, run_id@, *filters, match milestone_runs {
            Some(ids) => Some(ids@),
            None => None,
        }),
{
    if let Some(project_id) = &filters.project_id {
        if !str_eq(project_id.as_str(), home) && !run_names_project(run, project_id.as_str()) {
            return false;
        }
    }
    if let Some(run_ids) = milestone_runs {
        if !contains(run_ids, run_id) {
            return false;
        }
    }
    if let Some(config_id) = &filters.configuration_id {
        if !run_links_configuration(run, config_id.as_str()) {
            return false;
        }
    }
    if filters.from.is_some() || filters.to.is_some() {
        let date = match run_date(run.timestamp.as_str()) {
            Some(date) => date,
            None => {
                return false;
            },
        };
        if let Some(from) = &filters.from {
            if less_than(date.as_str(), from.as_str()) {
                return false;
            }
        }
        if let Some(to) = &filters.to {
            if less_than(to.as_str(), date.as_str()) {
                return false;
            }
        }
    }
    true
}

/// Whether every project a run belongs to is one the caller can reach: its
/// home, and each project its snapshot names.
pub fn run_reachable(run: &TestRun, home: &str, reachable: &[String]) -> (r: bool)
    ensures
        r == reachable_run(*run, home@, reachable@),
{
    if !contains(reachable, home) {
        return false;
    }
    match &run.projects {
        Some(ps) => {
            let mut i: usize = 0;
            while i < ps.len()
                invariant
                    i <= ps.len(),
                    run.projects matches Some(v) && v@ == ps@,
                    contains_id(reachable@, home@),
                    forall|k: int| 0 <= k < i ==> contains_id(reachable@, (#[trigger] ps@[k]).project_id@),
                decreases ps.len() - i,
            {
                if !contains(reachable, ps[i].project_id.as_str()) {
                    assert(!contains_id(reachable@, ps@[i as int].project_id@));
                    return false;
                }
                i = i + 1;
            }
            true
        },
        None => true,
    }
}

/// Normalises a caller-supplied date filter to `YYYY-MM-DD`: a bare date and a
/// full ISO-8601 timestamp both name a day; anything else is refused.
pub fn parse_date_filter(value: &str) -> (r: Result<String, DomainError>)
    ensures
        match r {
            Ok(date) => date_prefix_of(value@) == Some(date@),
            Err(e) => date_prefix_of(value@) is None && e@ == invalid_request_model(
                "Invalid date filter: "@ + value@,
            ),
        },
{
    match date_prefix(value) {
        Some(date) => Ok(date),
        None => Err(DomainError::invalid_request(concat("Invalid date filter: ", value))),
    }
}

/// The calendar date a run's `timestamp` falls on, as `YYYY-MM-DD`.
fn run_date(timestamp: &str) -> (r: Option<String>)
    ensures
        match r {
            Some(date) => run_date_of(timestamp@) == Some(date@),
            None => run_date_of(timestamp@) is None,
        },
{
    match parse_u64(timestamp) {
        Some(seconds) => Some(iso8601_date(seconds)),
        None => date_prefix(timestamp),
    }
}

fn digit_run(s: &Vec<char>, lo: usize, hi: usize) -> (r: bool)
    requires
        lo <= hi <= s@.len(),
    ensures
        r == digits_between(s@, lo as int, hi as int),
{
    let mut i = lo;
    while i < hi
        invariant
            lo <= i <= hi,
            hi <= s@.len(),
            digits_between(s@, lo as int, i as int),
        decreases hi - i,
    {
        if !('0' <= s[i] && s[i] <= '9') {
            return false;
        }
        i = i + 1;
    }
    true
}

/// The leading `YYYY-MM-DD` of `value`, when it carries one.
fn date_prefix(value: &str) -> (r: Option<String>)
    ensures
        match r {
            Some(date) => date_prefix_of(value@) == Some(date@),
            None => date_prefix_of(value@) is None,
        },
{
    let s = chars_of(value);
    if s.len() < 10 {
        return None;
    }
    if !(s[4] == '-' && s[7] == '-' && digit_run(&s, 0, 4) && digit_run(&s, 5, 7) && digit_run(&s, 8, 10)) {
        return None;
    }
    let mut out: Vec<char> = Vec::new();
    let mut i: usize = 0;
    while i < 10
        invariant
            i <= 10,
            s@.len() >= 10,
            out@ == s@.take(i as int),
        decreases 10 - i,
    {
        out.push(s[i]);
        assert(s@.take(i + 1) =~= s@.take(i as int).push(s@[i as int]));
        i = i + 1;
    }
    Some(string_of(&out))
}

proof fn lemma_digits_value_grows(s: Seq<char>, n: int)
    requires
        0 <= n <= s.len(),
        digits_between(s, 0, s.len() as int),
    ensures
        digits_value(s.take(n)) <= digits_value(s),
    decreases s.len() - n,
{
    if n < s.len() {
        lemma_digits_value_grows(s, n + 1);
        assert(s.take(n + 1).drop_last() =~= s.take(n));
        assert(is_digit(s[n]));
    } else {
        assert(s.take(n) =~= s);
    }
}

/// Reads `s` as an unsigned 64-bit integer, as `str::parse::<u64>` does.
fn parse_u64(s: &str) -> (r: Option<u64>)
    ensures
        r == parsed_u64(s@),
{
    let chars = chars_of(s);
    let start: usize = if chars.len() > 0 && chars[0] == '+' { 1 } else { 0 };
    let ghost body = if s@.len() > 0 && s@[0] == '+' { s@.drop_first() } else { s@ };
    assert(body =~= chars@.skip(start as int));
    if start == chars.len() {
        assert(body.len() == 0);
        return None;
    }
    let mut value: u64 = 0;
    let mut i: usize = start;
    while i < chars.len()
        invariant
            start <= i <= chars.len(),
            chars@ == s@,
            body == (if s@.len() > 0 && s@[0] == '+' { s@.drop_first() } else { s@ }),
            body == chars@.skip(start as int),
            digits_between(body, 0, i - start),
            value == digits_value(body.take(i - start)),
        decreases chars.len() - i,
    {
        let c = chars[i];
        proof {
            assert(body.take(i - start + 1).drop_last() =~= body.take(i - start));
            assert(body[i - start] == c);
        }
        if !('0' <= c && c <= '9') {
            assert(!is_digit(body[i - start]));
            assert(!digits_between(body, 0, body.len() as int));
            assert(parsed_u64(s@) is None);
            return None;
        }
        let d: u64 = (c as u32 - '0' as u32) as u64;
        assert(digits_value(body.take(i - start + 1)) == digits_value(body.take(i - start)) * 10 + d);
        if value > (u64::MAX - d) / 10 {
            proof {
                assert(digits_value(body.take(i - start + 1)) > u64::MAX) by (nonlinear_arith)
                    requires
                        value > (u64::MAX - d) / 10,
                        digits_value(body.take(i - start + 1)) == value * 10 + d,
                        d <= 9,
                ;
                if digits_between(body, 0, body.len() as int) {
                    lemma_digits_value_grows(body, i - start + 1);
                }
                assert(parsed_u64(s@) is None);
            }
            return None;
        }
        assert(value * 10 + d <= u64::MAX) by (nonlinear_arith)
            requires
                value <= (u64::MAX - d) / 10,
                d <= 9,
        ;
        value = value * 10 + d;
        i = i + 1;
    }
    proof {
        assert(body.take(body.len() as int) =~= body);
    }
    Some(value)
}

} // verus!
