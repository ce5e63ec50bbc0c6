//! Composition and execution rules.
//!
//! These are the rules that decide how a case joins a suite, how a suite or case
//! joins a run, and how a recorded result replaces an earlier one. They are pure
//! mutations of already-loaded documents.

use vstd::prelude::*;

use crate::error::{DomainError, ErrorModel};
use crate::models::{DefectLink, Document, TestCase, TestCaseResult, TestConfiguration, TestRun, TestSuite};
use crate::seqs::{first_where, lemma_first_where, retain_matching};
use crate::text::str_eq;

verus! {

/// The version a run pins for a case that carries none.
pub const UNVERSIONED_CASE: u64 = 1;

/// Whether any case in `cases` is named `id`.
pub open spec fn names_case(cases: Seq<TestCase>, id: Seq<char>) -> bool {
    exists|k: int| 0 <= k < cases.len() && (#[trigger] cases[k]).test_case_id@ == id
}

/// Whether any suite in `suites` is named `id`.
pub open spec fn names_suite(suites: Seq<TestSuite>, id: Seq<char>) -> bool {
    exists|k: int| 0 <= k < suites.len() && (#[trigger] suites[k]).suite_id@ == id
}

/// Whether any configuration in `configurations` is named `id`.
pub open spec fn names_configuration(configurations: Seq<TestConfiguration>, id: Seq<char>) -> bool {
    exists|k: int| 0 <= k < configurations.len() && (#[trigger] configurations[k]).config_id@ == id
}

/// The elements of an optional list, or none.
pub open spec fn listed<T>(v: Option<Vec<T>>) -> Seq<T> {
    match v {
        Some(items) => items@,
        None => Seq::empty(),
    }
}

/// `after` is `before` with one more element at the end whose document is `doc`.
pub open spec fn appended<T: Document>(after: Seq<T>, before: Seq<T>, doc: crate::json::Json) -> bool {
    after.len() == before.len() + 1 && after.take(before.len() as int) == before
        && after.last().model() == doc
}

fn case_named(cases: &Vec<TestCase>, a: &str, b: &str) -> (r: bool)
    ensures
        r == (names_case(cases@, a@) || names_case(cases@, b@)),
{
    let mut i: usize = 0;
    while i < cases.len()
        invariant
            i <= cases.len(),
            forall|k: int| 0 <= k < i ==> cases@[k].test_case_id@ != a@ && cases@[k].test_case_id@ != b@,
        decreases cases.len() - i,
    {
        if str_eq(cases[i].test_case_id.as_str(), a) || str_eq(cases[i].test_case_id.as_str(), b) {
            assert(cases@[i as int].test_case_id@ == a@ || cases@[i as int].test_case_id@ == b@);
            return true;
        }
        i = i + 1;
    }
    false
}

fn suite_named(suites: &Vec<TestSuite>, a: &str, b: &str) -> (r: bool)
    ensures
        r == (names_suite(suites@, a@) || names_suite(suites@, b@)),
{
    let mut i: usize = 0;
    while i < suites.len()
        invariant
            i <= suites.len(),
            forall|k: int| 0 <= k < i ==> suites@[k].suite_id@ != a@ && suites@[k].suite_id@ != b@,
        decreases suites.len() - i,
    {
        if str_eq(suites[i].suite_id.as_str(), a) || str_eq(suites[i].suite_id.as_str(), b) {
            assert(suites@[i as int].suite_id@ == a@ || suites@[i as int].suite_id@ == b@);
            return true;
        }
        i = i + 1;
    }
    false
}

fn configuration_named(configurations: &Vec<TestConfiguration>, a: &str, b: &str) -> (r: bool)
    ensures
        r == (names_configuration(configurations@, a@) || names_configuration(configurations@, b@)),
{
    let mut i: usize = 0;
    while i < configurations.len()
        invariant
            i <= configurations.len(),
            forall|k: int| 0 <= k < i ==> configurations@[k].config_id@ != a@ && configurations@[k].config_id@ != b@,
        decreases configurations.len() - i,
    {
        if str_eq(configurations[i].config_id.as_str(), a) || str_eq(configurations[i].config_id.as_str(), b) {
            assert(configurations@[i as int].config_id@ == a@ || configurations@[i as int].config_id@ == b@);
            return true;
        }
        i = i + 1;
    }
    false
}

/// Adds a case to a suite, refusing a case that is already present.
///
/// The duplicate check compares both the case's own identifier and the
/// identifier the caller addressed it by.
pub fn attach_case_to_suite(suite: &mut TestSuite, test_case: &TestCase, target_case_id: &str) -> (r: Result<(), DomainError>)
    ensures
        r is Err <==> (names_case(old(suite).test_cases@, test_case.test_case_id@)
            || names_case(old(suite).test_cases@, target_case_id@)),
        r matches Err(e) ==> e@ == ErrorModel::Conflict("Test case is already in suite"@),
        r is Err ==> final(suite).test_cases@ == old(suite).test_cases@,
        r is Ok ==> appended(final(suite).test_cases@, old(suite).test_cases@, test_case.model()),
        final(suite).suite_id == old(suite).suite_id,
        final(suite).name == old(suite).name,
        final(suite).description == old(suite).description,
        final(suite).tags == old(suite).tags,
{
    if case_named(&suite.test_cases, test_case.test_case_id.as_str(), target_case_id) {
        return Err(DomainError::Conflict("Test case is already in suite".to_owned()));
    }
    suite.test_cases.push(test_case.copy());
    assert(suite.test_cases@.take(old(suite).test_cases@.len() as int) =~= old(suite).test_cases@);
    Ok(())
}

/// The cases of `cases` not named `id`.
pub open spec fn without_case(cases: Seq<TestCase>, id: Seq<char>) -> Seq<TestCase> {
    cases.filter(|c: TestCase| c.test_case_id@ != id)
}

/// Removes a case from a suite; a case that is not present is a 404.
pub fn detach_case_from_suite(suite: &mut TestSuite, case_id: &str) -> (r: Result<(), DomainError>)
    ensures
        final(suite).test_cases@ == without_case(old(suite).test_cases@, case_id@),
        r is Err <==> !names_case(old(suite).test_cases@, case_id@),
        r matches Err(e) ==> e@ == ErrorModel::NotFound("Test case not in suite"@),
        final(suite).suite_id == old(suite).suite_id,
        final(suite).name == old(suite).name,
        final(suite).description == old(suite).description,
        final(suite).tags == old(suite).tags,
{
    let before = suite.test_cases.len();
    let ghost p = |c: TestCase| c.test_case_id@ != case_id@;
    retain_matching(
        &mut suite.test_cases,
        |c: &TestCase| -> (b: bool)
            ensures b == (c.test_case_id@ != case_id@)
        { !str_eq(c.test_case_id.as_str(), case_id) },
        Ghost(p),
    );
    proof { lemma_filter_len_names(old(suite).test_cases@, case_id@); }
    if suite.test_cases.len() == before {
        return Err(DomainError::NotFound("Test case not in suite".to_owned()));
    }
    Ok(())
}

proof fn lemma_filter_len_names(cases: Seq<TestCase>, id: Seq<char>)
    ensures
        without_case(cases, id).len() == cases.len() <==> !names_case(cases, id),
    decreases cases.len(),
{
    let p = |c: TestCase| c.test_case_id@ != id;
    reveal_with_fuel(Seq::filter, 1);
    cases.lemma_filter_len(p);
    if cases.len() > 0 {
        lemma_filter_len_names(cases.drop_last(), id);
        if names_case(cases, id) {
            let k = choose|k: int| 0 <= k < cases.len() && (#[trigger] cases[k]).test_case_id@ == id;
            if k < cases.len() - 1 {
                assert(cases.drop_last()[k] == cases[k]);
            }
        }
        if names_case(cases.drop_last(), id) {
            let k = choose|k: int| 0 <= k < cases.drop_last().len() && (#[trigger] cases.drop_last()[k]).test_case_id@ == id;
            assert(cases[k] == cases.drop_last()[k]);
        }
        if !p(cases.last()) {
            assert(cases[cases.len() - 1].test_case_id@ == id);
        }
    }
}

/// The fields of a run other than its lists of suites, cases and results,
/// unchanged from `b` to `a`.
pub open spec fn same_header(a: TestRun, b: TestRun) -> bool {
    a.test_run_id == b.test_run_id && a.timestamp == b.timestamp && a.name == b.name
        && a.projects == b.projects && a.tags == b.tags
}

/// Adds a suite to a run, refusing a suite that is already present.
pub fn attach_suite_to_run(run: &mut TestRun, suite: &TestSuite, target_suite_id: &str) -> (r: Result<(), DomainError>)
    ensures
        r is Err <==> (names_suite(listed(old(run).test_suites), suite.suite_id@)
            || names_suite(listed(old(run).test_suites), target_suite_id@)),
        r matches Err(e) ==> e@ == ErrorModel::Conflict("Test suite is already in test run"@),
        r is Err ==> final(run).test_suites == old(run).test_suites,
        r is Ok ==> final(run).test_suites is Some && appended(listed(final(run).test_suites),
            listed(old(run).test_suites), suite.model()),
        same_header(*final(run), *old(run)),
        final(run).test_cases == old(run).test_cases,
        final(run).results == old(run).results,
        final(run).configurations == old(run).configurations,
        final(run).case_versions == old(run).case_versions,
{
    let mut suites = match run.test_suites.take() {
        Some(v) => v,
        None => Vec::new(),
    };
    if suite_named(&suites, suite.suite_id.as_str(), target_suite_id) {
        run.test_suites = Some(suites);
        return Err(DomainError::Conflict("Test suite is already in test run".to_owned()));
    }
    let ghost before = suites@;
    suites.push(suite.copy());
    assert(suites@.take(before.len() as int) =~= before);
    run.test_suites = Some(suites);
    Ok(())
}

/// Adds a case to a run, refusing a case that is already present.
pub fn attach_case_to_run(run: &mut TestRun, test_case: &TestCase, target_case_id: &str) -> (r: Result<(), DomainError>)
    ensures
        r is Err <==> (names_case(listed(old(run).test_cases), test_case.test_case_id@)
            || names_case(listed(old(run).test_cases), target_case_id@)),
        r matches Err(e) ==> e@ == ErrorModel::Conflict("Test case is already in test run"@),
        r is Err ==> final(run).test_cases == old(run).test_cases,
        r is Ok ==> final(run).test_cases is Some && appended(listed(final(run).test_cases),
            listed(old(run).test_cases), test_case.model()),
        same_header(*final(run), *old(run)),
        final(run).test_suites == old(run).test_suites,
        final(run).results == old(run).results,
        final(run).configurations == old(run).configurations,
        final(run).case_versions == old(run).case_versions,
{
    let mut cases = match run.test_cases.take() {
        Some(v) => v,
        None => Vec::new(),
    };
    if case_named(&cases, test_case.test_case_id.as_str(), target_case_id) {
        run.test_cases = Some(cases);
        return Err(DomainError::Conflict("Test case is already in test run".to_owned()));
    }
    let ghost before = cases@;
    cases.push(test_case.copy());
    assert(cases@.take(before.len() as int) =~= before);
    run.test_cases = Some(cases);
    Ok(())
}

/// Whether a list of pinned versions names `id`.
pub open spec fn pins(versions: Seq<(String, u64)>, id: Seq<char>) -> bool {
    exists|k: int| 0 <= k < versions.len() && (#[trigger] versions[k]).0@ == id
}

/// Whether pinning `version` for case `id` took the pinned versions from
/// `before` to `after`: a case already pinned keeps its version, and a new
/// case joins the end, as version 1 when it carries none.
pub open spec fn captured(before: Seq<(String, u64)>, after: Seq<(String, u64)>, id: Seq<char>, version: Option<u64>) -> bool {
    if pins(before, id) {
        after == before
    } else {
        &&& after.len() == before.len() + 1
        &&& after.take(before.len() as int) == before
        &&& after.last().0@ == id
        &&& after.last().1 == (match version {
            Some(v) => v,
            None => UNVERSIONED_CASE,
        })
    }
}

/// A run pins the first version it captures for a case: once a capture has
/// pinned it, a later capture of the same case changes nothing.
pub proof fn lemma_first_capture_is_kept(
    first: Seq<(String, u64)>,
    second: Seq<(String, u64)>,
    third: Seq<(String, u64)>,
    id: Seq<char>,
    a: Option<u64>,
    b: Option<u64>,
)
    requires
        captured(first, second, id, a),
        captured(second, third, id, b),
    ensures
        pins(second, id),
        third == second,
{
    if !pins(first, id) {
        let k = second.len() - 1;
        assert(second[k].0@ == id);
    }
}

/// Pins the version a run records for a case, keeping the first one it saw.
///
/// A case with no version of its own is pinned as version 1.
pub fn capture_case_version(run: &mut TestRun, case_id: &str, version: Option<u64>)
    ensures
        final(run).case_versions is Some,
        captured(listed(old(run).case_versions), listed(final(run).case_versions), case_id@, version),
        same_header(*final(run), *old(run)),
        final(run).test_suites == old(run).test_suites,
        final(run).test_cases == old(run).test_cases,
        final(run).results == old(run).results,
        final(run).configurations == old(run).configurations,
{
    let mut versions = match run.case_versions.take() {
        Some(v) => v,
        None => Vec::new(),
    };
    let mut i: usize = 0;
    let mut found = false;
    while i < versions.len()
        invariant
            i <= versions.len(),
            !found ==> forall|k: int| 0 <= k < i ==> versions@[k].0@ != case_id@,
            found ==> pins(versions@, case_id@),
        decreases versions.len() - i,
    {
        if str_eq(versions[i].0.as_str(), case_id) {
            assert(versions@[i as int].0@ == case_id@);
            found = true;
        }
        i = i + 1;
    }
    if !found {
        let pinned = match version {
            Some(v) => v,
            None => UNVERSIONED_CASE,
        };
        let ghost before = versions@;
        versions.push((case_id.to_owned(), pinned));
        assert(versions@.take(before.len() as int) =~= before);
    }
    run.case_versions = Some(versions);
}

/// Links a top-level configuration to a run, refusing one that is already
/// referenced.
///
/// The run stores a reference rather than a copy: the reference keeps the
/// configuration's identifier and name, and drops the descriptive fields the
/// resource owns.
pub fn attach_configuration_to_run(
    run: &mut TestRun,
    configuration: &TestConfiguration,
    target_config_id: &str,
) -> (r: Result<(), DomainError>)
    ensures
        r is Err <==> (names_configuration(listed(old(run).configurations), configuration.config_id@)
            || names_configuration(listed(old(run).configurations), target_config_id@)),
        r matches Err(e) ==> e@ == ErrorModel::Conflict("Test configuration is already linked to test run"@),
        r is Err ==> final(run).configurations == old(run).configurations,
        r is Ok ==> ({
            let after = listed(final(run).configurations);
            let before = listed(old(run).configurations);
            &&& final(run).configurations is Some
            &&& after.len() == before.len() + 1
            &&& after.take(before.len() as int) == before
            &&& after.last().config_id@ == target_config_id@
            &&& after.last().name == configuration.name
            &&& after.last().browser is None && after.last().os is None
            &&& after.last().device is None && after.last().resolution is None
        }),
        same_header(*final(run), *old(run)),
        final(run).test_suites == old(run).test_suites,
        final(run).test_cases == old(run).test_cases,
        final(run).results == old(run).results,
        final(run).case_versions == old(run).case_versions,
{
    let mut configurations = match run.configurations.take() {
        Some(v) => v,
        None => Vec::new(),
    };
    if configuration_named(&configurations, configuration.config_id.as_str(), target_config_id) {
        run.configurations = Some(configurations);
        return Err(DomainError::Conflict("Test configuration is already linked to test run".to_owned()));
    }
    let ghost before = configurations@;
    configurations.push(TestConfiguration {
        config_id: target_config_id.to_owned(),
        name: configuration.name.clone(),
        browser: None,
        os: None,
        device: None,
        resolution: None,
    });
    assert(configurations@.take(before.len() as int) =~= before);
    run.configurations = Some(configurations);
    Ok(())
}

/// The configurations of `c` not named `id`.
pub open spec fn without_configuration(c: Seq<TestConfiguration>, id: Seq<char>) -> Seq<TestConfiguration> {
    c.filter(|x: TestConfiguration| x.config_id@ != id)
}

/// Removes a configuration reference from a run; one that is not linked is a
/// 404. The run's list of references is present afterwards either way.
pub fn detach_configuration_from_run(run: &mut TestRun, config_id: &str) -> (r: Result<(), DomainError>)
    ensures
        final(run).configurations is Some,
        listed(final(run).configurations) == without_configuration(listed(old(run).configurations), config_id@),
        r is Err <==> !names_configuration(listed(old(run).configurations), config_id@),
        r matches Err(e) ==> e@ == ErrorModel::NotFound("Test configuration not linked to test run"@),
        same_header(*final(run), *old(run)),
        final(run).test_suites == old(run).test_suites,
        final(run).test_cases == old(run).test_cases,
        final(run).results == old(run).results,
        final(run).case_versions == old(run).case_versions,
{
    let mut configurations = match run.configurations.take() {
        Some(v) => v,
        None => Vec::new(),
    };
    let ghost before = configurations@;
    let count = configurations.len();
    let ghost p = |x: TestConfiguration| x.config_id@ != config_id@;
    retain_matching(
        &mut configurations,
        |x: &TestConfiguration| -> (b: bool)
            ensures b == (x.config_id@ != config_id@)
        { !str_eq(x.config_id.as_str(), config_id) },
        Ghost(p),
    );
    proof { lemma_filter_len_configurations(before, config_id@); }
    let unchanged = configurations.len() == count;
    run.configurations = Some(configurations);
    if unchanged {
        return Err(DomainError::NotFound("Test configuration not linked to test run".to_owned()));
    }
    Ok(())
}

proof fn lemma_filter_len_configurations(c: Seq<TestConfiguration>, id: Seq<char>)
    ensures
        without_configuration(c, id).len() == c.len() <==> !names_configuration(c, id),
    decreases c.len(),
{
    let p = |x: TestConfiguration| x.config_id@ != id;
    reveal_with_fuel(Seq::filter, 1);
    c.lemma_filter_len(p);
    if c.len() > 0 {
        lemma_filter_len_configurations(c.drop_last(), id);
        if names_configuration(c, id) {
            let k = choose|k: int| 0 <= k < c.len() && (#[trigger] c[k]).config_id@ == id;
            if k < c.len() - 1 {
                assert(c.drop_last()[k] == c[k]);
            }
        }
        if names_configuration(c.drop_last(), id) {
            let k = choose|k: int| 0 <= k < c.drop_last().len() && (#[trigger] c.drop_last()[k]).config_id@ == id;
            assert(c[k] == c.drop_last()[k]);
        }
        if !p(c.last()) {
            assert(c[c.len() - 1].config_id@ == id);
        }
    }
}

/// What a recording request says about one optional field of a result: an
/// omitted field keeps what the stored result carried, an explicit `null`
/// clears it, and a value replaces it.
#[derive(Debug, Clone, PartialEq, Eq)]
pub enum Patch<T> {
    Keep,
    Clear,
    Value(T),
}

/// The value a field holds after `patch` is applied to `stored`.
pub open spec fn patched<T>(stored: Option<T>, patch: Patch<T>) -> Option<T> {
    match patch {
        Patch::Keep => stored,
        Patch::Clear => None,
        Patch::Value(v) => Some(v),
    }
}

impl<T> Patch<T> {
    /// The value to store for a result that does not exist yet: a patch that
    /// keeps has nothing to keep.
    pub fn into_stored(self) -> (r: Option<T>)
        ensures
            r == patched(None, self),
    {
        match self {
            Patch::Value(value) => Some(value),
            Patch::Keep | Patch::Clear => None,
        }
    }
}

/// Applies a patch to a stored field.
pub fn apply_patch<T>(stored: &mut Option<T>, patch: Patch<T>)
    ensures
        *final(stored) == patched(*old(stored), patch),
{
    match patch {
        Patch::Keep => {},
        Patch::Clear => { *stored = None; },
        Patch::Value(value) => { *stored = Some(value); },
    }
}

/// The result a run should hold for one case after a recording request.
#[derive(Debug)]
pub struct ResultUpdate {
    pub test_case_id: String,
    pub status: String,
    pub timestamp: String,
    pub notes: Patch<String>,
    pub duration_ms: Patch<u64>,
}

/// The position of the result recorded for `id`, or `-1`.
pub open spec fn result_index(results: Seq<TestCaseResult>, id: Seq<char>) -> int {
    first_where(results, |r: TestCaseResult| r.test_case_id@ == id)
}

/// `stored` after `update` is recorded over it: the status and timestamp are
/// replaced, the optional fields follow their patches, and the attachments and
/// defect links are kept.
pub open spec fn recorded_over(stored: TestCaseResult, update: ResultUpdate) -> TestCaseResult {
    TestCaseResult {
        test_case_id: stored.test_case_id,
        status: update.status,
        timestamp: update.timestamp,
        notes: patched(stored.notes, update.notes),
        duration_ms: patched(stored.duration_ms, update.duration_ms),
        attachments: stored.attachments,
        defect_links: stored.defect_links,
    }
}

/// The result a request records for a case the run had no result for.
pub open spec fn fresh_result(update: ResultUpdate) -> TestCaseResult {
    TestCaseResult {
        test_case_id: update.test_case_id,
        status: update.status,
        timestamp: update.timestamp,
        notes: patched(None, update.notes),
        duration_ms: patched(None, update.duration_ms),
        attachments: None,
        defect_links: None,
    }
}

/// The results of a run after `update` is recorded.
pub open spec fn upserted(results: Seq<TestCaseResult>, update: ResultUpdate) -> Seq<TestCaseResult> {
    let i = result_index(results, update.test_case_id@);
    if i >= 0 {
        results.update(i, recorded_over(results[i], update))
    } else {
        results.push(fresh_result(update))
    }
}

pub(crate) fn find_result(results: &Vec<TestCaseResult>, case_id: &str) -> (r: Option<usize>)
    ensures
        (match r {
            Some(i) => i < results@.len() && i as int == result_index(results@, case_id@),
            None => result_index(results@, case_id@) == -1,
        }),
{
    let ghost p = |x: TestCaseResult| x.test_case_id@ == case_id@;
    let mut i: usize = 0;
    while i < results.len()
        invariant
            i <= results.len(),
            p == (|x: TestCaseResult| x.test_case_id@ == case_id@),
            forall|k: int| 0 <= k < i ==> !p(#[trigger] results@[k]),
        decreases results.len() - i,
    {
        if str_eq(results[i].test_case_id.as_str(), case_id) {
            proof { lemma_first_where(results@, p, i as int); }
            return Some(i);
        }
        i = i + 1;
    }
    proof { lemma_first_where(results@, p, i as int); }
    None
}

/// Records a result for a case, updating any earlier result for that case.
///
/// The status and timestamp always replace what was stored; `notes` and
/// `durationMs` follow their patches; attachments and defect links are kept.
pub fn upsert_result(run: &mut TestRun, update: ResultUpdate)
    ensures
        final(run).results is Some,
        listed(final(run).results) == upserted(listed(old(run).results), update),
        same_header(*final(run), *old(run)),
        final(run).test_suites == old(run).test_suites,
        final(run).test_cases == old(run).test_cases,
        final(run).configurations == old(run).configurations,
        final(run).case_versions == old(run).case_versions,
{
    let mut results = match run.results.take() {
        Some(v) => v,
        None => Vec::new(),
    };
    let ghost before = results@;
    let ghost u = update;
    match find_result(&results, update.test_case_id.as_str()) {
        Some(i) => {
            let mut existing = results.remove(i);
            let ResultUpdate { test_case_id: _, status, timestamp, notes, duration_ms } = update;
            existing.status = status;
            existing.timestamp = timestamp;
            apply_patch(&mut existing.notes, notes);
            apply_patch(&mut existing.duration_ms, duration_ms);
            results.insert(i, existing);
            assert(results@ =~= before.update(i as int, recorded_over(before[i as int], u)));
        },
        None => {
            let ResultUpdate { test_case_id, status, timestamp, notes, duration_ms } = update;
            results.push(TestCaseResult {
                test_case_id,
                status,
                timestamp,
                notes: notes.into_stored(),
                duration_ms: duration_ms.into_stored(),
                attachments: None,
                defect_links: None,
            });
        },
    }
    run.results = Some(results);
}

/// Whether a run holds `case_id`: it declares the case under `testCases` or
/// through one of its suites, or already records a result for it.
pub open spec fn run_holds(run: TestRun, case_id: Seq<char>) -> bool {
    names_case(listed(run.test_cases), case_id)
        || (exists|k: int| 0 <= k < listed(run.test_suites).len()
            && names_case((#[trigger] listed(run.test_suites)[k]).test_cases@, case_id))
        || result_index(listed(run.results), case_id) >= 0
}

proof fn lemma_result_index_finds(rs: Seq<TestCaseResult>, id: Seq<char>)
    ensures
        result_index(rs, id) >= 0 <==> exists|j: int| 0 <= j < rs.len() && (#[trigger] rs[j]).test_case_id@ == id,
    decreases rs.len(),
{
    if rs.len() > 0 {
        let rest = rs.drop_first();
        lemma_result_index_finds(rest, id);
        if exists|j: int| 0 <= j < rs.len() && (#[trigger] rs[j]).test_case_id@ == id {
            let j = choose|j: int| 0 <= j < rs.len() && (#[trigger] rs[j]).test_case_id@ == id;
            if j > 0 {
                assert(rest[j - 1] == rs[j]);
            }
        }
        if result_index(rest, id) >= 0 {
            let j = choose|j: int| 0 <= j < rest.len() && (#[trigger] rest[j]).test_case_id@ == id;
            assert(rs[j + 1] == rest[j]);
        }
        if rs[0].test_case_id@ == id {
            assert(rs[0].test_case_id@ == id);
        }
    }
}

/// A run holds a case exactly when its own `testCases` declare it, when a
/// suite it links, at any position, lists it, or when it records a result
/// for it.
pub proof fn lemma_run_holds_exactly(run: TestRun, id: Seq<char>)
    ensures
        run_holds(run, id) <==> {
            ||| exists|j: int| 0 <= j < listed(run.test_cases).len() && (#[trigger] listed(run.test_cases)[j]).test_case_id@ == id
            ||| exists|k: int, j: int|
                0 <= k < listed(run.test_suites).len() && 0 <= j < listed(run.test_suites)[k].test_cases@.len()
                    && (#[trigger] listed(run.test_suites)[k].test_cases@[j]).test_case_id@ == id
            ||| exists|j: int| 0 <= j < listed(run.results).len() && (#[trigger] listed(run.results)[j]).test_case_id@ == id
        },
{
    let rs = listed(run.results);
    lemma_result_index_finds(rs, id);
    let cs = listed(run.test_cases);
    assert(names_case(cs, id) <==> exists|j: int| 0 <= j < cs.len() && (#[trigger] cs[j]).test_case_id@ == id);
    let ss = listed(run.test_suites);
    if exists|k: int, j: int|
        0 <= k < ss.len() && 0 <= j < ss[k].test_cases@.len() && (#[trigger] ss[k].test_cases@[j]).test_case_id@ == id {
        let (k, j) = choose|k: int, j: int|
            0 <= k < ss.len() && 0 <= j < ss[k].test_cases@.len() && (#[trigger] ss[k].test_cases@[j]).test_case_id@ == id;
        assert(names_case(ss[k].test_cases@, id));
    }
    if exists|k: int| 0 <= k < ss.len() && names_case((#[trigger] ss[k]).test_cases@, id) {
        let k = choose|k: int| 0 <= k < ss.len() && names_case((#[trigger] ss[k]).test_cases@, id);
        let j = choose|j: int| 0 <= j < ss[k].test_cases@.len() && (#[trigger] ss[k].test_cases@[j]).test_case_id@ == id;
        assert(ss[k].test_cases@[j].test_case_id@ == id);
    }
}

fn any_case_named(cases: &Vec<TestCase>, id: &str) -> (r: bool)
    ensures
        r == names_case(cases@, id@),
{
    case_named(cases, id, id)
}

/// Whether a run holds `case_id`, so it may record a result for it.
pub fn holds_case(run: &TestRun, case_id: &str) -> (r: bool)
    ensures
        r == run_holds(*run, case_id@),
{
    let declared = match &run.test_cases {
        Some(cases) => any_case_named(cases, case_id),
        None => false,
    };
    let mut through_a_suite = false;
    match &run.test_suites {
        Some(suites) => {
            let mut i: usize = 0;
            while i < suites.len()
                invariant
                    i <= suites.len(),
                    !through_a_suite ==> forall|k: int| 0 <= k < i ==> !names_case((#[trigger] suites@[k]).test_cases@, case_id@),
                    through_a_suite ==> exists|k: int| 0 <= k < suites@.len() && names_case((#[trigger] suites@[k]).test_cases@, case_id@),
                decreases suites.len() - i,
            {
                if any_case_named(&suites[i].test_cases, case_id) {
                    through_a_suite = true;
                }
                i = i + 1;
            }
        },
        None => {},
    }
    let already_recorded = match &run.results {
        Some(results) => find_result(results, case_id).is_some(),
        None => false,
    };
    proof {
        if run.results is None {
            assert(listed(run.results) =~= Seq::<TestCaseResult>::empty());
        }
    }
    declared || through_a_suite || already_recorded
}

/// The defect links a result carries.
pub open spec fn links_of(result: TestCaseResult) -> Seq<DefectLink> {
    listed(result.defect_links)
}

/// Whether any link in `links` names the defect `id`.
pub open spec fn links_defect(links: Seq<DefectLink>, id: Seq<char>) -> bool {
    exists|k: int| 0 <= k < links.len() && (#[trigger] links[k]).defect_id@ == id
}

/// Whether any link in `links` is the link `id`.
pub open spec fn has_link(links: Seq<DefectLink>, id: Seq<char>) -> bool {
    exists|k: int| 0 <= k < links.len() && (#[trigger] links[k]).link_id@ == id
}

/// Adds a defect link to the result a run records for `case_id`, refusing a
/// defect that is already linked.
pub fn attach_defect_to_result(run: &mut TestRun, case_id: &str, link: DefectLink) -> (r: Result<(), DomainError>)
    ensures
        ({
            let before = listed(old(run).results);
            let i = result_index(before, case_id@);
            &&& i < 0 ==> (r matches Err(e) && e@ == ErrorModel::NotFound("Test result not found in test run"@))
            &&& i >= 0 && links_defect(links_of(before[i]), link.defect_id@) ==> (r matches Err(e)
                && e@ == ErrorModel::Conflict("Defect is already linked to test result"@))
            &&& r is Err ==> final(run).results == old(run).results
            &&& i >= 0 && !links_defect(links_of(before[i]), link.defect_id@) ==> ({
                let after = listed(final(run).results);
                let links = links_of(after[i]);
                &&& r is Ok
                &&& final(run).results is Some
                &&& after.len() == before.len()
                &&& forall|k: int| 0 <= k < before.len() && k != i ==> after[k] == before[k]
                &&& after[i].test_case_id == before[i].test_case_id
                &&& after[i].status == before[i].status
                &&& after[i].timestamp == before[i].timestamp
                &&& after[i].notes == before[i].notes
                &&& after[i].duration_ms == before[i].duration_ms
                &&& after[i].attachments == before[i].attachments
                &&& after[i].defect_links is Some
                &&& links == links_of(before[i]).push(link)
            })
        }),
        same_header(*final(run), *old(run)),
        final(run).test_suites == old(run).test_suites,
        final(run).test_cases == old(run).test_cases,
        final(run).configurations == old(run).configurations,
        final(run).case_versions == old(run).case_versions,
{
    let mut results = match run.results.take() {
        Some(v) => v,
        None => {
            proof { assert(listed(old(run).results) =~= Seq::<TestCaseResult>::empty()); }
            return Err(DomainError::NotFound("Test result not found in test run".to_owned()));
        },
    };
    let ghost before = results@;
    let i = match find_result(&results, case_id) {
        Some(i) => i,
        None => {
            run.results = Some(results);
            return Err(DomainError::NotFound("Test result not found in test run".to_owned()));
        },
    };
    let duplicate = match &results[i].defect_links {
        Some(existing) => links_name_defect(existing, link.defect_id.as_str()),
        None => false,
    };
    if duplicate {
        run.results = Some(results);
        return Err(DomainError::Conflict("Defect is already linked to test result".to_owned()));
    }
    let mut result = results.remove(i);
    let mut links = match result.defect_links.take() {
        Some(v) => v,
        None => Vec::new(),
    };
    proof {
        if before[i as int].defect_links is None {
            assert(links@ =~= Seq::<DefectLink>::empty());
            assert(!links_defect(links_of(before[i as int]), link.defect_id@));
        }
    }
    let ghost l = link;
    links.push(link);
    result.defect_links = Some(links);
    results.insert(i, result);
    run.results = Some(results);
    Ok(())
}

fn links_name_defect(links: &Vec<DefectLink>, id: &str) -> (r: bool)
    ensures
        r == links_defect(links@, id@),
{
    let mut k: usize = 0;
    while k < links.len()
        invariant
            k <= links.len(),
            forall|j: int| 0 <= j < k ==> links@[j].defect_id@ != id@,
        decreases links.len() - k,
    {
        if str_eq(links[k].defect_id.as_str(), id) {
            assert(links@[k as int].defect_id@ == id@);
            return true;
        }
        k = k + 1;
    }
    false
}

/// The links of `links` other than the link `id`.
pub open spec fn without_link(links: Seq<DefectLink>, id: Seq<char>) -> Seq<DefectLink> {
    links.filter(|x: DefectLink| x.link_id@ != id)
}

/// Removes the defect link `link_id` from the result a run records for
/// `case_id`; a link the result does not carry is a 404. A found result's list
/// of links is present afterwards either way.
pub fn detach_defect_from_result(run: &mut TestRun, case_id: &str, link_id: &str) -> (r: Result<(), DomainError>)
    ensures
        ({
            let before = listed(old(run).results);
            let i = result_index(before, case_id@);
            &&& i < 0 ==> final(run).results == old(run).results
            &&& i < 0 ==> (r matches Err(e) && e@ == ErrorModel::NotFound("Test result not found in test run"@))
            &&& i >= 0 ==> ({
                let after = listed(final(run).results);
                &&& final(run).results is Some
                &&& after.len() == before.len()
                &&& forall|k: int| 0 <= k < before.len() && k != i ==> after[k] == before[k]
                &&& after[i].test_case_id == before[i].test_case_id
                &&& after[i].status == before[i].status
                &&& after[i].timestamp == before[i].timestamp
                &&& after[i].notes == before[i].notes
                &&& after[i].duration_ms == before[i].duration_ms
                &&& after[i].attachments == before[i].attachments
                &&& after[i].defect_links is Some
                &&& links_of(after[i]) == without_link(links_of(before[i]), link_id@)
                &&& (r is Err <==> !has_link(links_of(before[i]), link_id@))
                &&& r matches Err(e) ==> e@ == ErrorModel::NotFound("Defect link not found in test result"@)
            })
        }),
        same_header(*final(run), *old(run)),
        final(run).test_suites == old(run).test_suites,
        final(run).test_cases == old(run).test_cases,
        final(run).configurations == old(run).configurations,
        final(run).case_versions == old(run).case_versions,
{
    let mut results = match run.results.take() {
        Some(v) => v,
        None => {
            proof { assert(listed(old(run).results) =~= Seq::<TestCaseResult>::empty()); }
            return Err(DomainError::NotFound("Test result not found in test run".to_owned()));
        },
    };
    let ghost before = results@;
    let i = match find_result(&results, case_id) {
        Some(i) => i,
        None => {
            run.results = Some(results);
            return Err(DomainError::NotFound("Test result not found in test run".to_owned()));
        },
    };
    let mut result = results.remove(i);
    let mut links = match result.defect_links.take() {
        Some(v) => v,
        None => Vec::new(),
    };
    let ghost old_links = links@;
    proof {
        if before[i as int].defect_links is None {
            assert(old_links =~= Seq::<DefectLink>::empty());
        }
    }
    let count = links.len();
    let ghost p = |x: DefectLink| x.link_id@ != link_id@;
    retain_matching(
        &mut links,
        |x: &DefectLink| -> (b: bool)
            ensures b == (x.link_id@ != link_id@)
        { !str_eq(x.link_id.as_str(), link_id) },
        Ghost(p),
    );
    proof { lemma_filter_len_links(old_links, link_id@); }
    let unchanged = links.len() == count;
    result.defect_links = Some(links);
    results.insert(i, result);
    run.results = Some(results);
    if unchanged {
        return Err(DomainError::NotFound("Defect link not found in test result".to_owned()));
    }
    Ok(())
}

proof fn lemma_filter_len_links(c: Seq<DefectLink>, id: Seq<char>)
    ensures
        without_link(c, id).len() == c.len() <==> !has_link(c, id),
    decreases c.len(),
{
    let p = |x: DefectLink| x.link_id@ != id;
    reveal_with_fuel(Seq::filter, 1);
    c.lemma_filter_len(p);
    if c.len() > 0 {
        lemma_filter_len_links(c.drop_last(), id);
        if has_link(c, id) {
            let k = choose|k: int| 0 <= k < c.len() && (#[trigger] c[k]).link_id@ == id;
            if k < c.len() - 1 {
                assert(c.drop_last()[k] == c[k]);
            }
        }
        if has_link(c.drop_last(), id) {
            let k = choose|k: int| 0 <= k < c.drop_last().len() && (#[trigger] c.drop_last()[k]).link_id@ == id;
            assert(c[k] == c.drop_last()[k]);
        }
        if !p(c.last()) {
            assert(c[c.len() - 1].link_id@ == id);
        }
    }
}

} // verus!
