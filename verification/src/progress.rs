//! Milestone progress: the case counters of every run a milestone references,
//! derived from the runs' own stored results rather than from live documents.

use vstd::prelude::*;

use crate::composition::listed;
use crate::import::opt_text;
use crate::models::{Milestone, TestCase, TestCaseResult, TestRun, TestSuite};
use crate::text::str_eq;

verus! {

/// A milestone's counters. The pass rate is `passed` over `total_cases`.
#[derive(Debug)]
pub struct ProgressCounts {
    pub milestone_id: String,
    pub total_cases: usize,
    pub passed: usize,
    pub failed: usize,
    pub blocked: usize,
    pub untested: usize,
    pub retest: usize,
}

/// A population: each case a run holds, once, with the status the run
/// recorded for it, if any.
pub type Population = Seq<(Seq<char>, Option<Seq<char>>)>;

/// Whether a population entry is the one for case `id`.
pub open spec fn entry_for(id: Seq<char>) -> spec_fn((Seq<char>, Option<Seq<char>>)) -> bool {
    |e: (Seq<char>, Option<Seq<char>>)| e.0 == id
}

/// `p` with case `id` holding `status`: an entry the population already has
/// takes the new status, and a new case joins the end.
pub open spec fn hold(p: Population, id: Seq<char>, status: Option<Seq<char>>) -> Population {
    let i = crate::seqs::first_where(p, entry_for(id));
    if 0 <= i < p.len() { p.update(i, (id, status)) } else { p.push((id, status)) }
}

/// `p` with every case of `cases` held, undecided.
pub open spec fn hold_cases(p: Population, cases: Seq<TestCase>) -> Population
    decreases cases.len(),
{
    if cases.len() == 0 {
        p
    } else {
        hold(hold_cases(p, cases.drop_last()), cases.last().test_case_id@, None)
    }
}

/// `p` with every case of every suite of `suites` held, undecided.
pub open spec fn hold_suites(p: Population, suites: Seq<TestSuite>) -> Population
    decreases suites.len(),
{
    if suites.len() == 0 {
        p
    } else {
        hold_cases(hold_suites(p, suites.drop_last()), suites.last().test_cases@)
    }
}

/// `p` with every case of `results` held with its recorded status.
pub open spec fn hold_results(p: Population, results: Seq<TestCaseResult>) -> Population
    decreases results.len(),
{
    if results.len() == 0 {
        p
    } else {
        hold(hold_results(p, results.drop_last()), results.last().test_case_id@, Some(results.last().status@))
    }
}

/// The cases a run holds: those its own `testCases` declare, those of the
/// suites it links, and those it recorded a result for, each once; a recorded
/// status wins over a bare declaration.
pub open spec fn population_of(run: TestRun) -> Population {
    hold_results(hold_suites(hold_cases(Seq::empty(), listed(run.test_cases)), listed(run.test_suites)), listed(run.results))
}

/// Whether population `p` has an entry for case `id`.
pub open spec fn holds_id(p: Population, id: Seq<char>) -> bool {
    exists|i: int| 0 <= i < p.len() && (#[trigger] p[i]).0 == id
}

proof fn lemma_hold_holds(p: Population, id: Seq<char>, status: Option<Seq<char>>, x: Seq<char>)
    ensures
        holds_id(hold(p, id, status), x) <==> (x == id || holds_id(p, x)),
{
    let f = entry_for(id);
    crate::seqs::lemma_first_where_facts(p, f);
    let i = crate::seqs::first_where(p, f);
    let q = hold(p, id, status);
    if 0 <= i < p.len() {
        assert(f(p[i]));
        assert(q == p.update(i, (id, status)));
        if holds_id(p, x) {
            let j = choose|j: int| 0 <= j < p.len() && (#[trigger] p[j]).0 == x;
            assert(q[j].0 == x);
        }
        if holds_id(q, x) {
            let j = choose|j: int| 0 <= j < q.len() && (#[trigger] q[j]).0 == x;
            if j != i {
                assert(p[j].0 == x);
            }
        }
        assert(q[i].0 == id);
    } else {
        assert(q == p.push((id, status)));
        if holds_id(p, x) {
            let j = choose|j: int| 0 <= j < p.len() && (#[trigger] p[j]).0 == x;
            assert(q[j].0 == x);
        }
        if holds_id(q, x) {
            let j = choose|j: int| 0 <= j < q.len() && (#[trigger] q[j]).0 == x;
            if j < p.len() {
                assert(p[j].0 == x);
            }
        }
        assert(q[p.len() as int].0 == id);
    }
}

proof fn lemma_hold_cases_holds(p: Population, cases: Seq<TestCase>, x: Seq<char>)
    ensures
        holds_id(hold_cases(p, cases), x) <==> (holds_id(p, x) || exists|j: int|
            0 <= j < cases.len() && (#[trigger] cases[j]).test_case_id@ == x),
    decreases cases.len(),
{
    if cases.len() > 0 {
        let init = cases.drop_last();
        lemma_hold_cases_holds(p, init, x);
        lemma_hold_holds(hold_cases(p, init), cases.last().test_case_id@, None, x);
        if exists|j: int| 0 <= j < cases.len() && (#[trigger] cases[j]).test_case_id@ == x {
            let j = choose|j: int| 0 <= j < cases.len() && (#[trigger] cases[j]).test_case_id@ == x;
            if j < init.len() {
                assert(init[j] == cases[j]);
            }
        }
        if exists|j: int| 0 <= j < init.len() && (#[trigger] init[j]).test_case_id@ == x {
            let j = choose|j: int| 0 <= j < init.len() && (#[trigger] init[j]).test_case_id@ == x;
            assert(cases[j] == init[j]);
        }
        assert(cases[cases.len() - 1] == cases.last());
    }
}

proof fn lemma_hold_suites_holds(p: Population, suites: Seq<TestSuite>, x: Seq<char>)
    ensures
        holds_id(hold_suites(p, suites), x) <==> (holds_id(p, x) || exists|k: int, j: int|
            0 <= k < suites.len() && 0 <= j < suites[k].test_cases@.len()
                && (#[trigger] suites[k].test_cases@[j]).test_case_id@ == x),
    decreases suites.len(),
{
    if suites.len() > 0 {
        let init = suites.drop_last();
        let last = suites.last();
        lemma_hold_suites_holds(p, init, x);
        lemma_hold_cases_holds(hold_suites(p, init), last.test_cases@, x);
        if exists|k: int, j: int|
            0 <= k < suites.len() && 0 <= j < suites[k].test_cases@.len()
                && (#[trigger] suites[k].test_cases@[j]).test_case_id@ == x {
            let (k, j) = choose|k: int, j: int|
                0 <= k < suites.len() && 0 <= j < suites[k].test_cases@.len()
                    && (#[trigger] suites[k].test_cases@[j]).test_case_id@ == x;
            if k < init.len() {
                assert(init[k] == suites[k]);
                assert(init[k].test_cases@[j].test_case_id@ == x);
            } else {
                assert(last.test_cases@[j].test_case_id@ == x);
            }
        }
        if exists|k: int, j: int|
            0 <= k < init.len() && 0 <= j < init[k].test_cases@.len()
                && (#[trigger] init[k].test_cases@[j]).test_case_id@ == x {
            let (k, j) = choose|k: int, j: int|
                0 <= k < init.len() && 0 <= j < init[k].test_cases@.len()
                    && (#[trigger] init[k].test_cases@[j]).test_case_id@ == x;
            assert(suites[k] == init[k]);
            assert(suites[k].test_cases@[j].test_case_id@ == x);
        }
        if exists|j: int| 0 <= j < last.test_cases@.len() && (#[trigger] last.test_cases@[j]).test_case_id@ == x {
            let j = choose|j: int| 0 <= j < last.test_cases@.len() && (#[trigger] last.test_cases@[j]).test_case_id@ == x;
            assert(suites[suites.len() - 1] == last);
            assert(suites[suites.len() - 1].test_cases@[j].test_case_id@ == x);
        }
    }
}

proof fn lemma_hold_results_holds(p: Population, results: Seq<TestCaseResult>, x: Seq<char>)
    ensures
        holds_id(hold_results(p, results), x) <==> (holds_id(p, x) || exists|j: int|
            0 <= j < results.len() && (#[trigger] results[j]).test_case_id@ == x),
    decreases results.len(),
{
    if results.len() > 0 {
        let init = results.drop_last();
        lemma_hold_results_holds(p, init, x);
        lemma_hold_holds(hold_results(p, init), results.last().test_case_id@, Some(results.last().status@), x);
        if exists|j: int| 0 <= j < results.len() && (#[trigger] results[j]).test_case_id@ == x {
            let j = choose|j: int| 0 <= j < results.len() && (#[trigger] results[j]).test_case_id@ == x;
            if j < init.len() {
                assert(init[j] == results[j]);
            }
        }
        if exists|j: int| 0 <= j < init.len() && (#[trigger] init[j]).test_case_id@ == x {
            let j = choose|j: int| 0 <= j < init.len() && (#[trigger] init[j]).test_case_id@ == x;
            assert(results[j] == init[j]);
        }
        assert(results[results.len() - 1] == results.last());
    }
}

/// A run's population holds a case exactly when the run declares it under
/// `testCases`, when any suite it links lists it, or when it records a result
/// for it.
pub proof fn lemma_population_holds_exactly(run: TestRun, x: Seq<char>)
    ensures
        holds_id(population_of(run), x) <==> {
            ||| exists|j: int| 0 <= j < listed(run.test_cases).len() && (#[trigger] listed(run.test_cases)[j]).test_case_id@ == x
            ||| exists|k: int, j: int|
                0 <= k < listed(run.test_suites).len() && 0 <= j < listed(run.test_suites)[k].test_cases@.len()
                    && (#[trigger] listed(run.test_suites)[k].test_cases@[j]).test_case_id@ == x
            ||| exists|j: int| 0 <= j < listed(run.results).len() && (#[trigger] listed(run.results)[j]).test_case_id@ == x
        },
{
    let empty = Seq::<(Seq<char>, Option<Seq<char>>)>::empty();
    let declared = hold_cases(empty, listed(run.test_cases));
    let with_suites = hold_suites(declared, listed(run.test_suites));
    lemma_hold_cases_holds(empty, listed(run.test_cases), x);
    lemma_hold_suites_holds(declared, listed(run.test_suites), x);
    lemma_hold_results_holds(with_suites, listed(run.results), x);
}

/// How many entries of `p` carry exactly the status `status`.
pub open spec fn count_status(p: Population, status: Option<Seq<char>>) -> nat
    decreases p.len(),
{
    if p.len() == 0 {
        0
    } else {
        count_status(p.drop_last(), status) + if p.last().1 == status { 1nat } else { 0nat }
    }
}

/// The statuses a counter other than `untested` stands for.
pub open spec fn decided(s: Option<Seq<char>>) -> bool {
    s == Some("Passed"@) || s == Some("Failed"@) || s == Some("Blocked"@) || s == Some("Retest"@)
}

/// How many entries of `p` are not decided: no result, `Untested`, or a
/// status this API does not recognise.
pub open spec fn count_undecided(p: Population) -> nat
    decreases p.len(),
{
    if p.len() == 0 {
        0
    } else {
        count_undecided(p.drop_last()) + if decided(p.last().1) { 0nat } else { 1nat }
    }
}

/// The sizes of the populations of `runs`, summed.
pub open spec fn total_population(runs: Seq<TestRun>) -> nat
    decreases runs.len(),
{
    if runs.len() == 0 { 0 } else { total_population(runs.drop_last()) + population_of(runs.last()).len() }
}

/// A counter summed over the populations of `runs`.
pub open spec fn total_with(runs: Seq<TestRun>, status: Option<Seq<char>>) -> nat
    decreases runs.len(),
{
    if runs.len() == 0 {
        0
    } else {
        total_with(runs.drop_last(), status) + count_status(population_of(runs.last()), status)
    }
}

/// The undecided counter summed over the populations of `runs`.
pub open spec fn total_undecided(runs: Seq<TestRun>) -> nat
    decreases runs.len(),
{
    if runs.len() == 0 { 0 } else { total_undecided(runs.drop_last()) + count_undecided(population_of(runs.last())) }
}

/// The model of a population held in a vector.
pub open spec fn population_model(v: Seq<(String, Option<String>)>) -> Population {
    v.map_values(
        |e: (String, Option<String>)|
            (
                e.0@,
                opt_text(e.1),
            ),
    )
}

fn hold_exec(p: &mut Vec<(String, Option<String>)>, id: &String, status: Option<String>)
    ensures
        population_model(final(p)@) == hold(population_model(old(p)@), id@, opt_text(status)),
{
    let ghost before = population_model(p@);
    let ghost st = opt_text(status);
    let ghost f = entry_for(id@);
    let mut i: usize = 0;
    while i < p.len()
        invariant
            i <= p.len(),
            before == population_model(p@),
            p@ == old(p)@,
            st == opt_text(status),
            f == entry_for(id@),
            forall|k: int| 0 <= k < i ==> !f(#[trigger] before[k]),
        decreases p.len() - i,
    {
        assert(before[i as int].0 == p@[i as int].0@);
        if str_eq(p[i].0.as_str(), id.as_str()) {
            proof { crate::seqs::lemma_first_where(before, f, i as int); }
            p.set(i, (id.clone(), status));
            assert(population_model(p@) =~= before.update(i as int, (id@, st)));
            return;
        }
        i = i + 1;
    }
    proof { crate::seqs::lemma_first_where(before, f, i as int); }
    p.push((id.clone(), status));
    assert(population_model(p@) =~= before.push((id@, st)));
}

fn hold_case_list(p: &mut Vec<(String, Option<String>)>, cases: &Vec<TestCase>)
    ensures
        population_model(final(p)@) == hold_cases(population_model(old(p)@), cases@),
{
    let ghost start = population_model(p@);
    let mut i: usize = 0;
    while i < cases.len()
        invariant
            i <= cases.len(),
            population_model(p@) == hold_cases(start, cases@.take(i as int)),
        decreases cases.len() - i,
    {
        assert(cases@.take(i + 1).drop_last() =~= cases@.take(i as int));
        hold_exec(p, &cases[i].test_case_id, None);
        i = i + 1;
    }
    assert(cases@.take(i as int) =~= cases@);
}

/// The cases a run holds, each once, with its recorded status.
pub fn population(run: &TestRun) -> (r: Vec<(String, Option<String>)>)
    ensures
        population_model(r@) == population_of(*run),
{
    let mut p: Vec<(String, Option<String>)> = Vec::new();
    assert(population_model(p@) =~= Seq::<(Seq<char>, Option<Seq<char>>)>::empty());
    match &run.test_cases {
        Some(cases) => hold_case_list(&mut p, cases),
        None => {
            assert(hold_cases(Seq::empty(), Seq::<TestCase>::empty()) == Seq::<(Seq<char>, Option<Seq<char>>)>::empty());
        },
    }
    let ghost declared = population_model(p@);
    assert(declared == hold_cases(Seq::empty(), listed(run.test_cases)));
    match &run.test_suites {
        Some(suites) => {
            let mut i: usize = 0;
            while i < suites.len()
                invariant
                    i <= suites.len(),
                    population_model(p@) == hold_suites(declared, suites@.take(i as int)),
                decreases suites.len() - i,
            {
                assert(suites@.take(i + 1).drop_last() =~= suites@.take(i as int));
                hold_case_list(&mut p, &suites[i].test_cases);
                i = i + 1;
            }
            assert(suites@.take(i as int) =~= suites@);
        },
        None => {},
    }
    let ghost with_suites = population_model(p@);
    assert(with_suites == hold_suites(declared, listed(run.test_suites)));
    match &run.results {
        Some(results) => {
            let mut i: usize = 0;
            while i < results.len()
                invariant
                    i <= results.len(),
                    population_model(p@) == hold_results(with_suites, results@.take(i as int)),
                decreases results.len() - i,
            {
                assert(results@.take(i + 1).drop_last() =~= results@.take(i as int));
                hold_exec(&mut p, &results[i].test_case_id, Some(results[i].status.clone()));
                i = i + 1;
            }
            assert(results@.take(i as int) =~= results@);
        },
        None => {},
    }
    p
}

/// Every entry of a population lands in exactly one counter.
pub proof fn lemma_counters_partition(p: Population)
    ensures
        count_status(p, Some("Passed"@)) + count_status(p, Some("Failed"@)) + count_status(p, Some("Blocked"@))
            + count_status(p, Some("Retest"@)) + count_undecided(p) == p.len(),
    decreases p.len(),
{
    reveal_strlit("Passed");
    reveal_strlit("Failed");
    reveal_strlit("Blocked");
    reveal_strlit("Retest");
    assert("Passed"@[0] == 'P' && "Failed"@[0] == 'F' && "Blocked"@[0] == 'B' && "Retest"@[0] == 'R');
    if p.len() > 0 {
        lemma_counters_partition(p.drop_last());
    }
}

/// Summed over any runs, the five counters add up to the population.
pub proof fn lemma_totals_partition(runs: Seq<TestRun>)
    ensures
        total_with(runs, Some("Passed"@)) + total_with(runs, Some("Failed"@)) + total_with(runs, Some("Blocked"@))
            + total_with(runs, Some("Retest"@)) + total_undecided(runs) == total_population(runs),
    decreases runs.len(),
{
    if runs.len() > 0 {
        lemma_totals_partition(runs.drop_last());
        lemma_counters_partition(population_of(runs.last()));
    }
}

proof fn lemma_population_prefix(runs: Seq<TestRun>, n: int)
    requires
        0 <= n <= runs.len(),
    ensures
        total_population(runs.take(n)) <= total_population(runs),
    decreases runs.len() - n,
{
    if n < runs.len() {
        lemma_population_prefix(runs, n + 1);
        assert(runs.take(n + 1).drop_last() =~= runs.take(n));
    } else {
        assert(runs.take(n) =~= runs);
    }
}

/// Aggregates the case counters of every run linked to a milestone: each run
/// contributes every case it holds, once, in exactly one counter.
pub fn compute(milestone: &Milestone, runs: &[TestRun]) -> (r: ProgressCounts)
    requires
        total_population(runs@) <= usize::MAX,
    ensures
        r.milestone_id@ == milestone.milestone_id@,
        r.total_cases == total_population(runs@),
        r.passed == total_with(runs@, Some("Passed"@)),
        r.failed == total_with(runs@, Some("Failed"@)),
        r.blocked == total_with(runs@, Some("Blocked"@)),
        r.retest == total_with(runs@, Some("Retest"@)),
        r.untested == total_undecided(runs@),
        r.passed + r.failed + r.blocked + r.untested + r.retest == r.total_cases,
{
    let ghost all = runs@;
    let mut total_cases: usize = 0;
    let mut passed: usize = 0;
    let mut failed: usize = 0;
    let mut blocked: usize = 0;
    let mut untested: usize = 0;
    let mut retest: usize = 0;
    let mut i: usize = 0;
    while i < runs.len()
        invariant
            i <= runs.len(),
            all == runs@,
            total_population(all) <= usize::MAX,
            total_cases == total_population(all.take(i as int)),
            passed == total_with(all.take(i as int), Some("Passed"@)),
            failed == total_with(all.take(i as int), Some("Failed"@)),
            blocked == total_with(all.take(i as int), Some("Blocked"@)),
            retest == total_with(all.take(i as int), Some("Retest"@)),
            untested == total_undecided(all.take(i as int)),
        decreases runs.len() - i,
    {
        let p = population(&runs[i]);
        let ghost pm = population_model(p@);
        proof {
            assert(all.take(i + 1).drop_last() =~= all.take(i as int));
            assert(all.take(i + 1).last() == all[i as int]);
            lemma_population_prefix(all, i + 1);
            lemma_totals_partition(all.take(i as int));
            lemma_counters_partition(pm);
        }
        let mut k: usize = 0;
        let ghost base_total = total_cases;
        let ghost base = (passed as int, failed as int, blocked as int, retest as int, untested as int);
        while k < p.len()
            invariant
                k <= p.len(),
                pm == population_model(p@),
                base_total + pm.len() <= usize::MAX,
                total_cases == base_total + k,
                passed == base.0 + count_status(pm.take(k as int), Some("Passed"@)),
                failed == base.1 + count_status(pm.take(k as int), Some("Failed"@)),
                blocked == base.2 + count_status(pm.take(k as int), Some("Blocked"@)),
                retest == base.3 + count_status(pm.take(k as int), Some("Retest"@)),
                untested == base.4 + count_undecided(pm.take(k as int)),
                base.0 + base.1 + base.2 + base.3 + base.4 == base_total,
            decreases p.len() - k,
        {
            proof {
                assert(pm.take(k + 1).drop_last() =~= pm.take(k as int));
                assert(pm.take(k + 1).last() == pm[k as int]);
                lemma_counters_partition(pm.take(k as int));
                reveal_strlit("Passed");
                reveal_strlit("Failed");
                reveal_strlit("Blocked");
                reveal_strlit("Retest");
                reveal_strlit("Untested");
                assert("Passed"@[0] == 'P' && "Failed"@[0] == 'F' && "Blocked"@[0] == 'B' && "Retest"@[0] == 'R');
            }
            total_cases = total_cases + 1;
            match &p[k].1 {
                Some(s) => {
                    assert(pm[k as int].1 == Some(s@));
                    if str_eq(s.as_str(), "Passed") {
                        passed = passed + 1;
                    } else if str_eq(s.as_str(), "Failed") {
                        failed = failed + 1;
                    } else if str_eq(s.as_str(), "Blocked") {
                        blocked = blocked + 1;
                    } else if str_eq(s.as_str(), "Retest") {
                        retest = retest + 1;
                    } else {
                        untested = untested + 1;
                    }
                },
                None => {
                    untested = untested + 1;
                },
            }
            k = k + 1;
        }
        assert(pm.take(k as int) =~= pm);
        i = i + 1;
    }
    proof {
        assert(all.take(i as int) =~= all);
        lemma_totals_partition(all);
    }
    ProgressCounts { milestone_id: milestone.milestone_id.clone(), total_cases, passed, failed, blocked, untested, retest }
}

/// Whether the runs' populations fit the counters, so [`compute`] can count
/// them: the populations, summed, are at most `usize::MAX`.
pub fn counts_fit(runs: &[TestRun]) -> (r: bool)
    ensures
        r == (total_population(runs@) <= usize::MAX),
{
    let ghost all = runs@;
    let mut total: usize = 0;
    let mut i: usize = 0;
    while i < runs.len()
        invariant
            i <= runs.len(),
            all == runs@,
            total == total_population(all.take(i as int)),
        decreases runs.len() - i,
    {
        let n = population(&runs[i]).len();
        assert(all.take(i + 1).drop_last() =~= all.take(i as int));
        if n > usize::MAX - total {
            proof {
                lemma_population_prefix(all, i + 1);
            }
            return false;
        }
        total = total + n;
        i = i + 1;
    }
    assert(all.take(i as int) =~= all);
    true
}

} // verus!
