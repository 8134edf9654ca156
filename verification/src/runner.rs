//! Load test runs: the flow of a test, its sequence of executions, and the
//! report built from the outcomes.
//!
//! A run is driven from outside: `next_request` says what to send next (or
//! that the run is over), `record` takes the outcome of that execution, and
//! `report` summarises the outcomes so far.
use vstd::prelude::*;
use vstd::relations::{sorted_by, total_ordering};

use crate::interpolation::{interpolate, interpolate_request, interpolate_spec, interpolated_from, vars_view};
use crate::model::{
    copy_opt_string, copy_summaries, CsvSource, LoadTest, LoadTestReport, Request, RequestSummary,
    Response, RunEvent, RunProgress,
};
use crate::text::{
    lemma_text_lt_irreflexive, lemma_text_lt_total, lemma_text_lt_transitive, push_quoted,
    push_str, quoted, text_less, text_lt,
};

verus! {

/// Outcome of one execution of a request.
#[derive(Debug, Clone)]
pub struct Sample {
    pub duration_ms: u128,
    /// No validation failed and no network error happened.
    pub passed: bool,
    /// Network or parsing error, if any.
    pub error: Option<String>,
    /// HTTP status of the response, `None` when there was none.
    pub status: Option<u16>,
}

impl Sample {
    /// The outcome of a request that got a response: it passed when every
    /// validation passed.
    pub fn of_response(r: &Response) -> (s: Sample)
        ensures
            s.duration_ms == r.duration_ms,
            s.passed == (forall|i: int|
                0 <= i < r.validation_results@.len() ==> (#[trigger] r.validation_results@[i]).passed),
            s.error is None,
            s.status == Some(r.status),
    {
        let mut passed = true;
        let mut i: usize = 0;
        while i < r.validation_results.len()
            invariant
                i <= r.validation_results@.len(),
                passed == (forall|k: int| 0 <= k < i ==> (#[trigger] r.validation_results@[k]).passed),
            decreases r.validation_results.len() - i,
        {
            passed = passed && r.validation_results[i].passed;
            i = i + 1;
        }
        Sample { duration_ms: r.duration_ms, passed, error: None, status: Some(r.status) }
    }

    /// The outcome of a request that failed before any response.
    pub fn of_error(e: String) -> (s: Sample)
        ensures
            s.duration_ms == 0,
            !s.passed,
            s.error == Some(e),
            s.status is None,
    {
        Sample { duration_ms: 0, passed: false, error: Some(e), status: None }
    }
}

/// One recorded execution: request name, passed, duration, error.
pub type Entry = (Seq<char>, bool, u128, Option<Seq<char>>);

// ---------------------------------------------------------------------------
// Flow selection
// ---------------------------------------------------------------------------

/// Index of the first request named `n`, at or after `i`.
pub open spec fn request_index(reqs: Seq<Request>, n: Seq<char>, i: int) -> Option<int>
    decreases reqs.len() - i,
{
    if i < 0 || i >= reqs.len() {
        None
    } else if reqs[i].name@ == n {
        Some(i)
    } else {
        request_index(reqs, n, i + 1)
    }
}

pub open spec fn missing_request_msg(n: Seq<char>) -> Seq<char> {
    "la solicitud "@ + quoted(n) + " no existe en la colección"@
}

pub open spec fn empty_flow_msg(t: Seq<char>) -> Seq<char> {
    "el test "@ + quoted(t) + " no tiene solicitudes que ejecutar"@
}

/// The requests named, in order; the first name without a request is an error.
pub open spec fn select_names(names: Seq<String>, reqs: Seq<Request>) -> Result<Seq<int>, Seq<char>>
    decreases names.len(),
{
    if names.len() == 0 {
        Ok(Seq::empty())
    } else {
        match request_index(reqs, names[0]@, 0) {
            None => Err(missing_request_msg(names[0]@)),
            Some(i) => match select_names(names.drop_first(), reqs) {
                Ok(rest) => Ok(seq![i] + rest),
                Err(e) => Err(e),
            },
        }
    }
}

/// Flow of a test: its named requests (all requests when it names none),
/// an error when that flow is empty.
pub open spec fn flow_spec(test: LoadTest, reqs: Seq<Request>) -> Result<Seq<int>, Seq<char>> {
    let sel = if test.request_names@.len() == 0 {
        Ok(Seq::new(reqs.len(), |i: int| i))
    } else {
        select_names(test.request_names@, reqs)
    };
    match sel {
        Err(e) => Err(e),
        Ok(f) => if f.len() == 0 {
            Err(empty_flow_msg(test.name@))
        } else {
            Ok(f)
        },
    }
}

pub open spec fn prepend(acc: Seq<int>, r: Result<Seq<int>, Seq<char>>) -> Result<Seq<int>, Seq<char>> {
    match r {
        Ok(rest) => Ok(acc + rest),
        Err(e) => Err(e),
    }
}

pub open spec fn indices_match(v: Seq<usize>, f: Seq<int>) -> bool {
    v.len() == f.len() && forall|k: int| 0 <= k < v.len() ==> v[k] as int == #[trigger] f[k]
}

fn find_request(requests: &Vec<Request>, name: &String) -> (r: Option<usize>)
    ensures
        match r {
            Some(i) => request_index(requests@, name@, 0) == Some(i as int),
            None => request_index(requests@, name@, 0) is None,
        },
{
    let mut i: usize = 0;
    while i < requests.len()
        invariant
            i <= requests.len(),
            request_index(requests@, name@, 0) == request_index(requests@, name@, i as int),
        decreases requests.len() - i,
    {
        if requests[i].name == *name {
            return Some(i);
        }
        i = i + 1;
    }
    None
}

/// Indices of the requests that the test runs, in order.
pub fn select_flow(test: &LoadTest, requests: &Vec<Request>) -> (r: Result<Vec<usize>, String>)
    ensures
        match flow_spec(*test, requests@) {
            Ok(f) => r matches Ok(v) && indices_match(v@, f),
            Err(e) => r matches Err(m) && m@ == e,
        },
{
    let mut flow: Vec<usize> = Vec::new();
    if test.request_names.len() == 0 {
        let mut i: usize = 0;
        while i < requests.len()
            invariant
                i <= requests.len(),
                flow@.len() == i,
                forall|k: int| 0 <= k < i ==> flow@[k] == k,
            decreases requests.len() - i,
        {
            flow.push(i);
            i = i + 1;
        }
        assert(indices_match(flow@, Seq::new(requests@.len(), |i: int| i)));
    } else {
        let names = &test.request_names;
        let mut j: usize = 0;
        assert(names@.skip(0) =~= names@);
        assert(Seq::<int>::empty() + Seq::<int>::empty() =~= Seq::<int>::empty());
        while j < names.len()
            invariant
                j <= names.len(),
                names == &test.request_names,
                flow@.len() == j,
                select_names(names@, requests@) == prepend(
                    flow@.map_values(|x: usize| x as int),
                    select_names(names@.skip(j as int), requests@),
                ),
            decreases names.len() - j,
        {
            let ghost acc = flow@.map_values(|x: usize| x as int);
            assert(names@.skip(j as int).drop_first() =~= names@.skip(j + 1));
            match find_request(requests, &names[j]) {
                None => {
                    let mut msg = String::new();
                    push_str(&mut msg, "la solicitud ");
                    push_quoted(&mut msg, names[j].as_str());
                    push_str(&mut msg, " no existe en la colección");
                    return Err(msg);
                },
                Some(i) => {
                    flow.push(i);
                    proof {
                        let acc2 = flow@.map_values(|x: usize| x as int);
                        assert(acc2 =~= acc + seq![i as int]);
                        match select_names(names@.skip(j + 1), requests@) {
                            Ok(rest) => {
                                assert(acc + (seq![i as int] + rest) =~= acc2 + rest);
                            },
                            Err(_) => {},
                        }
                    }
                    j = j + 1;
                },
            }
        }
        assert(names@.skip(j as int) =~= Seq::<String>::empty());
        proof {
            let acc = flow@.map_values(|x: usize| x as int);
            assert(acc + Seq::<int>::empty() =~= acc);
        }
    }
    if flow.len() == 0 {
        let mut msg = String::new();
        push_str(&mut msg, "el test ");
        push_quoted(&mut msg, test.name.as_str());
        push_str(&mut msg, " no tiene solicitudes que ejecutar");
        return Err(msg);
    }
    Ok(flow)
}

// ---------------------------------------------------------------------------
// Outcomes and reports
// ---------------------------------------------------------------------------

pub open spec fn opt_view(e: Option<String>) -> Option<Seq<char>> {
    match e {
        Some(s) => Some(s@),
        None => None,
    }
}

pub open spec fn passed_count(h: Seq<Entry>) -> nat
    decreases h.len(),
{
    if h.len() == 0 {
        0
    } else {
        passed_count(h.drop_last()) + if h.last().1 {
            1nat
        } else {
            0nat
        }
    }
}

pub open spec fn duration_sum(h: Seq<Entry>) -> nat
    decreases h.len(),
{
    if h.len() == 0 {
        0
    } else {
        duration_sum(h.drop_last()) + h.last().2 as nat
    }
}

pub open spec fn durations(h: Seq<Entry>) -> Seq<u128> {
    h.map_values(|e: Entry| e.2)
}

pub open spec fn name_count(h: Seq<Entry>, n: Seq<char>) -> nat
    decreases h.len(),
{
    if h.len() == 0 {
        0
    } else {
        name_count(h.drop_last(), n) + if h.last().0 == n {
            1nat
        } else {
            0nat
        }
    }
}

pub open spec fn name_passed(h: Seq<Entry>, n: Seq<char>) -> nat
    decreases h.len(),
{
    if h.len() == 0 {
        0
    } else {
        name_passed(h.drop_last(), n) + if h.last().0 == n && h.last().1 {
            1nat
        } else {
            0nat
        }
    }
}

/// Error lines kept by a run: `name: error` of failed executions that carry
/// an error, the first twenty only.
pub open spec fn error_log(h: Seq<Entry>) -> Seq<Seq<char>>
    decreases h.len(),
{
    if h.len() == 0 {
        Seq::empty()
    } else {
        let prev = error_log(h.drop_last());
        let e = h.last();
        if !e.1 && prev.len() < 20 && e.3 is Some {
            prev.push(e.0 + ": "@ + e.3->0)
        } else {
            prev
        }
    }
}

pub open spec fn ms_leq() -> spec_fn(u128, u128) -> bool {
    |a: u128, b: u128| a <= b
}

/// Position of the 95th percentile among `n` sorted values: `(n - 1) * 0.95`
/// rounded to the nearest, halves away from zero.
pub open spec fn p95_index(n: nat) -> int {
    ((n - 1) * 95 + 50) / 100
}

/// The 95th percentile of the durations (0 when there are none).
pub open spec fn p95_spec(d: Seq<u128>) -> u128 {
    if d.len() == 0 {
        0
    } else {
        d.sort_by(ms_leq())[p95_index(d.len())]
    }
}

/// Integer mean of the durations (0 when there are none).
pub open spec fn avg_spec(h: Seq<Entry>) -> int {
    if h.len() == 0 {
        0
    } else {
        duration_sum(h) as int / h.len() as int
    }
}

pub open spec fn summaries_sorted(pr: Seq<RequestSummary>) -> bool {
    forall|i: int, j: int| 0 <= i < j < pr.len() ==> text_lt(#[trigger] pr[i].name@, #[trigger] pr[j].name@)
}

/// One summary per request name met, in name order, with its counts.
pub open spec fn summaries_match(pr: Seq<RequestSummary>, h: Seq<Entry>) -> bool {
    &&& summaries_sorted(pr)
    &&& forall|i: int|
        0 <= i < pr.len() ==> (#[trigger] pr[i]).total == name_count(h, pr[i].name@)
            && pr[i].success == name_passed(h, pr[i].name@) && pr[i].failed == pr[i].total
            - pr[i].success
    &&& forall|n: Seq<char>|
        #![trigger name_count(h, n)]
        (exists|i: int| 0 <= i < pr.len() && pr[i].name@ == n) <==> name_count(h, n) > 0
}

pub open spec fn sum_totals(pr: Seq<RequestSummary>) -> int
    decreases pr.len(),
{
    if pr.len() == 0 {
        0
    } else {
        sum_totals(pr.drop_last()) + pr.last().total
    }
}

/// Sum of the successes of the summaries.
pub open spec fn sum_successes(pr: Seq<RequestSummary>) -> int
    decreases pr.len(),
{
    if pr.len() == 0 {
        0
    } else {
        sum_successes(pr.drop_last()) + pr.last().success
    }
}

/// `r` reports the executions `h` of test `name`, which took `duration` ms.
pub open spec fn report_of(r: LoadTestReport, name: Seq<char>, h: Seq<Entry>, duration: u128) -> bool {
    &&& r.test_name@ == name
    &&& r.duration_ms == duration
    &&& r.total_requests == h.len()
    &&& r.success == passed_count(h)
    &&& r.failed == h.len() - passed_count(h)
    &&& r.avg_ms == avg_spec(h)
    &&& r.p95_ms == p95_spec(durations(h))
    &&& summaries_match(r.per_request@, h)
    &&& r.errors@.len() == error_log(h).len()
    &&& forall|i: int| 0 <= i < r.errors@.len() ==> (#[trigger] r.errors@[i])@ == error_log(h)[i]
}

// ---------------------------------------------------------------------------
// Lemmas on counts
// ---------------------------------------------------------------------------

pub proof fn lemma_counts_bounded(h: Seq<Entry>, n: Seq<char>)
    ensures
        passed_count(h) <= h.len(),
        name_count(h, n) <= h.len(),
        name_passed(h, n) <= name_count(h, n),
    decreases h.len(),
{
    if h.len() > 0 {
        lemma_counts_bounded(h.drop_last(), n);
    }
}

pub proof fn lemma_error_log_bounded(h: Seq<Entry>)
    ensures
        error_log(h).len() <= 20,
    decreases h.len(),
{
    if h.len() > 0 {
        lemma_error_log_bounded(h.drop_last());
    }
}

proof fn lemma_sum_update(pr: Seq<RequestSummary>, i: int, x: RequestSummary)
    requires
        0 <= i < pr.len(),
    ensures
        sum_totals(pr.update(i, x)) == sum_totals(pr) - pr[i].total + x.total,
        sum_successes(pr.update(i, x)) == sum_successes(pr) - pr[i].success + x.success,
    decreases pr.len(),
{
    if i < pr.len() - 1 {
        assert(pr.update(i, x).drop_last() =~= pr.drop_last().update(i, x));
        lemma_sum_update(pr.drop_last(), i, x);
    } else {
        assert(pr.update(i, x).drop_last() =~= pr.drop_last());
    }
}

proof fn lemma_sum_insert(pr: Seq<RequestSummary>, i: int, x: RequestSummary)
    requires
        0 <= i <= pr.len(),
    ensures
        sum_totals(pr.insert(i, x)) == sum_totals(pr) + x.total,
        sum_successes(pr.insert(i, x)) == sum_successes(pr) + x.success,
    decreases pr.len(),
{
    if i < pr.len() {
        assert(pr.insert(i, x).drop_last() =~= pr.drop_last().insert(i, x));
        lemma_sum_insert(pr.drop_last(), i, x);
    } else {
        assert(pr.insert(i, x).drop_last() =~= pr);
    }
}

proof fn lemma_ms_leq_total()
    ensures
        total_ordering(ms_leq()),
{
}

/// A sorted permutation of the durations is their sort.
proof fn lemma_sorted_is_sort(s: Seq<u128>, d: Seq<u128>)
    requires
        sorted_by(s, ms_leq()),
        s.to_multiset() == d.to_multiset(),
    ensures
        s == d.sort_by(ms_leq()),
{
    lemma_ms_leq_total();
    d.lemma_sort_by_ensures(ms_leq());
    vstd::seq_lib::lemma_sorted_unique(s, d.sort_by(ms_leq()), ms_leq());
}

// ---------------------------------------------------------------------------
// Runs
// ---------------------------------------------------------------------------

/// State of a load test run.
pub struct RunSession {
    test_name: String,
    requests: Vec<Request>,
    flow: Vec<usize>,
    rows: Vec<Vec<(String, String)>>,
    iterations: u64,
    delay_ms: u64,
    iteration: u64,
    position: usize,
    pending: bool,
    stopped: bool,
    completed: u64,
    successes: u64,
    sum_ms: u128,
    sorted_ms: Vec<u128>,
    errors: Vec<String>,
    per_request: Vec<RequestSummary>,
    last: Option<Sample>,
    history: Ghost<Seq<Entry>>,
    statuses: Ghost<Seq<Option<u16>>>,
}

impl RunSession {
    /// Executions recorded so far.
    pub closed spec fn history(&self) -> Seq<Entry> {
        self.history@
    }

    /// HTTP status of each recorded execution, `None` where there was no response.
    pub closed spec fn statuses(&self) -> Seq<Option<u16>> {
        self.statuses@
    }

    pub closed spec fn test_name_spec(&self) -> Seq<char> {
        self.test_name@
    }

    pub closed spec fn requests_spec(&self) -> Seq<Request> {
        self.requests@
    }

    pub closed spec fn flow_spec_of(&self) -> Seq<usize> {
        self.flow@
    }

    pub closed spec fn rows_spec(&self) -> Seq<Seq<(Seq<char>, Seq<char>)>> {
        self.rows@.map_values(|r: Vec<(String, String)>| vars_view(r@))
    }

    pub closed spec fn iterations_spec(&self) -> u64 {
        self.iterations
    }

    pub closed spec fn delay_spec(&self) -> u64 {
        self.delay_ms
    }

    /// A request was handed out and its outcome is awaited.
    pub closed spec fn is_pending(&self) -> bool {
        self.pending
    }

    /// The run is over (cancelled, or every execution done).
    pub closed spec fn is_stopped(&self) -> bool {
        self.stopped
    }

    /// Number of executions of a complete run.
    pub open spec fn total_spec(&self) -> int {
        self.iterations_spec() * self.flow_spec_of().len()
    }

    /// Request of execution `k`: flow entry `k mod n`.
    pub open spec fn request_at(&self, k: int) -> Request {
        self.requests_spec()[self.flow_spec_of()[k % (self.flow_spec_of().len() as int)] as int]
    }

    /// Variables of execution `k`: CSV row `(k div n) mod rows`, none without rows.
    pub open spec fn vars_at(&self, k: int) -> Seq<(Seq<char>, Seq<char>)> {
        if self.rows_spec().len() == 0 {
            Seq::empty()
        } else {
            self.rows_spec()[(k / (self.flow_spec_of().len() as int)) % (
            self.rows_spec().len() as int)]
        }
    }

    pub closed spec fn wf(&self) -> bool {
        let h = self.history@;
        let n = self.flow@.len() as int;
        &&& n > 0
        &&& forall|k: int| 0 <= k < n ==> (#[trigger] self.flow@[k]) < self.requests@.len()
        &&& self.iterations * n <= u64::MAX
        &&& self.iteration <= self.iterations
        &&& self.position < n
        &&& self.iteration == self.iterations ==> self.position == 0
        &&& h.len() == self.iteration * n + self.position
        &&& self.pending ==> self.iteration < self.iterations && !self.stopped
        &&& forall|k: int| 0 <= k < h.len() ==> (#[trigger] h[k]).0 == self.request_at(k).name@
        &&& self.completed == h.len()
        &&& self.successes == passed_count(h)
        &&& self.sum_ms == duration_sum(h)
        &&& sorted_by(self.sorted_ms@, ms_leq())
        &&& self.sorted_ms@.to_multiset() == durations(h).to_multiset()
        &&& self.errors@.len() == error_log(h).len()
        &&& forall|i: int| 0 <= i < self.errors@.len() ==> (#[trigger] self.errors@[i])@ == error_log(h)[i]
        &&& summaries_match(self.per_request@, h)
        &&& sum_totals(self.per_request@) == h.len()
        &&& sum_successes(self.per_request@) == passed_count(h)
        &&& self.statuses@.len() == h.len()
        &&& h.len() > 0 ==> (self.last matches Some(s) && s.passed == h.last().1 && s.duration_ms
            == h.last().2 && opt_view(s.error) == h.last().3 && s.status == self.statuses@.last())
    }

    /// Starts a run of `test` over `requests`. `csv` is what loading the
    /// test's CSV file gave, present exactly when the test has a CSV source.
    pub fn start(
        test: &LoadTest,
        requests: Vec<Request>,
        csv: Option<Result<Vec<Vec<(String, String)>>, String>>,
    ) -> (r: Result<RunSession, String>)
        requires
            (test.csv is Some) == (csv is Some),
            flow_spec(*test, requests@) matches Ok(f) ==> (match csv {
                None => true,
                Some(Ok(rows)) => rows@.len() > 0,
                Some(Err(_)) => false,
            } ==> test.iterations * f.len() <= u64::MAX),
        ensures
            match flow_spec(*test, requests@) {
                Err(e) => r matches Err(m) && m@ == e,
                Ok(f) => match test.csv {
                    None => r matches Ok(s) && s.wf() && s.history().len() == 0 && !s.is_pending()
                        && !s.is_stopped() && indices_match(s.flow_spec_of(), f)
                        && s.requests_spec() == requests@ && s.rows_spec().len() == 0
                        && s.iterations_spec() == test.iterations && s.delay_spec()
                        == test.delay_ms && s.test_name_spec() == test.name@,
                    Some(CsvSource::Path { path }) => match csv->0 {
                        Err(_) => r matches Err(m) && m@ == "no se pudo cargar el CSV del test "@
                            + quoted(test.name@),
                        Ok(rows) => if rows@.len() == 0 {
                            r matches Err(m) && m@ == "el CSV "@ + quoted(path@)
                                + " no tiene filas de datos"@
                        } else {
                            r matches Ok(s) && s.wf() && s.history().len() == 0 && !s.is_pending()
                                && !s.is_stopped() && indices_match(s.flow_spec_of(), f)
                                && s.requests_spec() == requests@ && s.rows_spec()
                                == rows@.map_values(|r: Vec<(String, String)>| vars_view(r@))
                                && s.iterations_spec() == test.iterations && s.delay_spec()
                                == test.delay_ms && s.test_name_spec() == test.name@
                        },
                    },
                },
            },
    {
        let flow = match select_flow(test, &requests) {
            Ok(f) => f,
            Err(e) => {
                return Err(e);
            },
        };
        let rows: Vec<Vec<(String, String)>> = match &test.csv {
            None => Vec::new(),
            Some(CsvSource::Path { path }) => {
                match csv {
                    Some(Ok(rows)) => {
                        if rows.len() == 0 {
                            let mut msg = String::new();
                            push_str(&mut msg, "el CSV ");
                            push_quoted(&mut msg, path.as_str());
                            push_str(&mut msg, " no tiene filas de datos");
                            return Err(msg);
                        }
                        rows
                    },
                    _ => {
                        let mut msg = String::new();
                        push_str(&mut msg, "no se pudo cargar el CSV del test ");
                        push_quoted(&mut msg, test.name.as_str());
                        return Err(msg);
                    },
                }
            },
        };
        let ghost f = flow_spec(*test, requests@)->Ok_0;
        assert(flow@.len() == f.len());
        let s = RunSession {
            test_name: test.name.clone(),
            requests,
            flow,
            rows,
            iterations: test.iterations,
            delay_ms: test.delay_ms,
            iteration: 0,
            position: 0,
            pending: false,
            stopped: false,
            completed: 0,
            successes: 0,
            sum_ms: 0,
            sorted_ms: Vec::new(),
            errors: Vec::new(),
            per_request: Vec::new(),
            last: None,
            history: Ghost(Seq::empty()),
            statuses: Ghost(Seq::empty()),
        };
        proof {
            assert forall|k: int| 0 <= k < s.flow@.len() implies (#[trigger] s.flow@[k])
                < s.requests@.len() by {
                assert(s.flow@[k] as int == f[k]);
                if test.request_names@.len() == 0 {
                } else {
                    lemma_select_names_in_range(test.request_names@, s.requests@);
                }
            }
            assert(durations(Seq::<Entry>::empty()) =~= Seq::<u128>::empty());
            assert(s.sorted_ms@ =~= Seq::<u128>::empty());
            assert(s.rows@.map_values(|r: Vec<(String, String)>| vars_view(r@)).len()
                == s.rows@.len());
        }
        Ok(s)
    }

    /// Number of executions of a complete run.
    pub fn total(&self) -> (r: u64)
        requires
            self.wf(),
        ensures
            r == self.total_spec(),
    {
        self.iterations * (self.flow.len() as u64)
    }

    /// The next request to send, with the variables of its CSV row applied;
    /// `None` when the run is over: it was cancelled (now or before) or every
    /// execution is done.
    pub fn next_request(&mut self, cancelled: bool) -> (r: Option<Request>)
        requires
            old(self).wf(),
            !old(self).is_pending(),
        ensures
            final(self).wf(),
            final(self).history() == old(self).history(),
            final(self).statuses() == old(self).statuses(),
            final(self).requests_spec() == old(self).requests_spec(),
            final(self).flow_spec_of() == old(self).flow_spec_of(),
            final(self).rows_spec() == old(self).rows_spec(),
            final(self).iterations_spec() == old(self).iterations_spec(),
            final(self).delay_spec() == old(self).delay_spec(),
            final(self).test_name_spec() == old(self).test_name_spec(),
            r is None <==> (old(self).is_stopped() || cancelled || old(self).history().len()
                == old(self).total_spec()),
            r is None ==> final(self).is_stopped() && !final(self).is_pending(),
            r matches Some(q) ==> final(self).is_pending() && !final(self).is_stopped()
                && interpolated_from(
                q,
                old(self).request_at(old(self).history().len() as int),
                old(self).vars_at(old(self).history().len() as int),
            ),
    {
        let ghost n = self.flow@.len() as int;
        let ghost k = self.history@.len() as int;
        proof {
            lemma_progress(self.iteration as int, self.position as int, n, self.iterations as int);
        }
        if self.stopped || cancelled || self.iteration >= self.iterations {
            self.stopped = true;
            return None;
        }
        let idx = self.flow[self.position];
        let empty: Vec<(String, String)> = Vec::new();
        let vars: &Vec<(String, String)> = if self.rows.len() == 0 {
            &empty
        } else {
            let row = (self.iteration % (self.rows.len() as u64)) as usize;
            &self.rows[row]
        };
        let q = interpolate_request(&self.requests[idx], vars);
        proof {
            lemma_div_mod(self.iteration as int, self.position as int, n);
            if self.rows.len() == 0 {
                assert(vars_view(vars@) =~= Seq::<(Seq<char>, Seq<char>)>::empty());
            }
        }
        self.pending = true;
        Some(q)
    }

    /// Records the outcome of the request handed out by `next_request`;
    /// gives back executions done, executions of a complete run, and the
    /// pause to make before the next request.
    pub fn record(&mut self, sample: Sample) -> (r: (u64, u64, u64))
        requires
            old(self).wf(),
            old(self).is_pending(),
            duration_sum(old(self).history()) + sample.duration_ms <= u128::MAX,
        ensures
            final(self).wf(),
            !final(self).is_pending(),
            !final(self).is_stopped(),
            final(self).statuses() == old(self).statuses().push(sample.status),
            final(self).history() == old(self).history().push(
                (
                    old(self).request_at(old(self).history().len() as int).name@,
                    sample.passed,
                    sample.duration_ms,
                    opt_view(sample.error),
                ),
            ),
            final(self).requests_spec() == old(self).requests_spec(),
            final(self).flow_spec_of() == old(self).flow_spec_of(),
            final(self).rows_spec() == old(self).rows_spec(),
            final(self).iterations_spec() == old(self).iterations_spec(),
            final(self).delay_spec() == old(self).delay_spec(),
            final(self).test_name_spec() == old(self).test_name_spec(),
            r.0 == final(self).history().len(),
            r.1 == old(self).total_spec(),
            r.2 == (if old(self).delay_spec() > 0 && (old(self).history().len() as int) % (
            old(self).flow_spec_of().len() as int) + 1 < old(self).flow_spec_of().len() as int {
                old(self).delay_spec()
            } else {
                0
            }),
    {
        let ghost h = self.history@;
        let ghost n = self.flow@.len() as int;
        proof {
            lemma_progress(self.iteration as int, self.position as int, n, self.iterations as int);
            lemma_div_mod(self.iteration as int, self.position as int, n);
            lemma_counts_bounded(h, seq![]);
        }
        let name = self.requests[self.flow[self.position]].name.clone();
        let ghost entry: Entry = (name@, sample.passed, sample.duration_ms, opt_view(sample.error));
        let ghost h2 = h.push(entry);
        assert(h2.drop_last() =~= h);
        // counts
        self.completed = self.completed + 1;
        if sample.passed {
            self.successes = self.successes + 1;
        } else if self.errors.len() < 20 {
            if let Some(e) = &sample.error {
                let mut line = name.clone();
                push_str(&mut line, ": ");
                push_str(&mut line, e.as_str());
                self.errors.push(line);
            }
        }
        self.sum_ms = self.sum_ms + sample.duration_ms;
        insert_sorted(&mut self.sorted_ms, sample.duration_ms);
        tally(&mut self.per_request, &name, sample.passed, Ghost(h), Ghost(entry));
        // advance
        let delay = if self.delay_ms > 0 && self.position < self.flow.len() - 1 {
            self.delay_ms
        } else {
            0
        };
        if self.position < self.flow.len() - 1 {
            self.position = self.position + 1;
        } else {
            self.position = 0;
            self.iteration = self.iteration + 1;
        }
        self.pending = false;
        self.history = Ghost(h2);
        self.statuses = Ghost(self.statuses@.push(sample.status));
        self.last = Some(sample);
        proof {
            assert(durations(h2) =~= durations(h).push(sample.duration_ms));
            vstd::seq_lib::to_multiset_build(durations(h), sample.duration_ms);
            assert forall|k: int| 0 <= k < h2.len() implies (#[trigger] h2[k]).0 == self.request_at(
                k,
            ).name@ by {
                if k < h.len() {
                    assert(h2[k] == h[k]);
                }
            }
            assert forall|i: int|
                0 <= i < self.errors@.len() implies (#[trigger] self.errors@[i])@ == error_log(
                h2,
            )[i] by {
                if i < error_log(h).len() {
                }
            }
            lemma_mul_step(old(self).iteration as int, old(self).position as int, n, self.iterations as int);
        }
        (self.completed, self.iterations * (self.flow.len() as u64), delay)
    }

    /// `e` describes execution `k`: its request, 1-based iteration, CSV row,
    /// method, interpolated URL, status and outcome.
    pub open spec fn event_of(&self, k: int, e: RunEvent) -> bool {
        let n = self.flow_spec_of().len() as int;
        let req = self.request_at(k);
        &&& e.request@ == req.name@
        &&& e.iteration == k / n + 1
        &&& e.csv_row == (if self.rows_spec().len() == 0 {
            None
        } else {
            Some(((k / n) % (self.rows_spec().len() as int)) as u64)
        })
        &&& e.method@ == req.method@
        &&& e.url@ == interpolate_spec(req.url@, self.vars_at(k))
        &&& e.status == self.statuses()[k]
        &&& e.ok == self.history()[k].1
        &&& e.duration_ms == self.history()[k].2
        &&& opt_view(e.error) == self.history()[k].3
    }

    /// Live progress of the run: executions done out of the total, the
    /// request that comes next while the run goes on, the counts per request
    /// so far and the last execution.
    pub fn progress(&self) -> (p: RunProgress)
        requires
            self.wf(),
        ensures
            p.done == self.history().len(),
            p.total == self.total_spec(),
            (!self.is_stopped() && self.history().len() < self.total_spec()) ==> (
            p.current_request matches Some(c) && c@ == self.request_at(
                self.history().len() as int,
            ).name@),
            !(!self.is_stopped() && self.history().len() < self.total_spec())
                ==> p.current_request is None,
            summaries_match(p.per_request@, self.history()),
            sum_totals(p.per_request@) == self.history().len(),
            sum_successes(p.per_request@) == passed_count(self.history()),
            self.history().len() == 0 ==> p.last_event is None,
            self.history().len() > 0 ==> (p.last_event matches Some(e) && self.event_of(
                self.history().len() - 1,
                e,
            )),
    {
        let ghost h = self.history@;
        let n = self.flow.len();
        let total = self.iterations * (n as u64);
        proof {
            lemma_progress(self.iteration as int, self.position as int, n as int, self.iterations as int);
            lemma_div_mod(self.iteration as int, self.position as int, n as int);
        }
        let current = if !self.stopped && self.completed < total {
            Some(self.requests[self.flow[self.position]].name.clone())
        } else {
            None
        };
        let per_request = copy_summaries(&self.per_request);
        proof {
            lemma_same_summaries(per_request@, self.per_request@, h);
        }
        let last_event = if self.completed == 0 {
            None
        } else {
            let k: u64 = self.completed - 1;
            let it: u64 = k / (n as u64);
            let pos: usize = (k % (n as u64)) as usize;
            let req = &self.requests[self.flow[pos]];
            let empty: Vec<(String, String)> = Vec::new();
            let (vars, csv_row): (&Vec<(String, String)>, Option<u64>) = if self.rows.len() == 0 {
                (&empty, None)
            } else {
                let row: u64 = it % (self.rows.len() as u64);
                (&self.rows[row as usize], Some(row))
            };
            let url = interpolate(req.url.as_str(), vars);
            proof {
                if self.rows.len() == 0 {
                    assert(vars_view(vars@) =~= Seq::<(Seq<char>, Seq<char>)>::empty());
                }
                assert(it <= k);
            }
            match &self.last {
                Some(s) => Some(
                    RunEvent {
                        request: req.name.clone(),
                        iteration: it + 1,
                        csv_row,
                        method: req.method.clone(),
                        url,
                        status: s.status,
                        ok: s.passed,
                        duration_ms: s.duration_ms,
                        error: copy_opt_string(&s.error),
                    },
                ),
                None => None,
            }
        };
        RunProgress { done: self.completed, total, current_request: current, per_request, last_event }
    }

    /// Sum of the durations recorded so far, in milliseconds.
    pub fn duration_total(&self) -> (r: u128)
        requires
            self.wf(),
        ensures
            r == duration_sum(self.history()),
    {
        self.sum_ms
    }

    /// Report of the executions recorded so far; `duration_ms` is the
    /// wall-clock time of the run.
    pub fn report(&self, duration_ms: u128) -> (r: LoadTestReport)
        requires
            self.wf(),
        ensures
            report_of(r, self.test_name_spec(), self.history(), duration_ms),
            sum_totals(r.per_request@) == r.total_requests,
            sum_successes(r.per_request@) == r.success,
            r.success + r.failed == r.total_requests,
            r.errors@.len() <= 20,
    {
        let ghost h = self.history@;
        proof {
            lemma_counts_bounded(h, seq![]);
            lemma_error_log_bounded(h);
            lemma_sorted_is_sort(self.sorted_ms@, durations(h));
            vstd::seq_lib::to_multiset_len(self.sorted_ms@);
            vstd::seq_lib::to_multiset_len(durations(h));
        }
        let n = self.sorted_ms.len();
        let avg_ms: u128 = if n == 0 {
            0
        } else {
            self.sum_ms / (n as u128)
        };
        let p95_ms: u128 = if n == 0 {
            0
        } else {
            let x: u128 = (n - 1) as u128;
            let idx: u128 = (x * 95 + 50) / 100;
            assert(idx <= x) by (nonlinear_arith)
                requires
                    idx == (x * 95 + 50) / 100,
            ;
            self.sorted_ms[idx as usize]
        };
        let mut errors: Vec<String> = Vec::new();
        let mut i: usize = 0;
        while i < self.errors.len()
            invariant
                i <= self.errors.len(),
                errors@.len() == i,
                forall|k: int| 0 <= k < i ==> (#[trigger] errors@[k])@ == self.errors@[k]@,
            decreases self.errors.len() - i,
        {
            errors.push(self.errors[i].clone());
            i = i + 1;
        }
        let mut per_request: Vec<RequestSummary> = Vec::new();
        let mut i: usize = 0;
        while i < self.per_request.len()
            invariant
                i <= self.per_request.len(),
                per_request@.len() == i,
                forall|k: int|
                    0 <= k < i ==> (#[trigger] per_request@[k]).name@ == self.per_request@[k].name@
                        && per_request@[k].total == self.per_request@[k].total
                        && per_request@[k].success == self.per_request@[k].success
                        && per_request@[k].failed == self.per_request@[k].failed,
            decreases self.per_request.len() - i,
        {
            let s = &self.per_request[i];
            per_request.push(
                RequestSummary {
                    name: s.name.clone(),
                    total: s.total,
                    success: s.success,
                    failed: s.failed,
                },
            );
            i = i + 1;
        }
        proof {
            lemma_same_summaries(per_request@, self.per_request@, h);
        }
        LoadTestReport {
            test_name: self.test_name.clone(),
            duration_ms,
            total_requests: self.completed,
            success: self.successes,
            failed: self.completed - self.successes,
            avg_ms,
            p95_ms,
            per_request,
            errors,
        }
    }
}

proof fn lemma_same_summaries(a: Seq<RequestSummary>, b: Seq<RequestSummary>, h: Seq<Entry>)
    requires
        summaries_match(b, h),
        a.len() == b.len(),
        forall|k: int|
            0 <= k < a.len() ==> (#[trigger] a[k]).name@ == b[k].name@ && a[k].total == b[k].total
                && a[k].success == b[k].success && a[k].failed == b[k].failed,
    ensures
        summaries_match(a, h),
        sum_totals(a) == sum_totals(b),
        sum_successes(a) == sum_successes(b),
    decreases a.len(),
{
    assert forall|i: int, j: int| 0 <= i < j < a.len() implies text_lt(
        #[trigger] a[i].name@,
        #[trigger] a[j].name@,
    ) by {
        assert(text_lt(b[i].name@, b[j].name@));
    }
    assert forall|n: Seq<char>| #![trigger name_count(h, n)]
        (exists|i: int| 0 <= i < a.len() && a[i].name@ == n) <==> name_count(h, n) > 0 by {
        if exists|i: int| 0 <= i < a.len() && a[i].name@ == n {
            let i = choose|i: int| 0 <= i < a.len() && a[i].name@ == n;
            assert(b[i].name@ == n);
        }
        if name_count(h, n) > 0 {
            let i = choose|i: int| 0 <= i < b.len() && b[i].name@ == n;
            assert(a[i].name@ == n);
        }
    }
    if a.len() > 0 {
        lemma_same_summaries_sum(a, b);
    }
}

proof fn lemma_same_summaries_sum(a: Seq<RequestSummary>, b: Seq<RequestSummary>)
    requires
        a.len() == b.len(),
        forall|k: int| 0 <= k < a.len() ==> (#[trigger] a[k]).total == b[k].total && a[k].success == b[k].success,
    ensures
        sum_totals(a) == sum_totals(b),
        sum_successes(a) == sum_successes(b),
    decreases a.len(),
{
    if a.len() > 0 {
        lemma_same_summaries_sum(a.drop_last(), b.drop_last());
    }
}

proof fn lemma_progress(it: int, pos: int, n: int, iters: int)
    requires
        n > 0,
        0 <= it <= iters,
        0 <= pos < n,
        it == iters ==> pos == 0,
    ensures
        it * n + pos <= iters * n,
        (it * n + pos == iters * n) <==> it == iters,
{
    if it < iters {
        assert(it * n + pos < iters * n) by (nonlinear_arith)
            requires
                it < iters,
                pos < n,
                n > 0,
        ;
    }
}

proof fn lemma_div_mod(it: int, pos: int, n: int)
    requires
        n > 0,
        0 <= it,
        0 <= pos < n,
    ensures
        (it * n + pos) % n == pos,
        (it * n + pos) / n == it,
{
    assert((it * n + pos) % n == pos && (it * n + pos) / n == it) by (nonlinear_arith)
        requires
            n > 0,
            0 <= it,
            0 <= pos < n,
    ;
}

proof fn lemma_mul_step(it: int, pos: int, n: int, iters: int)
    requires
        n > 0,
        0 <= it,
        0 <= pos < n,
    ensures
        it * n + pos + 1 == (if pos + 1 < n {
            it * n + (pos + 1)
        } else {
            (it + 1) * n
        }),
{
    assert((it + 1) * n == it * n + n) by (nonlinear_arith);
}

/// Inserts `d` keeping `v` sorted.
fn insert_sorted(v: &mut Vec<u128>, d: u128)
    requires
        sorted_by(old(v)@, ms_leq()),
    ensures
        sorted_by(final(v)@, ms_leq()),
        final(v)@.to_multiset() == old(v)@.to_multiset().insert(d),
{
    let mut i: usize = 0;
    while i < v.len() && v[i] <= d
        invariant
            i <= v.len(),
            forall|k: int| 0 <= k < i ==> v@[k] <= d,
        decreases v.len() - i,
    {
        i = i + 1;
    }
    let ghost before = v@;
    v.insert(i, d);
    proof {
        vstd::seq_lib::to_multiset_insert(before, i as int, d);
        assert forall|a: int, b: int| 0 <= a < b < v@.len() implies #[trigger] ms_leq()(
            v@[a],
            v@[b],
        ) by {
            assert(ms_leq()(before[0], before[0]) || true);
            if a < i && b < i {
                assert(ms_leq()(before[a], before[b]));
            } else if a < i && b == i {
            } else if a < i {
                assert(ms_leq()(before[a], before[b - 1]));
            } else if a == i {
                if i < before.len() {
                    assert(ms_leq()(before[i as int], before[b - 1]));
                }
            } else {
                assert(ms_leq()(before[a - 1], before[b - 1]));
            }
        }
    }
}

/// Counts one execution of request `name` in the summaries.
fn tally(
    per: &mut Vec<RequestSummary>,
    name: &String,
    passed: bool,
    Ghost(h): Ghost<Seq<Entry>>,
    Ghost(e): Ghost<Entry>,
)
    requires
        summaries_match(old(per)@, h),
        sum_totals(old(per)@) == h.len(),
        sum_successes(old(per)@) == passed_count(h),
        e.0 == name@,
        e.1 == passed,
        h.len() < u64::MAX,
    ensures
        summaries_match(final(per)@, h.push(e)),
        sum_totals(final(per)@) == h.len() + 1,
        sum_successes(final(per)@) == passed_count(h.push(e)),
{
    let ghost h2 = h.push(e);
    assert(h2.drop_last() =~= h);
    let mut i: usize = 0;
    while i < per.len() && text_less(&per[i].name, name)
        invariant
            i <= per.len(),
            forall|k: int| 0 <= k < i ==> text_lt(#[trigger] per@[k].name@, name@),
        decreases per.len() - i,
    {
        i = i + 1;
    }
    let ghost before = per@;
    proof {
        lemma_counts_bounded(h, name@);
    }
    if i < per.len() && per[i].name == *name {
        let old_s = &per[i];
        let s = RequestSummary {
            name: old_s.name.clone(),
            total: old_s.total + 1,
            success: if passed {
                old_s.success + 1
            } else {
                old_s.success
            },
            failed: if passed {
                old_s.failed
            } else {
                old_s.failed + 1
            },
        };
        per.set(i, s);
        proof {
            lemma_sum_update(before, i as int, s);
            assert forall|k: int|
                0 <= k < per@.len() implies (#[trigger] per@[k]).total == name_count(
                h2,
                per@[k].name@,
            ) && per@[k].success == name_passed(h2, per@[k].name@) && per@[k].failed
                == per@[k].total - per@[k].success by {
                if k != i {
                    lemma_text_lt_irreflexive(name@);
                    if k < i {
                        assert(text_lt(before[k].name@, before[i as int].name@));
                    } else {
                        assert(text_lt(before[i as int].name@, before[k].name@));
                    }
                }
            }
            assert forall|n: Seq<char>| #![trigger name_count(h2, n)]
                (exists|k: int| 0 <= k < per@.len() && per@[k].name@ == n) <==> name_count(h2, n)
                    > 0 by {
                if name_count(h2, n) > 0 && n != name@ {
                    assert(name_count(h, n) > 0);
                    let k = choose|k: int| 0 <= k < before.len() && before[k].name@ == n;
                    assert(per@[k].name@ == n);
                }
                if n == name@ {
                    assert(per@[i as int].name@ == n);
                }
                if exists|k: int| 0 <= k < per@.len() && per@[k].name@ == n {
                    let k = choose|k: int| 0 <= k < per@.len() && per@[k].name@ == n;
                    assert(before[k].name@ == n);
                }
            }
        }
    } else {
        proof {
            // `name` has no summary yet.
            if name_count(h, name@) > 0 {
                let k = choose|k: int| 0 <= k < before.len() && before[k].name@ == name@;
                if k < i {
                    lemma_text_lt_irreflexive(name@);
                } else if k == i {
                } else {
                    lemma_text_lt_total(before[i as int].name@, name@);
                    assert(text_lt(before[i as int].name@, before[k].name@));
                    lemma_text_lt_transitive(name@, before[i as int].name@, before[k].name@);
                    lemma_text_lt_irreflexive(name@);
                }
            }
            if i < before.len() {
                lemma_text_lt_total(before[i as int].name@, name@);
            }
        }
        let s = RequestSummary {
            name: name.clone(),
            total: 1,
            success: if passed {
                1
            } else {
                0
            },
            failed: if passed {
                0
            } else {
                1
            },
        };
        per.insert(i, s);
        proof {
            lemma_sum_insert(before, i as int, s);
            assert forall|a: int, b: int| 0 <= a < b < per@.len() implies text_lt(
                #[trigger] per@[a].name@,
                #[trigger] per@[b].name@,
            ) by {
                if a < i && b < i {
                    assert(text_lt(before[a].name@, before[b].name@));
                } else if a < i && b == i {
                } else if a < i {
                    assert(text_lt(before[a].name@, before[b - 1].name@));
                } else if a == i {
                    if b - 1 > i {
                        assert(text_lt(before[i as int].name@, before[b - 1].name@));
                        lemma_text_lt_transitive(name@, before[i as int].name@, before[b - 1].name@);
                    }
                } else {
                    assert(text_lt(before[a - 1].name@, before[b - 1].name@));
                }
            }
            assert forall|k: int|
                0 <= k < per@.len() implies (#[trigger] per@[k]).total == name_count(
                h2,
                per@[k].name@,
            ) && per@[k].success == name_passed(h2, per@[k].name@) && per@[k].failed
                == per@[k].total - per@[k].success by {
                if k < i {
                    assert(per@[k] == before[k]);
                    lemma_text_lt_irreflexive(name@);
                } else if k > i {
                    assert(per@[k] == before[k - 1]);
                    if i < before.len() {
                        if k - 1 > i {
                            assert(text_lt(before[i as int].name@, before[k - 1].name@));
                            lemma_text_lt_transitive(
                                name@,
                                before[i as int].name@,
                                before[k - 1].name@,
                            );
                        }
                    }
                    lemma_text_lt_irreflexive(name@);
                } else {
                    lemma_counts_bounded(h, name@);
                }
            }
            assert forall|n: Seq<char>| #![trigger name_count(h2, n)]
                (exists|k: int| 0 <= k < per@.len() && per@[k].name@ == n) <==> name_count(h2, n)
                    > 0 by {
                if name_count(h2, n) > 0 && n != name@ {
                    assert(name_count(h, n) > 0);
                    let k = choose|k: int| 0 <= k < before.len() && before[k].name@ == n;
                    if k < i {
                        assert(per@[k] == before[k]);
                    } else {
                        assert(per@[k + 1] == before[k]);
                    }
                }
                if n == name@ {
                    assert(per@[i as int].name@ == n);
                }
                if exists|k: int| 0 <= k < per@.len() && per@[k].name@ == n {
                    let k = choose|k: int| 0 <= k < per@.len() && per@[k].name@ == n;
                    if k < i {
                        assert(before[k].name@ == n);
                    } else if k > i {
                        assert(before[k - 1].name@ == n);
                    }
                }
            }
        }
    }
}

proof fn lemma_select_names_in_range(names: Seq<String>, reqs: Seq<Request>)
    ensures
        select_names(names, reqs) matches Ok(f) ==> forall|k: int|
            0 <= k < f.len() ==> 0 <= #[trigger] f[k] < reqs.len(),
    decreases names.len(),
{
    if names.len() > 0 {
        lemma_select_names_in_range(names.drop_first(), reqs);
        lemma_request_index_range(reqs, names[0]@, 0);
        match select_names(names, reqs) {
            Ok(f) => {
                let rest = select_names(names.drop_first(), reqs)->Ok_0;
                assert forall|k: int| 0 <= k < f.len() implies 0 <= #[trigger] f[k] < reqs.len() by {
                    if k > 0 {
                        assert(f[k] == rest[k - 1]);
                    }
                }
            },
            Err(_) => {},
        }
    }
}

proof fn lemma_request_index_range(reqs: Seq<Request>, n: Seq<char>, i: int)
    ensures
        request_index(reqs, n, i) matches Some(j) ==> 0 <= j < reqs.len(),
    decreases reqs.len() - i,
{
    if 0 <= i < reqs.len() && reqs[i].name@ != n {
        lemma_request_index_range(reqs, n, i + 1);
    }
}

// ---------------------------------------------------------------------------
// Laws
// ---------------------------------------------------------------------------

/// Every execution of a report is either a success or a failure.
pub proof fn law_outcomes_add_up(r: LoadTestReport, name: Seq<char>, h: Seq<Entry>, d: u128)
    requires
        report_of(r, name, h, d),
    ensures
        r.success + r.failed == r.total_requests,
        r.success <= r.total_requests,
{
    lemma_counts_bounded(h, seq![]);
}

/// A report keeps at most twenty error lines.
pub proof fn law_errors_bounded(r: LoadTestReport, name: Seq<char>, h: Seq<Entry>, d: u128)
    requires
        report_of(r, name, h, d),
    ensures
        r.errors@.len() <= 20,
{
    lemma_error_log_bounded(h);
}

/// Each iteration runs the whole flow again, in the same order.
pub proof fn law_flow_repeats(s: RunSession, k: int)
    requires
        k >= 0,
        s.flow_spec_of().len() > 0,
    ensures
        s.request_at(k + s.flow_spec_of().len()) == s.request_at(k),
{
    let n = s.flow_spec_of().len() as int;
    assert((k + n) % n == k % n) by {
        vstd::arithmetic::div_mod::lemma_mod_add_multiples_vanish(k, n);
    }
}

/// With more iterations than CSV rows, the rows are used again from the first.
pub proof fn law_csv_rows_cycle(s: RunSession, k: int)
    requires
        k >= 0,
        s.flow_spec_of().len() > 0,
    ensures
        s.vars_at(k + s.flow_spec_of().len() * s.rows_spec().len()) == s.vars_at(k),
{
    let n = s.flow_spec_of().len() as int;
    let m = s.rows_spec().len() as int;
    if m > 0 {
        assert((k + n * m) / n == k / n + m) by {
            vstd::arithmetic::div_mod::lemma_fundamental_div_mod(k, n);
            vstd::arithmetic::div_mod::lemma_mod_pos_bound(k, n);
            let q = k / n;
            let r = k % n;
            assert(k + n * m == (q + m) * n + r) by (nonlinear_arith)
                requires
                    k == n * q + r,
            ;
            vstd::arithmetic::div_mod::lemma_fundamental_div_mod_converse(k + n * m, n, q + m, r);
        }
        assert((k / n + m) % m == (k / n) % m) by {
            vstd::arithmetic::div_mod::lemma_mod_add_multiples_vanish(k / n, m);
        }
    }
}

/// Sum over the summaries of the executions of each one's name.
pub open spec fn count_sum(pr: Seq<RequestSummary>, h: Seq<Entry>) -> int
    decreases pr.len(),
{
    if pr.len() == 0 {
        0
    } else {
        count_sum(pr.drop_last(), h) + name_count(h, pr.last().name@)
    }
}

/// Sum over the summaries of the successful executions of each one's name.
pub open spec fn passed_sum(pr: Seq<RequestSummary>, h: Seq<Entry>) -> int
    decreases pr.len(),
{
    if pr.len() == 0 {
        0
    } else {
        passed_sum(pr.drop_last(), h) + name_passed(h, pr.last().name@)
    }
}

pub open spec fn names_distinct(pr: Seq<RequestSummary>) -> bool {
    forall|i: int, j: int| 0 <= i < j < pr.len() ==> (#[trigger] pr[i]).name@ != (#[trigger] pr[j]).name@
}

pub open spec fn has_summary(pr: Seq<RequestSummary>, n: Seq<char>) -> bool {
    exists|i: int| 0 <= i < pr.len() && (#[trigger] pr[i]).name@ == n
}

proof fn lemma_sums_step(pr: Seq<RequestSummary>, h: Seq<Entry>, e: Entry)
    requires
        names_distinct(pr),
    ensures
        count_sum(pr, h.push(e)) == count_sum(pr, h) + (if has_summary(pr, e.0) { 1int } else { 0int }),
        passed_sum(pr, h.push(e)) == passed_sum(pr, h) + (if has_summary(pr, e.0) && e.1 {
            1int
        } else {
            0int
        }),
    decreases pr.len(),
{
    let hp = h.push(e);
    assert(hp.drop_last() =~= h);
    if pr.len() > 0 {
        let init = pr.drop_last();
        assert forall|i: int, j: int| 0 <= i < j < init.len() implies (#[trigger] init[i]).name@
            != (#[trigger] init[j]).name@ by {
            assert(init[i] == pr[i] && init[j] == pr[j]);
        }
        lemma_sums_step(init, h, e);
        let last = pr.last();
        if has_summary(pr, e.0) {
            let i = choose|i: int| 0 <= i < pr.len() && (#[trigger] pr[i]).name@ == e.0;
            if i < pr.len() - 1 {
                assert(init[i] == pr[i]);
                assert(has_summary(init, e.0));
                assert(last.name@ != e.0) by {
                    assert(pr[i].name@ != pr[pr.len() - 1].name@);
                }
            } else {
                assert(!has_summary(init, e.0)) by {
                    if has_summary(init, e.0) {
                        let k = choose|k: int| 0 <= k < init.len() && (#[trigger] init[k]).name@ == e.0;
                        assert(pr[k].name@ != pr[pr.len() - 1].name@);
                    }
                }
            }
        } else {
            assert(last.name@ != e.0) by {
                assert(pr[pr.len() - 1] == last);
            }
            assert(!has_summary(init, e.0)) by {
                if has_summary(init, e.0) {
                    let k = choose|k: int| 0 <= k < init.len() && (#[trigger] init[k]).name@ == e.0;
                    assert(pr[k] == init[k]);
                }
            }
        }
    }
}

proof fn lemma_sums_empty(pr: Seq<RequestSummary>)
    ensures
        count_sum(pr, Seq::empty()) == 0,
        passed_sum(pr, Seq::empty()) == 0,
    decreases pr.len(),
{
    if pr.len() > 0 {
        lemma_sums_empty(pr.drop_last());
    }
}

/// When every execution's name has a summary, the summaries count every
/// execution once and every success once.
proof fn lemma_sums_cover(pr: Seq<RequestSummary>, h: Seq<Entry>)
    requires
        names_distinct(pr),
        forall|k: int| 0 <= k < h.len() ==> has_summary(pr, (#[trigger] h[k]).0),
    ensures
        count_sum(pr, h) == h.len(),
        passed_sum(pr, h) == passed_count(h),
    decreases h.len(),
{
    if h.len() == 0 {
        lemma_sums_empty(pr);
        assert(h =~= Seq::<Entry>::empty());
    } else {
        let init = h.drop_last();
        assert forall|k: int| 0 <= k < init.len() implies has_summary(pr, (#[trigger] init[k]).0) by {
            assert(init[k] == h[k]);
        }
        lemma_sums_cover(pr, init);
        assert(init.push(h.last()) =~= h);
        assert(has_summary(pr, h[h.len() - 1].0));
        lemma_sums_step(pr, init, h.last());
        assert(h[h.len() - 1] == h.last());
        assert(has_summary(pr, h.last().0));
    }
}

proof fn lemma_name_counted(h: Seq<Entry>, k: int)
    requires
        0 <= k < h.len(),
    ensures
        name_count(h, h[k].0) > 0,
    decreases h.len(),
{
    if k < h.len() - 1 {
        assert(h.drop_last()[k] == h[k]);
        lemma_name_counted(h.drop_last(), k);
    }
}

proof fn lemma_totals_are_counts(pr: Seq<RequestSummary>, h: Seq<Entry>)
    requires
        forall|i: int| 0 <= i < pr.len() ==> (#[trigger] pr[i]).total == name_count(h, pr[i].name@)
            && pr[i].success == name_passed(h, pr[i].name@),
    ensures
        sum_totals(pr) == count_sum(pr, h),
        sum_successes(pr) == passed_sum(pr, h),
    decreases pr.len(),
{
    if pr.len() > 0 {
        let init = pr.drop_last();
        assert forall|i: int| 0 <= i < init.len() implies (#[trigger] init[i]).total == name_count(
            h,
            init[i].name@,
        ) && init[i].success == name_passed(h, init[i].name@) by {
            assert(init[i] == pr[i]);
        }
        lemma_totals_are_counts(init, h);
        assert(pr[pr.len() - 1] == pr.last());
    }
}

/// A report adds up: successes and failures make the total; the summaries
/// come one per name in strictly increasing order, each with its successes
/// and failures making its total; their totals add up to the report's
/// total and their successes to its successes; at most twenty errors are
/// kept; the report names its test.
pub proof fn law_report_adds_up(r: LoadTestReport, name: Seq<char>, h: Seq<Entry>, d: u128)
    requires
        report_of(r, name, h, d),
    ensures
        r.test_name@ == name,
        r.success + r.failed == r.total_requests,
        summaries_sorted(r.per_request@),
        forall|i: int|
            0 <= i < r.per_request@.len() ==> (#[trigger] r.per_request@[i]).total
                == r.per_request@[i].success + r.per_request@[i].failed,
        sum_totals(r.per_request@) == r.total_requests,
        sum_successes(r.per_request@) == r.success,
        r.errors@.len() <= 20,
{
    let pr = r.per_request@;
    lemma_counts_bounded(h, seq![]);
    lemma_error_log_bounded(h);
    assert forall|i: int| 0 <= i < pr.len() implies (#[trigger] pr[i]).total == pr[i].success
        + pr[i].failed by {
        lemma_counts_bounded(h, pr[i].name@);
    }
    assert forall|i: int, j: int| 0 <= i < j < pr.len() implies (#[trigger] pr[i]).name@ != (
    #[trigger] pr[j]).name@ by {
        assert(text_lt(pr[i].name@, pr[j].name@));
        if pr[i].name@ == pr[j].name@ {
            lemma_text_lt_irreflexive(pr[i].name@);
        }
    }
    assert forall|k: int| 0 <= k < h.len() implies has_summary(pr, (#[trigger] h[k]).0) by {
        lemma_name_counted(h, k);
        assert(name_count(h, h[k].0) > 0);
    }
    lemma_sums_cover(pr, h);
    lemma_totals_are_counts(pr, h);
}

} // verus!
