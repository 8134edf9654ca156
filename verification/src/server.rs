//! State of the load test runs that the HTTP server starts, and the bodies
//! of its requests and answers.
use vstd::prelude::*;

use crate::model::{
    copy_opt_string, copy_summaries, event_same, opt_str_same, report_same, summaries_same,
    Collection, LoadTest, LoadTestReport, Request, RequestSummary, Response, RunEvent, RunProgress,
};
use crate::storage::{join_path, join_spec, sanitize_char};
use crate::text::{chars_of, push_char, push_quoted, push_str, quoted, string_of, sub_chars};

verus! {

/// Body of `POST /api/execute`.
#[derive(Debug)]
pub struct ExecuteBody {
    pub request: Request,
}

/// Answer of `POST /api/execute`.
#[derive(Debug)]
pub struct ExecuteResponse {
    pub response: Response,
}

/// Body of a CSV upload: a file name and its content.
#[derive(Debug)]
pub struct UploadCsvBody {
    pub name: String,
    pub content: String,
}

/// Answer of a CSV upload: where the file was written.
#[derive(Debug)]
pub struct UploadCsvResponse {
    pub path: String,
}

/// The key of the runs of test `test` of collection `collection`.
pub fn test_key(collection: &str, test: &str) -> (r: String)
    ensures
        r@ == collection@ + ":"@ + test@,
{
    let mut k = collection.to_string();
    push_char(&mut k, ':');
    push_str(&mut k, test);
    proof {
        reveal_strlit(":");
    }
    assert(k@ =~= collection@ + ":"@ + test@);
    k
}

/// The stem of an uploaded CSV file: its name without a `.csv` suffix,
/// reserved characters replaced by `_`.
pub open spec fn csv_stem_spec(name: Seq<char>) -> Seq<char> {
    let stem = if name.len() >= 4 && name.skip(name.len() - 4) == ".csv"@ {
        name.take(name.len() - 4)
    } else {
        name
    };
    stem.map_values(|c: char| sanitize_char(c))
}

pub fn sanitize_csv_name(name: &str) -> (r: String)
    ensures
        r@ == csv_stem_spec(name@),
{
    let cs = chars_of(name);
    let mut end = cs.len();
    if cs.len() >= 4 {
        let tail = sub_chars(&cs, cs.len() - 4, cs.len());
        let suffix = chars_of(".csv");
        assert(tail@ =~= name@.skip(name@.len() - 4));
        if crate::text::chars_eq(&tail, &suffix) {
            end = cs.len() - 4;
        }
    }
    let stem = sub_chars(&cs, 0, end);
    assert(stem@ =~= (if name@.len() >= 4 && name@.skip(name@.len() - 4) == ".csv"@ {
        name@.take(name@.len() - 4)
    } else {
        name@
    }));
    let sanitized = crate::storage::sanitize_name(string_of(&stem).as_str());
    sanitized
}

/// Where an uploaded CSV named `name` is written inside `dir`.
pub fn csv_upload_path(dir: &str, name: &str) -> (r: String)
    ensures
        r@ == join_spec(dir@, csv_stem_spec(name@) + ".csv"@),
{
    let mut file = sanitize_csv_name(name);
    push_str(&mut file, ".csv");
    join_path(dir, file.as_str())
}

pub open spec fn running_msg() -> Seq<char> {
    "running"@
}

/// State of one run of a load test.
#[derive(Debug)]
pub struct RunState {
    /// `running`, then `done`, `stopped` or `error`.
    pub status: String,
    pub done: u64,
    pub total: u64,
    pub report: Option<LoadTestReport>,
    pub error: Option<String>,
    /// Request being executed now.
    pub current_request: Option<String>,
    /// Live counts per request.
    pub per_request: Vec<RequestSummary>,
    /// Last execution completed.
    pub last_event: Option<RunEvent>,
}

pub open spec fn opt_report_same(a: Option<LoadTestReport>, b: Option<LoadTestReport>) -> bool {
    match (a, b) {
        (Some(x), Some(y)) => report_same(x, y),
        (None, None) => true,
        _ => false,
    }
}

pub open spec fn opt_event_same(a: Option<RunEvent>, b: Option<RunEvent>) -> bool {
    match (a, b) {
        (Some(x), Some(y)) => event_same(x, y),
        (None, None) => true,
        _ => false,
    }
}

impl RunState {
    /// A run that has just started.
    pub fn running() -> (r: RunState)
        ensures
            r.status@ == "running"@,
            r.done == 0,
            r.total == 0,
            r.report is None,
            r.error is None,
            r.current_request is None,
            r.per_request@.len() == 0,
            r.last_event is None,
    {
        RunState {
            status: "running".to_string(),
            done: 0,
            total: 0,
            report: None,
            error: None,
            current_request: None,
            per_request: Vec::new(),
            last_event: None,
        }
    }

    /// Takes the counts, the current request and the per-request totals of
    /// `progress`, and its event when it has one.
    pub fn apply_progress(&mut self, progress: RunProgress)
        ensures
            final(self).done == progress.done,
            final(self).total == progress.total,
            final(self).current_request == progress.current_request,
            final(self).per_request == progress.per_request,
            final(self).last_event == (match progress.last_event {
                Some(e) => Some(e),
                None => old(self).last_event,
            }),
            final(self).status == old(self).status,
            final(self).report == old(self).report,
            final(self).error == old(self).error,
    {
        self.done = progress.done;
        self.total = progress.total;
        self.current_request = progress.current_request;
        self.per_request = progress.per_request;
        if let Some(event) = progress.last_event {
            self.last_event = Some(event);
        }
    }

    /// Records how many requests of the run are done.
    pub fn set_counts(&mut self, done: u64, total: u64)
        ensures
            final(self).done == done,
            final(self).total == total,
            final(self).status == old(self).status,
            final(self).report == old(self).report,
            final(self).error == old(self).error,
            final(self).current_request == old(self).current_request,
            final(self).per_request == old(self).per_request,
            final(self).last_event == old(self).last_event,
    {
        self.done = done;
        self.total = total;
    }

    /// Records how the run ended: its report (`stopped` when it was
    /// cancelled, `done` otherwise) or its error.
    pub fn finish(&mut self, outcome: Result<LoadTestReport, String>, cancelled: bool)
        ensures
            match outcome {
                Ok(rep) => final(self).report == Some(rep) && final(self).status@ == (if cancelled {
                    "stopped"@
                } else {
                    "done"@
                }) && final(self).error == old(self).error,
                Err(e) => final(self).status@ == "error"@ && final(self).error == Some(e)
                    && final(self).report == old(self).report,
            },
            final(self).done == old(self).done,
            final(self).total == old(self).total,
            final(self).current_request == old(self).current_request,
            final(self).per_request == old(self).per_request,
            final(self).last_event == old(self).last_event,
    {
        match outcome {
            Ok(report) => {
                self.report = Some(report);
                self.status = if cancelled {
                    "stopped".to_string()
                } else {
                    "done".to_string()
                };
            },
            Err(e) => {
                self.status = "error".to_string();
                self.error = Some(e);
            },
        }
    }

    /// Whether the run is still going.
    pub fn is_running(&self) -> (r: bool)
        ensures
            r == (self.status@ == "running"@),
    {
        let s = chars_of(self.status.as_str());
        let w = chars_of("running");
        crate::text::chars_eq(&s, &w)
    }
}

pub open spec fn conflict_msg() -> Seq<char> {
    "ya hay una ejecución en curso para este test"@
}

pub open spec fn no_run_msg() -> Seq<char> {
    "no hay ejecución para este test"@
}

/// A run may start unless one of the same test is still running.
pub fn check_start(existing: Option<&RunState>) -> (r: Result<(), String>)
    ensures
        match existing {
            Some(run) if run.status@ == "running"@ => r matches Err(e) && e@ == conflict_msg(),
            _ => r is Ok,
        },
{
    match existing {
        Some(run) => if run.is_running() {
            Err("ya hay una ejecución en curso para este test".to_string())
        } else {
            Ok(())
        },
        None => Ok(()),
    }
}

/// The state of a run as the server shows it.
#[derive(Debug)]
pub struct RunStatusResponse {
    pub status: String,
    pub done: u64,
    pub total: u64,
    pub report: Option<LoadTestReport>,
    pub error: Option<String>,
    pub current_request: Option<String>,
    pub per_request: Vec<RequestSummary>,
    pub last_event: Option<RunEvent>,
}

impl RunStatusResponse {
    /// A copy of the state of `run`.
    pub fn from_run(run: &RunState) -> (r: RunStatusResponse)
        ensures
            r.status@ == run.status@,
            r.done == run.done,
            r.total == run.total,
            opt_report_same(r.report, run.report),
            opt_str_same(r.error, run.error),
            opt_str_same(r.current_request, run.current_request),
            summaries_same(r.per_request@, run.per_request@),
            opt_event_same(r.last_event, run.last_event),
    {
        RunStatusResponse {
            status: run.status.clone(),
            done: run.done,
            total: run.total,
            report: match &run.report {
                Some(rep) => Some(rep.copy()),
                None => None,
            },
            error: copy_opt_string(&run.error),
            current_request: copy_opt_string(&run.current_request),
            per_request: copy_summaries(&run.per_request),
            last_event: match &run.last_event {
                Some(e) => Some(e.copy()),
                None => None,
            },
        }
    }

    /// The answer to a stop request: the run is `stopping`.
    pub fn stopping() -> (r: RunStatusResponse)
        ensures
            r.status@ == "stopping"@,
            r.done == 0,
            r.total == 0,
            r.report is None,
            r.error is None,
            r.current_request is None,
            r.per_request@.len() == 0,
            r.last_event is None,
    {
        RunStatusResponse {
            status: "stopping".to_string(),
            done: 0,
            total: 0,
            report: None,
            error: None,
            current_request: None,
            per_request: Vec::new(),
            last_event: None,
        }
    }

    /// Whether the event stream ends after this state: it does once the run
    /// is no longer running.
    pub fn is_final(&self) -> (r: bool)
        ensures
            r == (self.status@ != "running"@),
    {
        let s = chars_of(self.status.as_str());
        let w = chars_of("running");
        !crate::text::chars_eq(&s, &w)
    }
}

/// Index of the first test of `ts` named `n`.
pub open spec fn first_test(ts: Seq<LoadTest>, n: Seq<char>) -> Option<int> {
    crate::cli::test_index(ts, n, 0)
}

pub open spec fn test_not_found_msg(n: Seq<char>) -> Seq<char> {
    "test "@ + quoted(n) + " no encontrado"@
}

/// The test of the collection that a started run executes.
pub fn find_test(collection: &Collection, name: &str) -> (r: Result<LoadTest, String>)
    ensures
        match first_test(collection.tests@, name@) {
            Some(i) => r matches Ok(t) && crate::model::load_test_same(t, collection.tests@[i]),
            None => r matches Err(e) && e@ == test_not_found_msg(name@),
        },
{
    let n = name.to_string();
    let mut i: usize = 0;
    while i < collection.tests.len()
        invariant
            i <= collection.tests@.len(),
            n@ == name@,
            first_test(collection.tests@, name@) == crate::cli::test_index(
                collection.tests@,
                name@,
                i as int,
            ),
        decreases collection.tests.len() - i,
    {
        if collection.tests[i].name == n {
            return Ok(collection.tests[i].copy());
        }
        i = i + 1;
    }
    let mut e = String::new();
    push_str(&mut e, "test ");
    push_quoted(&mut e, name);
    push_str(&mut e, " no encontrado");
    Err(e)
}

} // verus!
