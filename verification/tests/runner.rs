use probe::model::{Body, CsvSource, LoadTest, Request, Validation};
use probe::engine::{complete_response, Received};
use probe::runner::{select_flow, RunSession, Sample};

fn request(name: &str, url: String, validations: Vec<Validation>) -> Request {
    Request {
        id: None,
        name: name.to_string(),
        method: "GET".to_string(),
        url,
        query: vec![],
        headers: vec![],
        body: Body::Empty,
        timeout_secs: 5,
        follow_redirects: true,
        validations,
    }
}

fn load_test(name: &str, names: &[&str], iterations: u64, delay_ms: u64, csv: Option<CsvSource>) -> LoadTest {
    LoadTest {
        name: name.to_string(),
        request_names: names.iter().map(|n| n.to_string()).collect(),
        iterations,
        delay_ms,
        csv,
    }
}

#[test]
fn unknown_request_name_errors() {
    let requests = vec![request("ok", "https://example.com".to_string(), vec![])];
    let test = load_test("x", &["no-existe"], 1, 0, None);
    let result = select_flow(&test, &requests);
    assert!(result.is_err());
    assert_eq!(result.unwrap_err(), "la solicitud \"no-existe\" no existe en la colección");
}

#[test]
fn empty_flow_errors_and_names_select_in_order() {
    let test = load_test("vacío", &[], 1, 0, None);
    assert_eq!(select_flow(&test, &vec![]).unwrap_err(), "el test \"vacío\" no tiene solicitudes que ejecutar");
    let requests = vec![
        request("a", "https://h/a".to_string(), vec![]),
        request("b", "https://h/b".to_string(), vec![]),
    ];
    assert_eq!(select_flow(&load_test("t", &[], 1, 0, None), &requests).unwrap(), vec![0, 1]);
    assert_eq!(select_flow(&load_test("t", &["b", "a", "b"], 1, 0, None), &requests).unwrap(), vec![1, 0, 1]);
}

/// Drives a session the way the runner loop does, with a fixed outcome per request name.
fn drive(session: &mut RunSession, outcome: impl Fn(&Request) -> Sample) -> Vec<(String, u64, u64, u64)> {
    let mut seen = Vec::new();
    while let Some(req) = session.next_request(false) {
        let (done, total, delay) = session.record(outcome(&req));
        seen.push((req.url.clone(), done, total, delay));
    }
    seen
}

#[test]
fn report_details_for_success_and_failures() {
    let requests = vec![
        request("ok", "https://h/echo?id=1".to_string(), vec![]),
        request("bad", "https://h/error".to_string(), vec![]),
    ];
    let test = load_test("mi test", &[], 2, 0, None);
    let mut session = RunSession::start(&test, requests, None).unwrap();
    assert_eq!(session.total(), 4);
    drive(&mut session, |r| {
        if r.name == "ok" {
            Sample { duration_ms: 10, passed: true, error: None, status: Some(200) }
        } else {
            Sample { duration_ms: 0, passed: false, error: Some("conexión rechazada".to_string()), status: None }
        }
    });
    let report = session.report(99);
    assert_eq!(report.test_name, "mi test");
    assert_eq!(report.total_requests, 4);
    assert_eq!(report.success, 2);
    assert_eq!(report.failed, 2);
    assert_eq!(report.avg_ms, 5);
    assert_eq!(report.p95_ms, 10);
    assert_eq!(report.duration_ms, 99);
    assert_eq!(report.per_request.len(), 2);
    assert_eq!(report.per_request[0].name, "bad");
    assert_eq!(report.per_request[0].failed, 2);
    assert_eq!(report.per_request[1].name, "ok");
    assert_eq!(report.per_request[1].success, 2);
    assert_eq!(report.errors, vec!["bad: conexión rechazada".to_string(), "bad: conexión rechazada".to_string()]);
}

#[test]
fn csv_rows_cycle_through_the_urls() {
    let requests = vec![request("usuarios", "https://h/echo?id={{id}}".to_string(), vec![])];
    let test = load_test("csv test", &[], 3, 0, Some(CsvSource::Path { path: "usuarios.csv".to_string() }));
    let rows = vec![
        vec![("id".to_string(), "1".to_string()), ("nombre".to_string(), "ana".to_string())],
        vec![("id".to_string(), "2".to_string()), ("nombre".to_string(), "leo".to_string())],
    ];
    let mut session = RunSession::start(&test, requests, Some(Ok(rows))).unwrap();
    let seen = drive(&mut session, |_| Sample { duration_ms: 1, passed: true, error: None, status: None });
    let urls: Vec<String> = seen.iter().map(|s| s.0.clone()).collect();
    assert_eq!(urls, vec!["https://h/echo?id=1", "https://h/echo?id=2", "https://h/echo?id=1"]);
}

#[test]
fn runner_stops_on_cancel() {
    let requests = vec![request("corto", "https://h/echo?id=1".to_string(), vec![])];
    let test = load_test("corto", &[], 50, 5, None);
    let mut session = RunSession::start(&test, requests, None).unwrap();
    assert!(session.next_request(true).is_none());
    assert!(session.next_request(false).is_none());
    let report = session.report(0);
    assert_eq!(report.total_requests, 0);
}

#[test]
fn csv_errors_stop_the_run_before_it_starts() {
    let requests = vec![request("r", "https://h".to_string(), vec![])];
    let test = load_test("datos", &[], 1, 0, Some(CsvSource::Path { path: "vacío.csv".to_string() }));
    let r = RunSession::start(&test, requests, Some(Ok(vec![])));
    assert_eq!(r.err().unwrap(), "el CSV \"vacío.csv\" no tiene filas de datos");
    let requests = vec![request("r", "https://h".to_string(), vec![])];
    let r = RunSession::start(&test, requests, Some(Err("no se pudo abrir el CSV vacío.csv".to_string())));
    assert_eq!(r.err().unwrap(), "no se pudo cargar el CSV del test \"datos\"");
}

#[test]
fn delays_come_between_requests_of_a_flow() {
    let requests = vec![
        request("a", "https://h/a".to_string(), vec![]),
        request("b", "https://h/b".to_string(), vec![]),
    ];
    let test = load_test("t", &[], 2, 30, None);
    let mut session = RunSession::start(&test, requests, None).unwrap();
    let seen = drive(&mut session, |_| Sample { duration_ms: 3, passed: true, error: None, status: None });
    let steps: Vec<(u64, u64, u64)> = seen.iter().map(|s| (s.1, s.2, s.3)).collect();
    assert_eq!(steps, vec![(1, 4, 30), (2, 4, 0), (3, 4, 30), (4, 4, 0)]);
    assert_eq!(session.duration_total(), 12);
}

#[test]
fn report_keeps_at_most_twenty_errors_and_p95_rounds() {
    let requests = vec![request("x", "https://h".to_string(), vec![])];
    let test = load_test("muchos", &[], 25, 0, None);
    let mut session = RunSession::start(&test, requests, None).unwrap();
    let mut k: u128 = 0;
    while let Some(_) = session.next_request(false) {
        k += 1;
        session.record(Sample { duration_ms: k, passed: false, error: Some(format!("e{k}")), status: None });
    }
    let report = session.report(1);
    assert_eq!(report.errors.len(), 20);
    assert_eq!(report.errors[0], "x: e1");
    assert_eq!(report.success + report.failed, report.total_requests);
    // 25 samples 1..=25: index round(24 * 0.95) = 23, value 24
    assert_eq!(report.p95_ms, 24);
    assert_eq!(report.avg_ms, 13);
}

#[test]
fn progress_reports_counts_next_request_and_last_event() {
    let requests = vec![
        request("a", "https://h/a/{{id}}".to_string(), vec![]),
        request("b", "https://h/b".to_string(), vec![]),
    ];
    let test = load_test("vivo", &[], 2, 0, Some(CsvSource::Path { path: "d.csv".to_string() }));
    let rows = vec![vec![("id".to_string(), "7".to_string())], vec![("id".to_string(), "8".to_string())]];
    let mut session = RunSession::start(&test, requests, Some(Ok(rows))).unwrap();
    let p = session.progress();
    assert_eq!((p.done, p.total), (0, 4));
    assert_eq!(p.current_request.as_deref(), Some("a"));
    assert!(p.last_event.is_none());
    let mut seen = Vec::new();
    while let Some(_) = session.next_request(false) {
        let k = seen.len();
        let sample = if k == 2 {
            Sample::of_error("caída".to_string())
        } else {
            Sample { duration_ms: 5, passed: true, error: None, status: Some(200) }
        };
        session.record(sample);
        seen.push(session.progress());
    }
    assert_eq!(seen.len(), 4);
    let third = &seen[2];
    assert_eq!(third.done, 3);
    assert_eq!(third.current_request.as_deref(), Some("b"));
    let e = third.last_event.as_ref().unwrap();
    assert_eq!(e.request, "a");
    assert_eq!(e.iteration, 2);
    assert_eq!(e.csv_row, Some(1));
    assert_eq!(e.method, "GET");
    assert_eq!(e.url, "https://h/a/8");
    assert_eq!(e.status, None);
    assert!(!e.ok);
    assert_eq!(e.error.as_deref(), Some("caída"));
    assert_eq!(third.per_request.len(), 2);
    assert_eq!(third.per_request[0].name, "a");
    assert_eq!(third.per_request[0].failed, 1);
    let last = &seen[3];
    assert!(last.current_request.is_none());
    assert_eq!(last.last_event.as_ref().unwrap().status, Some(200));
    assert_eq!(last.last_event.as_ref().unwrap().iteration, 2);
    let report = session.report(1);
    let successes: u64 = report.per_request.iter().map(|s| s.success).sum();
    assert_eq!(successes, report.success);
}

/// What the echo server answers: `/error` gives 500, `/echo?id=x` gives 200 with body `x`.
fn echo(req: &Request) -> Sample {
    let (status, body) = if req.url.contains("/error") {
        (500, String::new())
    } else {
        (200, req.url.split("id=").nth(1).unwrap_or("").to_string())
    };
    let received = Received {
        status,
        status_text: String::new(),
        http_version: "HTTP/1.1".to_string(),
        headers: vec![],
        body: Some(body),
        duration_ms: 1,
        url: req.url.clone(),
    };
    Sample::of_response(&complete_response(req, received, &None))
}

fn run_all(session: &mut RunSession) {
    while let Some(req) = session.next_request(false) {
        session.record(echo(&req));
    }
}

#[test]
fn runner_reports_success_and_failures() {
    let base = "http://127.0.0.1:7878";
    let status = || vec![Validation::StatusEquals { name: "status".into(), expected: 200 }];
    let requests = vec![
        request("ok", format!("{base}/echo?id=1"), status()),
        request("bad", format!("{base}/error"), status()),
    ];
    let test = load_test("mi test", &[], 3, 0, None);
    let mut session = RunSession::start(&test, requests, None).unwrap();
    run_all(&mut session);
    let report = session.report(0);
    assert_eq!(report.total_requests, 6);
    assert_eq!(report.success, 3);
    assert_eq!(report.failed, 3);
    assert_eq!(report.per_request.len(), 2);
    let ok_summary = report.per_request.iter().find(|s| s.name == "ok").unwrap();
    assert_eq!(ok_summary.success, 3);
    let bad_summary = report.per_request.iter().find(|s| s.name == "bad").unwrap();
    assert_eq!(bad_summary.failed, 3);
}

#[test]
fn runner_interpolates_csv_rows_and_cycles() {
    let base = "http://127.0.0.1:7878";
    let requests = vec![request(
        "usuarios",
        format!("{base}/echo?id={{{{id}}}}"),
        vec![Validation::BodyContains { name: "id1".into(), expected: "1".into() }],
    )];
    let test = load_test(
        "csv test",
        &["usuarios"],
        4,
        0,
        Some(CsvSource::Path { path: "usuarios.csv".to_string() }),
    );
    let rows = probe::csv_data::load_csv_rows("usuarios.csv", Some(&b"id,nombre\n1,ana\n2,leo\n"[..])).unwrap();
    let mut session = RunSession::start(&test, requests, Some(Ok(rows))).unwrap();
    run_all(&mut session);
    let report = session.report(0);
    // Rows (1,ana),(2,leo) cycled four times: 1,2,1,2.
    assert_eq!(report.total_requests, 4);
    assert_eq!(report.success, 2);
    assert_eq!(report.failed, 2);
}
