use probe::engine::{complete_response, plan_request, PlannedBody, Received};
use probe::model::{
    Body, Collection, KeyValue, LoadTest, LoadTestReport, Request, RequestSummary, RunEvent,
    RunProgress, Validation,
};
use probe::server::{check_start, csv_upload_path, find_test, sanitize_csv_name, test_key, RunState, RunStatusResponse};

fn engine_request(method: &str, url: &str) -> Request {
    Request {
        id: None,
        name: "echo".to_string(),
        method: method.to_string(),
        url: url.to_string(),
        query: vec![KeyValue::new("id", "42")],
        headers: vec![KeyValue::new("Authorization", "Bearer token")],
        body: Body::Raw { content: "raw-body".to_string() },
        timeout_secs: 5,
        follow_redirects: true,
        validations: vec![Validation::StatusEquals { name: "status".into(), expected: 200 }],
    }
}

#[test]
fn engine_rejects_bad_method_and_url() {
    let mut req = engine_request("G ET", "https://example.com");
    assert_eq!(plan_request(&req).unwrap_err(), "verbo HTTP inválido: G ET");
    req.method = "GET".to_string();
    req.url = "no es una url".to_string();
    assert_eq!(plan_request(&req).unwrap_err(), "URL inválida: no es una url");
}

#[test]
fn plan_appends_enabled_query_and_keeps_enabled_headers() {
    let mut req = engine_request("POST", "https://example.com/anything");
    req.query.push(KeyValue::new("off", "x"));
    req.query[1].enabled = false;
    req.query.push(KeyValue::new("q", "a b&c"));
    req.headers.push(KeyValue::new("X-Off", "1"));
    req.headers[1].enabled = false;
    let plan = plan_request(&req).unwrap();
    assert_eq!(plan.method, "POST");
    assert_eq!(plan.url, "https://example.com/anything?id=42&q=a+b%26c");
    assert_eq!(plan.headers, vec![("Authorization".to_string(), "Bearer token".to_string())]);
    assert!(matches!(&plan.body, PlannedBody::Raw(c) if c == "raw-body"));
    assert_eq!(plan.timeout_secs, 5);
    assert!(plan.follow_redirects);
}

#[test]
fn plan_without_query_keeps_the_url_as_parsed() {
    let mut req = engine_request("PURGE", "https://Example.com");
    req.query.clear();
    req.body = Body::UrlEncoded { fields: vec![KeyValue::new("a", "1"), KeyValue::new("b", "2"), KeyValue::new("off", "x")] };
    if let Body::UrlEncoded { fields } = &mut req.body {
        fields[2].enabled = false;
    }
    let plan = plan_request(&req).unwrap();
    assert_eq!(plan.url, "https://example.com/");
    match plan.body {
        PlannedBody::Form(f) => assert_eq!(f, vec![("a".to_string(), "1".to_string()), ("b".to_string(), "2".to_string())]),
        _ => panic!("form body expected"),
    }
}

#[test]
fn completed_response_carries_validation_results() {
    let req = engine_request("GET", "https://example.com");
    let received = Received {
        status: 200,
        status_text: "OK".to_string(),
        http_version: "HTTP/1.1".to_string(),
        headers: vec![("content-type".to_string(), "text/plain".to_string())],
        body: Some("hola".to_string()),
        duration_ms: 12,
        url: "https://example.com/".to_string(),
    };
    let resp = complete_response(&req, received, &None);
    assert_eq!(resp.status, 200);
    assert_eq!(resp.validation_results.len(), 1);
    assert!(resp.validation_results[0].passed);
    assert_eq!(resp.validation_results[0].detail, "status esperado 200, obtenido 200");
}

fn report() -> LoadTestReport {
    LoadTestReport {
        test_name: "Smoke".to_string(),
        duration_ms: 5,
        total_requests: 1,
        success: 1,
        failed: 0,
        avg_ms: 5,
        p95_ms: 5,
        per_request: vec![RequestSummary { name: "a".to_string(), total: 1, success: 1, failed: 0 }],
        errors: vec![],
    }
}

#[test]
fn run_state_follows_a_run() {
    assert_eq!(test_key("Mi API", "Smoke"), "Mi API:Smoke");
    let mut run = RunState::running();
    assert_eq!(check_start(Some(&run)).unwrap_err(), "ya hay una ejecución en curso para este test");
    assert!(check_start(None).is_ok());
    run.set_counts(1, 4);
    run.apply_progress(RunProgress {
        done: 2,
        total: 4,
        current_request: Some("a".to_string()),
        per_request: vec![RequestSummary { name: "a".to_string(), total: 2, success: 2, failed: 0 }],
        last_event: Some(RunEvent {
            request: "a".to_string(),
            iteration: 1,
            csv_row: None,
            method: "GET".to_string(),
            url: "https://h".to_string(),
            status: Some(200),
            ok: true,
            duration_ms: 3,
            error: None,
        }),
    });
    run.apply_progress(RunProgress { done: 3, total: 4, current_request: None, per_request: vec![], last_event: None });
    assert_eq!(run.done, 3);
    assert!(run.last_event.is_some());
    let shown = RunStatusResponse::from_run(&run);
    assert_eq!(shown.status, "running");
    assert!(!shown.is_final());
    run.finish(Ok(report()), true);
    assert_eq!(run.status, "stopped");
    assert!(check_start(Some(&run)).is_ok());
    assert!(RunStatusResponse::from_run(&run).is_final());
    let mut failed = RunState::running();
    failed.finish(Err("boom".to_string()), false);
    assert_eq!(failed.status, "error");
    assert_eq!(failed.error, Some("boom".to_string()));
    let mut done = RunState::running();
    done.finish(Ok(report()), false);
    assert_eq!(done.status, "done");
    assert_eq!(RunStatusResponse::stopping().status, "stopping");
}

#[test]
fn uploaded_csv_names_are_sanitized() {
    assert_eq!(sanitize_csv_name("datos.csv"), "datos");
    assert_eq!(sanitize_csv_name("a/b.txt"), "a_b.txt");
    assert_eq!(csv_upload_path("/d/csv", "x:y.csv"), "/d/csv/x_y.csv");
}

#[test]
fn started_runs_find_their_test() {
    let c = Collection {
        name: "c".to_string(),
        version: "1".to_string(),
        requests: vec![],
        tests: vec![LoadTest { name: "t".to_string(), request_names: vec![], iterations: 1, delay_ms: 0, csv: None }],
    };
    assert_eq!(find_test(&c, "t").unwrap().name, "t");
    assert_eq!(find_test(&c, "u").unwrap_err(), "test \"u\" no encontrado");
}
