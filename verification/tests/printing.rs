use probe::model::{
    Body, Collection, CollectionSummary, CsvSource, LoadTest, LoadTestReport, RequestSummary,
    Response, ValidationResult,
};
use probe::output::{
    collection_list_lines, created_line, deleted_line, progress_line, report_lines, response_lines,
    saved_line, starting_line, test_list_lines,
};

#[test]
fn response_lines_show_status_validations_headers_and_body() {
    let r = Response {
        status: 200,
        status_text: "OK".to_string(),
        http_version: "HTTP/1.1".to_string(),
        headers: vec![("content-type".to_string(), "application/json".to_string())],
        body: Some("{}".to_string()),
        duration_ms: 375,
        url: "https://httpbin.org/json".to_string(),
        validation_results: vec![ValidationResult {
            name: "status_equals:200".to_string(),
            passed: true,
            detail: "status esperado 200, obtenido 200".to_string(),
        }],
    };
    assert_eq!(
        response_lines(&r),
        vec![
            "200 OK",
            "URL final: https://httpbin.org/json",
            "Tiempo: 375 ms | HTTP/1.1",
            "",
            "Validaciones:",
            "  [PASÓ] status_equals:200 — status esperado 200, obtenido 200",
            "",
            "content-type: application/json",
            "",
            "{}",
        ]
    );
    let bare = Response { headers: vec![], body: None, validation_results: vec![], http_version: "HTTP/2.0".to_string(), ..r };
    assert_eq!(response_lines(&bare).len(), 4);
    assert_eq!(response_lines(&bare)[2], "Tiempo: 375 ms | HTTP/2.0");
}

#[test]
fn report_lines_follow_the_documented_layout() {
    let report = LoadTestReport {
        test_name: "Smoke".to_string(),
        duration_ms: 2413,
        total_requests: 10,
        success: 10,
        failed: 0,
        avg_ms: 241,
        p95_ms: 412,
        per_request: vec![RequestSummary { name: "login".to_string(), total: 10, success: 10, failed: 0 }],
        errors: vec![],
    };
    assert_eq!(
        report_lines(&report),
        vec![
            "",
            "== Reporte del test \"Smoke\" (PASÓ) ==",
            "  Duración: 2413 ms",
            "  Solicitudes: 10 total, 10 OK, 0 fallidas",
            "  Tiempo por solicitud: promedio 241 ms, p95 412 ms",
            "",
            "  Por solicitud:",
            "    login — 10 total, 10 OK, 0 fallidas",
        ]
    );
    let failing = LoadTestReport { failed: 1, errors: vec!["login: caída".to_string()], per_request: vec![], ..report };
    let lines = report_lines(&failing);
    assert_eq!(lines[1], "== Reporte del test \"Smoke\" (FALLÓ) ==");
    assert_eq!(lines[lines.len() - 1], "    - login: caída");
}

#[test]
fn test_lists_show_scope_and_csv() {
    let c = Collection {
        name: "Mi API".to_string(),
        version: "1".to_string(),
        requests: vec![],
        tests: vec![
            LoadTest { name: "Smoke".to_string(), request_names: vec![], iterations: 10, delay_ms: 200, csv: None },
            LoadTest {
                name: "Lote".to_string(),
                request_names: vec!["a".to_string(), "b".to_string()],
                iterations: 1,
                delay_ms: 0,
                csv: Some(CsvSource::Path { path: "d.csv".to_string() }),
            },
        ],
    };
    assert_eq!(
        test_list_lines(&c),
        vec![
            "Tests de \"Mi API\":",
            "  Smoke — 10 iteración(es), delay 200 ms, todas las solicitudes ",
            "  Lote — 1 iteración(es), delay 0 ms, a, b  | con CSV",
        ]
    );
    let empty = Collection { tests: vec![], ..c };
    assert_eq!(test_list_lines(&empty), vec!["La colección \"Mi API\" no tiene tests definidos."]);
}

#[test]
fn collection_lists_and_messages() {
    assert_eq!(collection_list_lines("/d", &vec![]), vec!["No hay colecciones guardadas en /d"]);
    assert_eq!(
        collection_list_lines("/d", &vec![CollectionSummary { name: "Mi API".to_string(), size: 37 }]),
        vec!["Colecciones en /d:", "  Mi API  (37 bytes)"]
    );
    assert_eq!(saved_line("Mi API", "/d/Mi API.json"), "Colección \"Mi API\" guardada en /d/Mi API.json");
    assert_eq!(created_line("/d/x.json"), "Colección vacía creada en /d/x.json");
    assert_eq!(deleted_line("x"), "Colección \"x\" eliminada.");
    assert_eq!(starting_line("Smoke"), "Ejecutando test \"Smoke\" (Ctrl+C para detener)...");
    assert_eq!(progress_line(10, 10), "  10 de 10 solicitudes");
    let _ = Body::Empty;
}
