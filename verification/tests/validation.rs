use probe::model::{Json, JsonKind, Response, Validation};
use probe::validation::{evaluate, find_header, json_equals, resolve_path, run};

/// The library's JSON value for a `serde_json` value.
fn json_of(v: &serde_json::Value) -> Json {
    let kind = match v {
        serde_json::Value::Null => JsonKind::Null,
        serde_json::Value::Bool(b) => JsonKind::Bool(*b),
        serde_json::Value::Number(n) => JsonKind::Number(n.to_string()),
        serde_json::Value::String(s) => JsonKind::Str(s.clone()),
        serde_json::Value::Array(items) => JsonKind::Array(items.iter().map(json_of).collect()),
        serde_json::Value::Object(members) => JsonKind::Object(
            members.iter().map(|(k, m)| (k.clone(), json_of(m))).collect(),
        ),
    };
    Json { kind, text: v.to_string() }
}

fn parse(text: &str) -> Json {
    json_of(&serde_json::from_str::<serde_json::Value>(text).unwrap())
}

/// The body of a response parsed as JSON, as the engine hands it to the validations.
fn body_json(resp: &Response) -> Option<Json> {
    resp.body
        .as_deref()
        .and_then(|b| serde_json::from_str::<serde_json::Value>(b).ok())
        .map(|v| json_of(&v))
}

fn response(body: Option<&str>, status: u16, duration_ms: u128) -> Response {
    Response {
        status,
        status_text: String::new(),
        http_version: "HTTP/1.1".to_string(),
        headers: vec![("content-type".to_string(), "application/json".to_string())],
        body: body.map(|b| b.to_string()),
        duration_ms,
        url: "https://example.com".to_string(),
        validation_results: vec![],
    }
}

fn text_of(j: Option<&Json>) -> Option<String> {
    j.map(|j| j.text.clone())
}

fn check_json_path_resolves() {
    let json = parse(r#"{"users":[{"name":"ana"},{"name":"leo"}],"meta":{"page":2}}"#);
    assert_eq!(text_of(resolve_path(&json, "$.meta.page")), Some("2".to_string()));
    assert_eq!(text_of(resolve_path(&json, "$.users[0].name")), Some("\"ana\"".to_string()));
    assert!(matches!(&resolve_path(&json, "$.users[0].name").unwrap().kind, JsonKind::Str(s) if s == "ana"));
    assert!(resolve_path(&json, "$.missing").is_none());
    assert!(resolve_path(&json, "$.users[9]").is_none());
}

#[test]
fn tests_json_path_resolves() {
    check_json_path_resolves();
}

#[test]
fn validation_json_path_resolves() {
    check_json_path_resolves();
}

fn check_status_and_duration() {
    let resp = response(Some("{}"), 200, 500);
    let results = run(
        &vec![
            Validation::StatusEquals { name: "ok".into(), expected: 200 },
            Validation::DurationLt { name: "rápido".into(), max_ms: 1000 },
            Validation::DurationLt { name: "lento".into(), max_ms: 100 },
        ],
        &resp,
        &body_json(&resp),
    );
    assert!(results[0].passed);
    assert!(results[1].passed);
    assert!(!results[2].passed);
}

#[test]
fn tests_status_and_duration() {
    check_status_and_duration();
}

#[test]
fn validation_status_and_duration() {
    check_status_and_duration();
}

fn check_json_validations() {
    let resp = response(Some(r#"{"page":2}"#), 200, 10);
    let results = run(
        &vec![
            Validation::JsonEquals { name: "page".into(), path: "$.page".into(), expected: parse("2") },
            Validation::JsonEquals { name: "page mal".into(), path: "$.page".into(), expected: parse("3") },
            Validation::JsonExists { name: "existe".into(), path: "$.page".into() },
            Validation::JsonExists { name: "no existe".into(), path: "$.nada".into() },
        ],
        &resp,
        &body_json(&resp),
    );
    assert!(results[0].passed);
    assert!(!results[1].passed);
    assert!(results[2].passed);
    assert!(!results[3].passed);
}

#[test]
fn tests_json_validations() {
    check_json_validations();
}

#[test]
fn validation_json_validations() {
    check_json_validations();
}

fn check_header_and_body() {
    let resp = response(Some("hola mundo"), 200, 10);
    let results = run(
        &vec![
            Validation::HeaderContains { name: "ct".into(), header: "Content-Type".into(), expected: "json".into() },
            Validation::BodyContains { name: "contiene".into(), expected: "mundo".into() },
            Validation::BodyEquals { name: "igual".into(), expected: "hola mundo".into() },
            Validation::HeaderEquals { name: "hdr mal".into(), header: "content-type".into(), expected: "text/plain".into() },
        ],
        &resp,
        &body_json(&resp),
    );
    assert!(results[0].passed);
    assert!(results[1].passed);
    assert!(results[2].passed);
    assert!(!results[3].passed);
}

#[test]
fn tests_header_and_body() {
    check_header_and_body();
}

#[test]
fn validation_header_and_body() {
    check_header_and_body();
}

#[test]
fn validation_name_is_exposed() {
    let v = Validation::DurationLt { name: "rápido".into(), max_ms: 10 };
    assert_eq!(v.name(), "rápido");
}

#[test]
fn validation_header_missing_edges() {
    let resp = response(None, 200, 10);
    let results = run(
        &vec![
            Validation::HeaderEquals { name: "hdr ausente".into(), header: "X-Faltante".into(), expected: "1".into() },
            Validation::HeaderContains { name: "hdr ausente 2".into(), header: "X-Faltante".into(), expected: "1".into() },
        ],
        &resp,
        &body_json(&resp),
    );
    assert!(!results[0].passed);
    assert!(!results[1].passed);
}

#[test]
fn json_validations_without_body_or_invalid() {
    let checks = || {
        vec![
            Validation::JsonExists { name: "j".into(), path: "$.a".into() },
            Validation::JsonEquals { name: "j2".into(), path: "$.a".into(), expected: parse("1") },
        ]
    };
    let sin_cuerpo = response(None, 200, 10);
    let results = run(&checks(), &sin_cuerpo, &body_json(&sin_cuerpo));
    assert!(!results[0].passed);
    assert!(!results[1].passed);

    let no_json = response(Some("esto no es json"), 200, 10);
    let results = run(&checks(), &no_json, &body_json(&no_json));
    assert!(!results[0].passed);
    assert!(!results[1].passed);

    let resp = response(Some(r#"{"a":1}"#), 200, 10);
    let results = run(
        &vec![Validation::JsonEquals { name: "j".into(), path: "$.b".into(), expected: parse("1") }],
        &resp,
        &body_json(&resp),
    );
    assert!(!results[0].passed);
}

#[test]
fn resolve_path_malformed() {
    let json = parse(r#"{"a": {"b": [1, 2]}}"#);
    assert!(resolve_path(&json, "$..").is_none());
    assert!(resolve_path(&json, "$.a[").is_none());
    assert!(resolve_path(&json, "$.a[x]").is_none());
    assert!(resolve_path(&json, "a.b").is_none());
}

#[test]
fn validation_name_for_every_kind() {
    let validations = [
        Validation::StatusEquals { name: "s".into(), expected: 200 },
        Validation::HeaderEquals { name: "he".into(), header: "X".into(), expected: "y".into() },
        Validation::HeaderContains { name: "hc".into(), header: "X".into(), expected: "y".into() },
        Validation::BodyContains { name: "bc".into(), expected: "x".into() },
        Validation::BodyEquals { name: "be".into(), expected: "x".into() },
        Validation::JsonEquals { name: "je".into(), path: "$.a".into(), expected: parse("1") },
        Validation::JsonExists { name: "jx".into(), path: "$.a".into() },
        Validation::DurationLt { name: "dl".into(), max_ms: 5 },
    ];
    for v in &validations {
        assert!(!v.name().is_empty());
    }
}

#[test]
fn details_name_expected_and_obtained_values() {
    let resp = response(Some(r#"{"page":2,"tags":["a"]}"#), 404, 7);
    let j = body_json(&resp);
    let r = evaluate(&Validation::StatusEquals { name: "s".into(), expected: 200 }, &resp, &j);
    assert!(!r.passed);
    assert_eq!(r.detail, "status esperado 200, obtenido 404");
    let r = evaluate(
        &Validation::HeaderContains { name: "h".into(), header: "Content-Type".into(), expected: "json".into() },
        &resp,
        &j,
    );
    assert_eq!(r.detail, "header \"Content-Type\" = \"application/json\", debe contener \"json\"");
    let r = evaluate(&Validation::JsonExists { name: "x".into(), path: "$.tags[0]".into() }, &resp, &j);
    assert!(r.passed);
    assert_eq!(r.detail, "la ruta \"$.tags[0]\" existe");
    let r = evaluate(
        &Validation::JsonEquals { name: "e".into(), path: "$.page".into(), expected: parse("3") },
        &resp,
        &j,
    );
    assert!(!r.passed);
    assert_eq!(r.detail, "la ruta \"$.page\" esperada 3, obtenida 2");
    let r = evaluate(&Validation::DurationLt { name: "d".into(), max_ms: 5 }, &resp, &j);
    assert!(!r.passed);
    assert_eq!(r.detail, "duración esperada < 5 ms, obtenida 7 ms");
    let r = evaluate(&Validation::HeaderEquals { name: "x".into(), header: "X-No".into(), expected: "1".into() }, &resp, &j);
    assert_eq!(r.detail, "header \"X-No\" no presente");
    assert_eq!(r.name, "x");
}

#[test]
fn header_lookup_ignores_case() {
    let resp = response(None, 200, 1);
    assert_eq!(find_header(&resp, "CONTENT-TYPE"), Some("application/json".to_string()));
    assert_eq!(find_header(&resp, "accept"), None);
}

#[test]
fn json_equality_follows_values() {
    assert!(json_equals(&parse(r#"{"a":1,"b":[true,null]}"#), &parse(r#"{"b":[true,null],"a":1}"#)));
    assert!(!json_equals(&parse("1"), &parse("\"1\"")));
    assert!(!json_equals(&parse("[1,2]"), &parse("[2,1]")));
}
