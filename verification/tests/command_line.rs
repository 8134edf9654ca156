use probe::cli::{
    build_inline_request, find_named_request, is_json_path, new_collection, parse_header, parse_kv,
    parse_validation, prepare_test, progress_due, request_source, ParsedValidation, RequestSource,
    RunArgs,
};
use probe::model::{Body, Collection, CsvSource, LoadTest, Request, Validation};

fn args(target: Option<&str>) -> RunArgs {
    RunArgs {
        target: target.map(|t| t.to_string()),
        name: None,
        method: "GET".to_string(),
        header: vec![],
        query: vec![],
        body: None,
        form: vec![],
        timeout: 30,
        no_follow: false,
        validate: vec![],
    }
}

fn named(name: &str, url: &str) -> Request {
    Request {
        id: None,
        name: name.to_string(),
        method: "GET".to_string(),
        url: url.to_string(),
        query: vec![],
        headers: vec![],
        body: Body::Empty,
        timeout_secs: 30,
        follow_redirects: true,
        validations: vec![],
    }
}

#[test]
fn headers_split_at_first_colon_and_trim() {
    assert_eq!(parse_header("Authorization: Bearer a:b").unwrap(), ("Authorization".to_string(), "Bearer a:b".to_string()));
    assert_eq!(parse_header("  X  :  y ").unwrap(), ("X".to_string(), "y".to_string()));
    assert_eq!(parse_header("sin-dos-puntos").unwrap_err(), "cabecera inválida (esperaba `Clave: Valor`): sin-dos-puntos");
}

#[test]
fn pairs_split_at_first_equals() {
    assert_eq!(parse_kv("a=b=c").unwrap(), ("a".to_string(), "b=c".to_string()));
    assert_eq!(parse_kv(" a = b ").unwrap(), (" a ".to_string(), " b ".to_string()));
    assert_eq!(parse_kv("nada").unwrap_err(), "par inválido (esperaba `clave=valor`): nada");
}

#[test]
fn validations_parse_every_kind_and_reject_bad_input() {
    match parse_validation("status_equals:200").unwrap() {
        ParsedValidation::Ready(Validation::StatusEquals { name, expected }) => {
            assert_eq!(name, "status_equals:200");
            assert_eq!(expected, 200);
        }
        _ => panic!("status_equals"),
    }
    match parse_validation("status_equals:+201").unwrap() {
        ParsedValidation::Ready(Validation::StatusEquals { expected, .. }) => assert_eq!(expected, 201),
        _ => panic!("status_equals with sign"),
    }
    match parse_validation("header_contains:content-type:json").unwrap() {
        ParsedValidation::Ready(Validation::HeaderContains { header, expected, .. }) => {
            assert_eq!(header, "content-type");
            assert_eq!(expected, "json");
        }
        _ => panic!("header_contains"),
    }
    match parse_validation("json_equals:$.page:2").unwrap() {
        ParsedValidation::JsonEquals { name, path, raw } => {
            assert_eq!(name, "json_equals:$.page:2");
            assert_eq!(path, "$.page");
            assert_eq!(raw, "2");
        }
        _ => panic!("json_equals"),
    }
    match parse_validation("body_equals:{\"ok\":true}").unwrap() {
        ParsedValidation::Ready(Validation::BodyEquals { expected, .. }) => assert_eq!(expected, "{\"ok\":true}"),
        _ => panic!("body_equals"),
    }
    match parse_validation("duration_lt:1000").unwrap() {
        ParsedValidation::Ready(Validation::DurationLt { max_ms, .. }) => assert_eq!(max_ms, 1000),
        _ => panic!("duration_lt"),
    }
    assert_eq!(parse_validation("sin_formato").unwrap_err(), "formato: `tipo:campo:esperado`");
    assert_eq!(parse_validation("status_equals:70000").unwrap_err(), "status_equals: código inválido");
    assert_eq!(parse_validation("status_equals:").unwrap_err(), "status_equals: código inválido");
    assert_eq!(parse_validation("duration_lt:-1").unwrap_err(), "duration_lt: ms inválido");
    assert_eq!(
        parse_validation("header_equals:x").unwrap_err(),
        "header_equals/header_contains: formato `tipo:header:valor`"
    );
    assert_eq!(parse_validation("json_equals:$.a").unwrap_err(), "json_equals: formato `json_equals:ruta:valor`");
    assert_eq!(parse_validation("otro:x").unwrap_err(), "tipo de validación desconocido: otro");
}

#[test]
fn inline_request_takes_body_over_form() {
    let mut a = args(Some("https://h/x"));
    a.method = "POST".to_string();
    a.header = vec![("A".to_string(), "1".to_string())];
    a.query = vec![("q".to_string(), "2".to_string())];
    a.body = Some("raw".to_string());
    a.form = vec![("f".to_string(), "3".to_string())];
    a.no_follow = true;
    a.timeout = 9;
    let r = build_inline_request(a).unwrap();
    assert_eq!(r.name, "POST");
    assert_eq!(r.method, "POST");
    assert_eq!(r.url, "https://h/x");
    assert_eq!(r.headers[0].key, "A");
    assert!(r.query[0].enabled);
    assert!(matches!(&r.body, Body::Raw { content } if content == "raw"));
    assert!(!r.follow_redirects);
    assert_eq!(r.timeout_secs, 9);

    let mut a = args(Some("https://h/x"));
    a.form = vec![("f".to_string(), "3".to_string())];
    let r = build_inline_request(a).unwrap();
    assert!(matches!(&r.body, Body::UrlEncoded { fields } if fields[0].key == "f" && fields[0].value == "3"));
    let r = build_inline_request(args(Some("https://h/x"))).unwrap();
    assert!(matches!(r.body, Body::Empty));
    assert_eq!(
        build_inline_request(args(None)).unwrap_err(),
        "se requiere --url o <colección> --name <solicitud>"
    );
    assert!(build_inline_request(args(Some(""))).is_err());
}

#[test]
fn run_target_selects_file_stored_or_inline() {
    let mut a = args(Some("col.json"));
    a.name = Some("Ping".to_string());
    assert!(matches!(request_source(&a), RequestSource::File { path, name } if path == "col.json" && name == "Ping"));
    let mut a = args(Some("Mi API"));
    a.name = Some("Ping".to_string());
    assert!(matches!(request_source(&a), RequestSource::Stored { collection, .. } if collection == "Mi API"));
    assert!(matches!(request_source(&args(Some("https://h"))), RequestSource::Inline));
    assert!(is_json_path("a.json"));
    assert!(!is_json_path("json"));
}

#[test]
fn named_requests_and_tests_are_found_or_reported() {
    let c = Collection {
        name: "Mi API".to_string(),
        version: "1".to_string(),
        requests: vec![named("a", "https://h/1"), named("a", "https://h/2")],
        tests: vec![LoadTest {
            name: "Smoke".to_string(),
            request_names: vec![],
            iterations: 10,
            delay_ms: 200,
            csv: Some(CsvSource::Path { path: "d.csv".to_string() }),
        }],
    };
    let t = prepare_test(&c, "Smoke", Some(50), None).unwrap();
    assert_eq!(t.iterations, 50);
    assert_eq!(t.delay_ms, 200);
    assert_eq!(prepare_test(&c, "X", None, None).unwrap_err(), "test \"X\" no encontrado en \"Mi API\"");
    assert_eq!(find_named_request(c, "a", "Mi API").unwrap().url, "https://h/1");
    let empty = new_collection("vacía".to_string());
    assert_eq!(empty.version, "1");
    assert_eq!(
        find_named_request(empty, "b", "x.json").unwrap_err(),
        "solicitud \"b\" no encontrada en \"x.json\""
    );
}

#[test]
fn progress_is_printed_every_25_and_at_the_end() {
    assert!(progress_due(25, 100));
    assert!(!progress_due(26, 100));
    assert!(progress_due(7, 7));
    assert!(progress_due(3, 0));
}
