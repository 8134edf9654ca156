use probe::interpolation::{extract_variables, interpolate, interpolate_request};
use probe::markdown::{collection_to_markdown, full_url, url_path};
use probe::model::{Body, Collection, KeyValue, Request, Validation};

fn vars(pairs: &[(&str, &str)]) -> Vec<(String, String)> {
    pairs.iter().map(|(k, v)| (k.to_string(), v.to_string())).collect()
}

fn plain_request(name: &str, method: &str, url: &str) -> Request {
    Request {
        id: None,
        name: name.to_string(),
        method: method.to_string(),
        url: url.to_string(),
        query: vec![],
        headers: vec![],
        body: Body::Empty,
        timeout_secs: 30,
        follow_redirects: true,
        validations: vec![],
    }
}

#[test]
fn interpolate_replaces_known_vars_and_keeps_unknown() {
    let vars = vars(&[("id", "42"), ("nombre", "ana")]);
    assert_eq!(interpolate("id={{id}}", &vars), "id=42");
    assert_eq!(interpolate("{{nombre}}-{{id}}", &vars), "ana-42");
    assert_eq!(interpolate("hola {{desconocida}}", &vars), "hola {{desconocida}}");
    assert_eq!(interpolate("sin variables", &vars), "sin variables");
    assert_eq!(interpolate("", &vars), "");
}

#[test]
fn interpolate_replaces_path_params() {
    let vars = vars(&[("id", "42"), ("user", "ana")]);
    assert_eq!(interpolate("/users/:id/posts", &vars), "/users/42/posts");
    assert_eq!(interpolate("/:user/profile", &vars), "/ana/profile");
    assert_eq!(interpolate("/users/:user/:id", &vars), "/users/ana/42");
    assert_eq!(interpolate("https://api.example.com/:id", &vars), "https://api.example.com/42");
    assert_eq!(interpolate("/unknown/:falta", &vars), "/unknown/:falta");
    assert_eq!(
        interpolate("https://api.example.com:8080/:id", &vars),
        "https://api.example.com:8080/42"
    );
}

#[test]
fn interpolate_without_variables_keeps_the_text() {
    assert_eq!(interpolate("{{x}} :y", &vec![]), "{{x}} :y");
}

#[test]
fn interpolate_request_fills_url_query_headers_and_body() {
    let mut req = plain_request("r", "POST", "https://h/{{id}}");
    req.query = vec![KeyValue::new("{{id}}", "{{id}}")];
    req.headers = vec![KeyValue::new("X-{{id}}", "v{{id}}")];
    req.body = Body::UrlEncoded { fields: vec![KeyValue::new("{{id}}", "{{id}}")] };
    let out = interpolate_request(&req, &vars(&[("id", "7")]));
    assert_eq!(out.url, "https://h/7");
    assert_eq!(out.query[0].key, "{{id}}");
    assert_eq!(out.query[0].value, "7");
    assert_eq!(out.headers[0].key, "X-7");
    assert_eq!(out.headers[0].value, "v7");
    match &out.body {
        Body::UrlEncoded { fields } => {
            assert_eq!(fields[0].key, "{{id}}");
            assert_eq!(fields[0].value, "7");
        }
        _ => panic!("body kind changed"),
    }
}

fn sample_collection() -> Collection {
    let mut req = plain_request("Obtener usuarios", "GET", "https://api.example.com/users");
    req.query = vec![KeyValue::new("limit", "10")];
    req.headers = vec![KeyValue::new("Authorization", "Bearer xyz")];
    req.body = Body::Raw { content: "{\n  \"active\": true\n}".to_string() };
    req.validations = vec![Validation::StatusEquals { name: "status".into(), expected: 200 }];
    Collection { name: "demo".to_string(), version: "1".to_string(), requests: vec![req], tests: vec![] }
}

#[test]
fn markdown_follows_d1_template() {
    let md = collection_to_markdown(&sample_collection());
    assert!(md.starts_with("# demo\n"));
    assert!(md.contains("## GET /users — Obtener usuarios"));
    assert!(md.contains("- **Método:** GET"));
    assert!(md.contains("**Headers**"));
    assert!(md.contains("Authorization: Bearer xyz"));
    assert!(md.contains("**Body**"));
    assert!(md.contains("\"active\": true"));
    assert!(md.contains("**Validaciones**"));
    assert!(md.contains("- status"));
    assert!(md.contains("_Generado desde la colección `demo.json`_"));
}

#[test]
fn markdown_empty_collection() {
    let md = collection_to_markdown(&Collection {
        name: "vacía".to_string(),
        version: "1".to_string(),
        requests: vec![],
        tests: vec![],
    });
    assert!(md.contains("_(sin solicitudes)_"));
}

#[test]
fn markdown_urlencoded_and_url_edges() {
    let mut con_query = plain_request("con query", "GET", "https://api.example.com/search?fixed=1");
    con_query.query = vec![KeyValue::new("q", "rust"), KeyValue::new("off", "x")];
    con_query.headers = vec![KeyValue::new("desactivado", "nope")];
    con_query.body = Body::UrlEncoded { fields: vec![KeyValue::new("a", "1"), KeyValue::new("off", "y")] };
    con_query.query[1].enabled = false;
    con_query.headers[0].enabled = false;
    if let Body::UrlEncoded { fields } = &mut con_query.body {
        fields[1].enabled = false;
    }
    let collection = Collection {
        name: "edges".to_string(),
        version: "1".to_string(),
        requests: vec![
            con_query,
            plain_request("sin scheme", "GET", "localhost:8080/path#frag"),
            plain_request("raiz", "GET", "https://api.example.com"),
        ],
        tests: vec![],
    };
    let md = collection_to_markdown(&collection);
    assert!(md.contains("## GET /search — con query"));
    assert!(md.contains("---\n\n## GET /path — sin scheme"));
    assert!(md.contains("https://api.example.com/search?fixed=1&q=rust"));
    assert!(md.contains("**Body (urlencoded)**"));
    assert!(md.contains("a=1"));
    assert!(!md.contains("off"));
    assert!(!md.contains("desactivado"));
    assert!(md.contains("## GET / — raiz"));
    assert!(!md.contains("**Validaciones**"));
}

#[test]
fn url_path_and_full_url_exact_values() {
    assert_eq!(url_path("https://api.example.com/a/b?x=1#f"), "/a/b");
    assert_eq!(url_path("https://api.example.com"), "/");
    assert_eq!(url_path("localhost:8080/path#frag"), "/path");
    let mut r = plain_request("q", "GET", "https://h/p");
    r.query = vec![KeyValue::new("a", "1"), KeyValue::new("b", "2")];
    assert_eq!(full_url(&r), "https://h/p?a=1&b=2");
    r.url = "https://h/p?z=0".to_string();
    assert_eq!(full_url(&r), "https://h/p?z=0&a=1&b=2");
}

#[test]
fn extract_variables_from_url_query_headers_body() {
    let mut req = plain_request("test", "GET", "https://api.example.com/users/{{userId}}/posts");
    req.query = vec![KeyValue::new("page", "{{page}}")];
    req.headers = vec![KeyValue::new("Authorization", "Bearer {{token}}")];
    req.body = Body::Raw { content: r#"{"name":"{{name}}"}"#.to_string() };
    let vars = extract_variables(&vec![req]);
    assert!(vars.contains(&"userId".to_string()));
    assert!(vars.contains(&"page".to_string()));
    assert!(vars.contains(&"token".to_string()));
    assert!(vars.contains(&"name".to_string()));
    assert_eq!(vars.len(), 4);
}

#[test]
fn extract_variables_deduplicates() {
    let mut req = plain_request("dup", "POST", "https://api.example.com/{{id}}");
    req.query = vec![KeyValue::new("ref", "{{id}}")];
    req.body = Body::Raw { content: r#"{"ref":"{{id}}"}"#.to_string() };
    let vars = extract_variables(&vec![req]);
    assert!(vars.contains(&"id".to_string()));
    assert_eq!(vars.len(), 1);
}

#[test]
fn extract_variables_empty_when_no_placeholders() {
    let req = plain_request("plain", "GET", "https://api.example.com/fixed");
    let vars = extract_variables(&vec![req]);
    assert!(vars.is_empty());
}

#[test]
fn extract_variables_skips_empty_and_unclosed() {
    let req = plain_request("e", "GET", "{{}}/{{a}}/{{b");
    let vars = extract_variables(&vec![req]);
    assert_eq!(vars, vec!["a".to_string()]);
}

#[test]
fn key_value_new_enables_by_default() {
    let kv = KeyValue::new("a", "b");
    assert_eq!(kv.key, "a");
    assert_eq!(kv.value, "b");
    assert!(kv.enabled);
}

#[test]
fn interpolate_keeps_longer_unknown_parameter_names() {
    let one = vars(&[("id", "42")]);
    assert_eq!(interpolate("/items/:idx", &one), "/items/:idx");
    assert_eq!(interpolate("/items/:id_2/:id", &one), "/items/:id_2/42");
    assert_eq!(interpolate("/items/:id.json", &one), "/items/42.json");
    let a = vars(&[("id", "1"), ("idx", "2")]);
    let b = vars(&[("idx", "2"), ("id", "1")]);
    assert_eq!(interpolate(":idx/:id", &a), "2/1");
    assert_eq!(interpolate(":idx/:id", &b), "2/1");
}
