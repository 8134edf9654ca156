//! Command line: arguments, parsing of `Key: Value`, `key=value` and
//! `kind:field:expected` options, and the requests and tests they select.
use vstd::prelude::*;

use crate::model::{Body, Collection, KeyValue, LoadTest, Request, Validation};
use crate::text::{
    chars_of, chars_eq, find_char, index_of_char, push_quoted, push_str, quoted,
    string_of, sub_chars, trim_chars, trim_spec, find_from,
};
use crate::validation::{parse_unsigned, parse_unsigned_spec};

verus! {

// ---------------------------------------------------------------------------
// Arguments
// ---------------------------------------------------------------------------

/// `probe` and its sub-command.
#[derive(Debug)]
pub struct Cli {
    pub command: Command,
}

#[derive(Debug)]
pub enum Command {
    /// Runs an HTTP request.
    Run(RunArgs),
    /// Manages stored collections.
    Collection(CollectionArgs),
    /// Runs load tests of a collection.
    Test(TestArgs),
}

#[derive(Debug)]
pub struct TestArgs {
    pub command: TestCommand,
}

#[derive(Debug)]
pub enum TestCommand {
    /// Lists the tests of a collection.
    List { collection: String },
    /// Runs a load test.
    Run { collection: String, test: String, iterations: Option<u64>, delay: Option<u64> },
}

#[derive(Debug)]
pub struct CollectionArgs {
    pub command: CollectionCommand,
}

#[derive(Debug)]
pub enum CollectionCommand {
    /// Lists the stored collections.
    List,
    /// Imports a collection from a JSON file.
    Save { path: String },
    /// Creates an empty collection.
    New { name: String },
    /// Deletes a stored collection.
    Delete { name: String },
}

/// Options of `probe run`.
#[derive(Debug)]
pub struct RunArgs {
    /// URL, or name or path of a collection when `name` is given.
    pub target: Option<String>,
    /// Name of the request inside the collection.
    pub name: Option<String>,
    pub method: String,
    pub header: Vec<(String, String)>,
    pub query: Vec<(String, String)>,
    pub body: Option<String>,
    pub form: Vec<(String, String)>,
    pub timeout: u64,
    pub no_follow: bool,
    pub validate: Vec<Validation>,
}

// ---------------------------------------------------------------------------
// `Key: Value` and `key=value`
// ---------------------------------------------------------------------------

pub open spec fn header_error(s: Seq<char>) -> Seq<char> {
    "cabecera inválida (esperaba `Clave: Valor`): "@ + s
}

pub open spec fn kv_error(s: Seq<char>) -> Seq<char> {
    "par inválido (esperaba `clave=valor`): "@ + s
}

/// What reading `Key: Value` gives: the text split at its first `:`, both
/// sides trimmed.
pub open spec fn header_parsed(s: Seq<char>, r: Result<(String, String), String>) -> bool {
    match index_of_char(s, ':') {
        Some(i) => r matches Ok((k, v)) && k@ == trim_spec(s.take(i)) && v@ == trim_spec(
            s.skip(i + 1),
        ),
        None => r matches Err(e) && e@ == header_error(s),
    }
}

/// What reading `key=value` gives: the text split at its first `=`.
pub open spec fn kv_parsed(s: Seq<char>, r: Result<(String, String), String>) -> bool {
    match index_of_char(s, '=') {
        Some(i) => r matches Ok((k, v)) && k@ == s.take(i) && v@ == s.skip(i + 1),
        None => r matches Err(e) && e@ == kv_error(s),
    }
}

/// Splits `Key: Value` at its first `:`, both sides trimmed.
pub fn parse_header(s: &str) -> (r: Result<(String, String), String>)
    ensures
        header_parsed(s@, r),
{
    let cs = chars_of(s);
    match find_char(&cs, ':', 0) {
        Some(i) => {
            proof {
                crate::text::lemma_find_from_some(cs@, seq![':'], 0);
            }
            assert(i < cs.len());
            let k = sub_chars(&cs, 0, i);
            let v = sub_chars(&cs, i + 1, cs.len());
            assert(k@ =~= s@.take(i as int));
            assert(v@ =~= s@.skip(i + 1));
            Ok((string_of(&trim_chars(&k)), string_of(&trim_chars(&v))))
        },
        None => {
            let mut e = String::new();
            push_str(&mut e, "cabecera inválida (esperaba `Clave: Valor`): ");
            push_str(&mut e, s);
            Err(e)
        },
    }
}

/// Splits `key=value` at its first `=`.
pub fn parse_kv(s: &str) -> (r: Result<(String, String), String>)
    ensures
        kv_parsed(s@, r),
{
    let cs = chars_of(s);
    match find_char(&cs, '=', 0) {
        Some(i) => {
            proof {
                crate::text::lemma_find_from_some(cs@, seq!['='], 0);
            }
            assert(i < cs.len());
            let k = sub_chars(&cs, 0, i);
            let v = sub_chars(&cs, i + 1, cs.len());
            assert(k@ =~= s@.take(i as int));
            assert(v@ =~= s@.skip(i + 1));
            Ok((string_of(&k), string_of(&v)))
        },
        None => {
            let mut e = String::new();
            push_str(&mut e, "par inválido (esperaba `clave=valor`): ");
            push_str(&mut e, s);
            Err(e)
        },
    }
}

// ---------------------------------------------------------------------------
// `kind:field:expected`
// ---------------------------------------------------------------------------

/// A validation read from the command line. A `json_equals` keeps its
/// expected value as text: it is JSON when it parses as such, else a string.
#[derive(Debug)]
pub enum ParsedValidation {
    Ready(Validation),
    JsonEquals { name: String, path: String, raw: String },
}

/// What `kind:field:expected` gives (the name of the validation is the whole text).
pub open spec fn parse_validation_spec(s: Seq<char>, r: Result<ParsedValidation, String>) -> bool {
    match index_of_char(s, ':') {
        None => r matches Err(e) && e@ == "formato: `tipo:campo:esperado`"@,
        Some(i) => {
            let kind = s.take(i);
            let rest = s.skip(i + 1);
            if kind == "status_equals"@ {
                match parse_unsigned_spec(rest, u16::MAX as nat) {
                    Some(n) => r matches Ok(ParsedValidation::Ready(Validation::StatusEquals { name, expected })) && name@ == s && expected == n,
                    None => r matches Err(e) && e@ == "status_equals: código inválido"@,
                }
            } else if kind == "header_equals"@ || kind == "header_contains"@ {
                match index_of_char(rest, ':') {
                    None => r matches Err(e) && e@ == "header_equals/header_contains: formato `tipo:header:valor`"@,
                    Some(j) => if kind == "header_equals"@ {
                        r matches Ok(ParsedValidation::Ready(Validation::HeaderEquals { name, header, expected })) && name@ == s && header@ == rest.take(j) && expected@ == rest.skip(j + 1)
                    } else {
                        r matches Ok(ParsedValidation::Ready(Validation::HeaderContains { name, header, expected })) && name@ == s && header@ == rest.take(j) && expected@ == rest.skip(j + 1)
                    },
                }
            } else if kind == "body_contains"@ {
                r matches Ok(ParsedValidation::Ready(Validation::BodyContains { name, expected })) && name@ == s && expected@ == rest
            } else if kind == "body_equals"@ {
                r matches Ok(ParsedValidation::Ready(Validation::BodyEquals { name, expected })) && name@ == s && expected@ == rest
            } else if kind == "json_equals"@ {
                match index_of_char(rest, ':') {
                    None => r matches Err(e) && e@ == "json_equals: formato `json_equals:ruta:valor`"@,
                    Some(j) => r matches Ok(ParsedValidation::JsonEquals { name, path, raw }) && name@ == s && path@ == rest.take(j) && raw@ == rest.skip(j + 1),
                }
            } else if kind == "json_exists"@ {
                r matches Ok(ParsedValidation::Ready(Validation::JsonExists { name, path })) && name@ == s && path@ == rest
            } else if kind == "duration_lt"@ {
                match parse_unsigned_spec(rest, u64::MAX as nat) {
                    Some(n) => r matches Ok(ParsedValidation::Ready(Validation::DurationLt { name, max_ms })) && name@ == s && max_ms == n,
                    None => r matches Err(e) && e@ == "duration_lt: ms inválido"@,
                }
            } else {
                r matches Err(e) && e@ == "tipo de validación desconocido: "@ + kind
            }
        },
    }
}

fn is_word(v: &Vec<char>, w: &str) -> (r: bool)
    ensures
        r == (v@ == w@),
{
    let c = chars_of(w);
    chars_eq(v, &c)
}

fn split_at_colon(v: &Vec<char>) -> (r: Option<(Vec<char>, Vec<char>)>)
    ensures
        match index_of_char(v@, ':') {
            Some(j) => r matches Some((a, b)) && a@ == v@.take(j) && b@ == v@.skip(j + 1),
            None => r is None,
        },
{
    match find_char(v, ':', 0) {
        Some(j) => {
            proof {
                crate::text::lemma_find_from_some(v@, seq![':'], 0);
            }
            assert(j < v.len());
            let a = sub_chars(v, 0, j);
            let b = sub_chars(v, j + 1, v.len());
            assert(a@ =~= v@.take(j as int));
            assert(b@ =~= v@.skip(j + 1));
            Some((a, b))
        },
        None => None,
    }
}

fn error_text(s: &str) -> (r: String)
    ensures
        r@ == s@,
{
    s.to_string()
}

/// Reads a validation written `kind:field:expected`, as `--validate` takes it.
pub fn parse_validation(s: &str) -> (r: Result<ParsedValidation, String>)
    ensures
        parse_validation_spec(s@, r),
{
    let cs = chars_of(s);
    let (kind, rest) = match split_at_colon(&cs) {
        Some(p) => p,
        None => {
            return Err(error_text("formato: `tipo:campo:esperado`"));
        },
    };
    let name = s.to_string();
    if is_word(&kind, "status_equals") {
        match parse_unsigned(&rest, 0, rest.len(), 65535) {
            Some(n) => {
                assert(rest@.subrange(0, rest@.len() as int) =~= rest@);
                Ok(ParsedValidation::Ready(Validation::StatusEquals { name, expected: n as u16 }))
            },
            None => {
                assert(rest@.subrange(0, rest@.len() as int) =~= rest@);
                Err(error_text("status_equals: código inválido"))
            },
        }
    } else if is_word(&kind, "header_equals") || is_word(&kind, "header_contains") {
        match split_at_colon(&rest) {
            None => Err(error_text("header_equals/header_contains: formato `tipo:header:valor`")),
            Some((header, expected)) => {
                let header = string_of(&header);
                let expected = string_of(&expected);
                if is_word(&kind, "header_equals") {
                    Ok(ParsedValidation::Ready(Validation::HeaderEquals { name, header, expected }))
                } else {
                    Ok(
                        ParsedValidation::Ready(
                            Validation::HeaderContains { name, header, expected },
                        ),
                    )
                }
            },
        }
    } else if is_word(&kind, "body_contains") {
        Ok(ParsedValidation::Ready(Validation::BodyContains { name, expected: string_of(&rest) }))
    } else if is_word(&kind, "body_equals") {
        Ok(ParsedValidation::Ready(Validation::BodyEquals { name, expected: string_of(&rest) }))
    } else if is_word(&kind, "json_equals") {
        match split_at_colon(&rest) {
            None => Err(error_text("json_equals: formato `json_equals:ruta:valor`")),
            Some((path, raw)) => Ok(
                ParsedValidation::JsonEquals { name, path: string_of(&path), raw: string_of(&raw) },
            ),
        }
    } else if is_word(&kind, "json_exists") {
        Ok(ParsedValidation::Ready(Validation::JsonExists { name, path: string_of(&rest) }))
    } else if is_word(&kind, "duration_lt") {
        assert(rest@.subrange(0, rest@.len() as int) =~= rest@);
        match parse_unsigned(&rest, 0, rest.len(), 18446744073709551615) {
            Some(n) => Ok(
                ParsedValidation::Ready(Validation::DurationLt { name, max_ms: n as u64 }),
            ),
            None => Err(error_text("duration_lt: ms inválido")),
        }
    } else {
        let mut e = String::new();
        push_str(&mut e, "tipo de validación desconocido: ");
        let k = string_of(&kind);
        push_str(&mut e, k.as_str());
        Err(e)
    }
}

// ---------------------------------------------------------------------------
// Requests and tests selected by the arguments
// ---------------------------------------------------------------------------

pub open spec fn pairs_to_kvs(pairs: Seq<(String, String)>, kvs: Seq<KeyValue>) -> bool {
    pairs.len() == kvs.len() && forall|i: int|
        0 <= i < pairs.len() ==> (#[trigger] kvs[i]).key@ == pairs[i].0@ && kvs[i].value@
            == pairs[i].1@ && kvs[i].enabled
}

fn kvs_of_pairs(pairs: &Vec<(String, String)>) -> (r: Vec<KeyValue>)
    ensures
        pairs_to_kvs(pairs@, r@),
{
    let mut r: Vec<KeyValue> = Vec::new();
    let mut i: usize = 0;
    while i < pairs.len()
        invariant
            i <= pairs.len(),
            r@.len() == i,
            forall|k: int|
                0 <= k < i ==> (#[trigger] r@[k]).key@ == pairs@[k].0@ && r@[k].value@
                    == pairs@[k].1@ && r@[k].enabled,
        decreases pairs.len() - i,
    {
        r.push(KeyValue::new(pairs[i].0.as_str(), pairs[i].1.as_str()));
        i = i + 1;
    }
    r
}

pub open spec fn missing_url_msg() -> Seq<char> {
    "se requiere --url o <colección> --name <solicitud>"@
}

/// The request that `probe run <url> [options]` sends.
pub fn build_inline_request(args: RunArgs) -> (r: Result<Request, String>)
    ensures
        match args.target {
            Some(t) if t@.len() > 0 => r matches Ok(q) && q.id is None && q.name@ == args.method@
                && q.method@ == args.method@ && q.url@ == t@ && pairs_to_kvs(
                args.query@,
                q.query@,
            ) && pairs_to_kvs(args.header@, q.headers@) && match args.body {
                Some(c) => q.body matches Body::Raw { content } && content@ == c@,
                None => if args.form@.len() > 0 {
                    q.body matches Body::UrlEncoded { fields } && pairs_to_kvs(args.form@, fields@)
                } else {
                    q.body is Empty
                },
            } && q.timeout_secs == args.timeout && q.follow_redirects == !args.no_follow
                && q.validations == args.validate,
            _ => r matches Err(e) && e@ == missing_url_msg(),
        },
{
    let url = match args.target {
        Some(t) => t,
        None => String::new(),
    };
    if url.as_str().unicode_len() == 0 {
        return Err(error_text("se requiere --url o <colección> --name <solicitud>"));
    }
    let body = match args.body {
        Some(content) => Body::Raw { content },
        None => if args.form.len() > 0 {
            Body::UrlEncoded { fields: kvs_of_pairs(&args.form) }
        } else {
            Body::Empty
        },
    };
    Ok(
        Request {
            id: None,
            name: args.method.clone(),
            method: args.method,
            url,
            query: kvs_of_pairs(&args.query),
            headers: kvs_of_pairs(&args.header),
            body,
            timeout_secs: args.timeout,
            follow_redirects: !args.no_follow,
            validations: args.validate,
        },
    )
}

/// Whether a target names a JSON file rather than a stored collection.
pub open spec fn is_json_path_spec(t: Seq<char>) -> bool {
    t.len() >= 5 && t.skip(t.len() - 5) == ".json"@
}

pub fn is_json_path(t: &str) -> (r: bool)
    ensures
        r == is_json_path_spec(t@),
{
    let cs = chars_of(t);
    if cs.len() < 5 {
        return false;
    }
    let tail = sub_chars(&cs, cs.len() - 5, cs.len());
    assert(tail@ =~= t@.skip(t@.len() - 5));
    is_word(&tail, ".json")
}

/// Where the request of `probe run` comes from.
#[derive(Debug)]
pub enum RequestSource {
    /// A request named `name` in the collection file at `path`.
    File { path: String, name: String },
    /// A request named `name` in the stored collection `collection`.
    Stored { collection: String, name: String },
    /// A request built from the command line.
    Inline,
}

/// `<target> --name <name>` selects a request of a collection (a `.json`
/// file or a stored one); anything else is an inline request.
pub fn request_source(args: &RunArgs) -> (r: RequestSource)
    ensures
        match (args.target, args.name) {
            (Some(t), Some(n)) => if is_json_path_spec(t@) {
                r matches RequestSource::File { path, name } && path@ == t@ && name@ == n@
            } else {
                r matches RequestSource::Stored { collection, name } && collection@ == t@ && name@
                    == n@
            },
            _ => r is Inline,
        },
{
    match (&args.target, &args.name) {
        (Some(t), Some(n)) => if is_json_path(t.as_str()) {
            RequestSource::File { path: t.clone(), name: n.clone() }
        } else {
            RequestSource::Stored { collection: t.clone(), name: n.clone() }
        },
        _ => RequestSource::Inline,
    }
}

/// Index of the first request of `rs` named `n`.
pub open spec fn first_named(rs: Seq<Request>, n: Seq<char>) -> Option<int> {
    crate::runner::request_index(rs, n, 0)
}

/// The first request of the collection named `name`; `target` names the
/// collection in the error.
pub fn find_named_request(collection: Collection, name: &str, target: &str) -> (r: Result<
    Request,
    String,
>)
    ensures
        match first_named(collection.requests@, name@) {
            Some(i) => r matches Ok(q) && q == collection.requests@[i],
            None => r matches Err(e) && e@ == "solicitud "@ + quoted(name@) + " no encontrada en "@
                + quoted(target@),
        },
{
    let mut requests = collection.requests;
    let n = name.to_string();
    let mut i: usize = 0;
    while i < requests.len()
        invariant
            i <= requests.len(),
            requests@ == collection.requests@,
            n@ == name@,
            first_named(requests@, name@) == crate::runner::request_index(
                requests@,
                name@,
                i as int,
            ),
        decreases requests.len() - i,
    {
        if requests[i].name == n {
            return Ok(requests.remove(i));
        }
        i = i + 1;
    }
    let mut e = String::new();
    push_str(&mut e, "solicitud ");
    push_quoted(&mut e, name);
    push_str(&mut e, " no encontrada en ");
    push_quoted(&mut e, target);
    Err(e)
}

/// Index of the first test of `ts` named `n`.
pub open spec fn test_index(ts: Seq<LoadTest>, n: Seq<char>, i: int) -> Option<int>
    decreases ts.len() - i,
{
    if i < 0 || i >= ts.len() {
        None
    } else if ts[i].name@ == n {
        Some(i)
    } else {
        test_index(ts, n, i + 1)
    }
}

/// The test named `name` of the collection, with the iterations and the
/// delay given on the command line in place of its own.
pub fn prepare_test(
    collection: &Collection,
    name: &str,
    iterations: Option<u64>,
    delay: Option<u64>,
) -> (r: Result<LoadTest, String>)
    ensures
        match test_index(collection.tests@, name@, 0) {
            Some(i) => r matches Ok(t) && {
                let base = collection.tests@[i];
                &&& t.name@ == base.name@
                &&& crate::model::strings_same(t.request_names@, base.request_names@)
                &&& crate::model::csv_source_same(t.csv, base.csv)
                &&& t.iterations == (match iterations {
                    Some(n) => n,
                    None => base.iterations,
                })
                &&& t.delay_ms == (match delay {
                    Some(d) => d,
                    None => base.delay_ms,
                })
            },
            None => r matches Err(e) && e@ == "test "@ + quoted(name@) + " no encontrado en "@
                + quoted(collection.name@),
        },
{
    let n = name.to_string();
    let mut i: usize = 0;
    while i < collection.tests.len()
        invariant
            i <= collection.tests.len(),
            n@ == name@,
            test_index(collection.tests@, name@, 0) == test_index(
                collection.tests@,
                name@,
                i as int,
            ),
        decreases collection.tests.len() - i,
    {
        if collection.tests[i].name == n {
            let mut t = collection.tests[i].copy();
            if let Some(x) = iterations {
                t.iterations = x;
            }
            if let Some(d) = delay {
                t.delay_ms = d;
            }
            return Ok(t);
        }
        i = i + 1;
    }
    let mut e = String::new();
    push_str(&mut e, "test ");
    push_quoted(&mut e, name);
    push_str(&mut e, " no encontrado en ");
    push_quoted(&mut e, collection.name.as_str());
    Err(e)
}

/// Whether the progress `done of total` is printed.
pub fn progress_due(done: u64, total: u64) -> (r: bool)
    ensures
        r == (total == 0 || done == total || done % 25 == 0),
{
    total == 0 || done == total || done % 25 == 0
}

/// An empty collection, version "1".
pub fn new_collection(name: String) -> (r: Collection)
    ensures
        r.name == name,
        r.version@ == "1"@,
        r.requests@.len() == 0,
        r.tests@.len() == 0,
{
    Collection { name, version: "1".to_string(), requests: Vec::new(), tests: Vec::new() }
}

// ---------------------------------------------------------------------------
// Laws of `kind:field:expected`
// ---------------------------------------------------------------------------

/// The first `c` of `w` `c` `x`, for a `w` without `c`, ends `w`.
proof fn lemma_first_sep(w: Seq<char>, c: char, x: Seq<char>, i: int)
    requires
        0 <= i <= w.len(),
        forall|k: int| 0 <= k < w.len() ==> w[k] != c,
    ensures
        find_from(w + seq![c] + x, seq![c], i) == Some(w.len() as int),
    decreases w.len() - i,
{
    let s = w + seq![c] + x;
    if i < w.len() {
        assert(s.subrange(i, i + 1) != seq![c]) by {
            assert(s.subrange(i, i + 1)[0] == w[i]);
        }
        lemma_first_sep(w, c, x, i + 1);
    } else {
        assert(s.subrange(i, i + 1) =~= seq![c]);
    }
}

/// `w` `c` `x` splits at `c` into `w` and `x`.
proof fn lemma_split_at(w: Seq<char>, c: char, x: Seq<char>)
    requires
        forall|k: int| 0 <= k < w.len() ==> w[k] != c,
    ensures
        index_of_char(w + seq![c] + x, c) == Some(w.len() as int),
        (w + seq![c] + x).take(w.len() as int) == w,
        (w + seq![c] + x).skip(w.len() as int + 1) == x,
{
    lemma_first_sep(w, c, x, 0);
    assert((w + seq![c] + x).take(w.len() as int) =~= w);
    assert((w + seq![c] + x).skip(w.len() as int + 1) =~= x);
}

/// `w:x` splits into the kind `w` and the rest `x`.
proof fn lemma_kind_split(w: Seq<char>, x: Seq<char>)
    requires
        forall|k: int| 0 <= k < w.len() ==> w[k] != ':',
    ensures
        index_of_char(w + seq![':'] + x, ':') == Some(w.len() as int),
        (w + seq![':'] + x).take(w.len() as int) == w,
        (w + seq![':'] + x).skip(w.len() as int + 1) == x,
{
    lemma_split_at(w, ':', x);
}

/// A text without `c` has no first `c`.
proof fn lemma_no_sep(s: Seq<char>, c: char)
    requires
        forall|k: int| 0 <= k < s.len() ==> s[k] != c,
    ensures
        index_of_char(s, c) is None,
{
    if index_of_char(s, c) is Some {
        crate::text::lemma_find_from_some(s, seq![c], 0);
        let i = index_of_char(s, c)->0;
        assert(s.subrange(i, i + 1)[0] == s[i]);
    }
}

/// `Key: Value`, for a key without `:`, is read as the trimmed key and the
/// trimmed value (the value may hold `:`); a text without `:` is refused.
pub proof fn law_parse_header(k: Seq<char>, v: Seq<char>, r: Result<(String, String), String>)
    requires
        forall|i: int| 0 <= i < k.len() ==> k[i] != ':',
    ensures
        header_parsed(k + seq![':'] + v, r) ==> (r matches Ok((a, b)) && a@ == trim_spec(k) && b@
            == trim_spec(v)),
        header_parsed(k, r) ==> r is Err,
{
    lemma_split_at(k, ':', v);
    lemma_no_sep(k, ':');
}

/// `key=value`, for a key without `=`, is read as that key and value, kept
/// as they are; a text without `=` is refused.
pub proof fn law_parse_kv(k: Seq<char>, v: Seq<char>, r: Result<(String, String), String>)
    requires
        forall|i: int| 0 <= i < k.len() ==> k[i] != '=',
    ensures
        kv_parsed(k + seq!['='] + v, r) ==> (r matches Ok((a, b)) && a@ == k && b@ == v),
        kv_parsed(k, r) ==> r is Err,
{
    lemma_split_at(k, '=', v);
    lemma_no_sep(k, '=');
}

proof fn reveal_kind_words()
    ensures
        forall|k: int| 0 <= k < "status_equals"@.len() ==> "status_equals"@[k] != ':',
        forall|k: int| 0 <= k < "header_equals"@.len() ==> "header_equals"@[k] != ':',
        forall|k: int| 0 <= k < "header_contains"@.len() ==> "header_contains"@[k] != ':',
        forall|k: int| 0 <= k < "body_contains"@.len() ==> "body_contains"@[k] != ':',
        forall|k: int| 0 <= k < "body_equals"@.len() ==> "body_equals"@[k] != ':',
        forall|k: int| 0 <= k < "json_equals"@.len() ==> "json_equals"@[k] != ':',
        forall|k: int| 0 <= k < "json_exists"@.len() ==> "json_exists"@[k] != ':',
        forall|k: int| 0 <= k < "duration_lt"@.len() ==> "duration_lt"@[k] != ':',
        "status_equals"@ == seq!['s', 't', 'a', 't', 'u', 's', '_', 'e', 'q', 'u', 'a', 'l', 's'],
        "header_equals"@ == seq!['h', 'e', 'a', 'd', 'e', 'r', '_', 'e', 'q', 'u', 'a', 'l', 's'],
        "header_contains"@ == seq!['h', 'e', 'a', 'd', 'e', 'r', '_', 'c', 'o', 'n', 't', 'a', 'i', 'n', 's'],
        "body_contains"@ == seq!['b', 'o', 'd', 'y', '_', 'c', 'o', 'n', 't', 'a', 'i', 'n', 's'],
        "body_equals"@ == seq!['b', 'o', 'd', 'y', '_', 'e', 'q', 'u', 'a', 'l', 's'],
        "json_equals"@ == seq!['j', 's', 'o', 'n', '_', 'e', 'q', 'u', 'a', 'l', 's'],
        "json_exists"@ == seq!['j', 's', 'o', 'n', '_', 'e', 'x', 'i', 's', 't', 's'],
        "duration_lt"@ == seq!['d', 'u', 'r', 'a', 't', 'i', 'o', 'n', '_', 'l', 't'],
{
    reveal_strlit("status_equals");
    reveal_strlit("header_equals");
    reveal_strlit("header_contains");
    reveal_strlit("body_contains");
    reveal_strlit("body_equals");
    reveal_strlit("json_equals");
    reveal_strlit("json_exists");
    reveal_strlit("duration_lt");
}

/// `body_contains:x` is read as a `body_contains` of the text `x`.
pub proof fn law_parse_body_contains(x: Seq<char>, r: Result<ParsedValidation, String>)
    requires
        parse_validation_spec("body_contains"@ + seq![':'] + x, r),
    ensures
        r matches Ok(ParsedValidation::Ready(Validation::BodyContains { name, expected })) && name@
            == "body_contains"@ + seq![':'] + x && expected@ == x,
{
    reveal_kind_words();
    lemma_kind_split("body_contains"@, x);
}

/// `body_equals:x` is read as a `body_equals` of the text `x`.
pub proof fn law_parse_body_equals(x: Seq<char>, r: Result<ParsedValidation, String>)
    requires
        parse_validation_spec("body_equals"@ + seq![':'] + x, r),
    ensures
        r matches Ok(ParsedValidation::Ready(Validation::BodyEquals { name, expected })) && name@
            == "body_equals"@ + seq![':'] + x && expected@ == x,
{
    reveal_kind_words();
    lemma_kind_split("body_equals"@, x);
}

/// `json_exists:p` is read as a `json_exists` of the path `p`.
pub proof fn law_parse_json_exists(x: Seq<char>, r: Result<ParsedValidation, String>)
    requires
        parse_validation_spec("json_exists"@ + seq![':'] + x, r),
    ensures
        r matches Ok(ParsedValidation::Ready(Validation::JsonExists { name, path })) && name@
            == "json_exists"@ + seq![':'] + x && path@ == x,
{
    reveal_kind_words();
    lemma_kind_split("json_exists"@, x);
}

/// `header_equals:h:e` and `header_contains:h:e`, for a header name `h`
/// without `:`, are read as that kind of check of header `h` against `e`.
pub proof fn law_parse_header_checks(h: Seq<char>, e: Seq<char>, r1: Result<ParsedValidation, String>, r2: Result<ParsedValidation, String>)
    requires
        forall|k: int| 0 <= k < h.len() ==> h[k] != ':',
        parse_validation_spec("header_equals"@ + seq![':'] + (h + seq![':'] + e), r1),
        parse_validation_spec("header_contains"@ + seq![':'] + (h + seq![':'] + e), r2),
    ensures
        r1 matches Ok(ParsedValidation::Ready(Validation::HeaderEquals { header, expected, .. }))
            && header@ == h && expected@ == e,
        r2 matches Ok(ParsedValidation::Ready(Validation::HeaderContains { header, expected, .. }))
            && header@ == h && expected@ == e,
{
    reveal_kind_words();
    lemma_kind_split("header_equals"@, h + seq![':'] + e);
    lemma_kind_split("header_contains"@, h + seq![':'] + e);
    lemma_kind_split(h, e);
}

/// `status_equals:n` with `n` a valid status is read as a `status_equals` of `n`.
pub proof fn law_parse_status_equals(x: Seq<char>, r: Result<ParsedValidation, String>)
    requires
        parse_validation_spec("status_equals"@ + seq![':'] + x, r),
        parse_unsigned_spec(x, u16::MAX as nat) is Some,
    ensures
        r matches Ok(ParsedValidation::Ready(Validation::StatusEquals { expected, .. }))
            && Some(expected as nat) == parse_unsigned_spec(x, u16::MAX as nat),
{
    reveal_kind_words();
    lemma_kind_split("status_equals"@, x);
}

/// `duration_lt:n` with `n` a valid number is read as a `duration_lt` of `n` ms.
pub proof fn law_parse_duration_lt(x: Seq<char>, r: Result<ParsedValidation, String>)
    requires
        parse_validation_spec("duration_lt"@ + seq![':'] + x, r),
        parse_unsigned_spec(x, u64::MAX as nat) is Some,
    ensures
        r matches Ok(ParsedValidation::Ready(Validation::DurationLt { max_ms, .. }))
            && Some(max_ms as nat) == parse_unsigned_spec(x, u64::MAX as nat),
{
    reveal_kind_words();
    lemma_kind_split("duration_lt"@, x);
}

/// `json_equals:p:v`, for a path `p` without `:`, is read as a `json_equals`
/// at `p` whose expected value is read from `v`.
pub proof fn law_parse_json_equals(p: Seq<char>, v: Seq<char>, r: Result<ParsedValidation, String>)
    requires
        forall|k: int| 0 <= k < p.len() ==> p[k] != ':',
        parse_validation_spec("json_equals"@ + seq![':'] + (p + seq![':'] + v), r),
    ensures
        r matches Ok(ParsedValidation::JsonEquals { path, raw, .. }) && path@ == p && raw@ == v,
{
    reveal_kind_words();
    lemma_kind_split("json_equals"@, p + seq![':'] + v);
    lemma_kind_split(p, v);
}

/// A `--validate` text without `:` is refused with the format message.
pub proof fn law_parse_validation_needs_colon(s: Seq<char>, r: Result<ParsedValidation, String>)
    requires
        forall|i: int| 0 <= i < s.len() ==> s[i] != ':',
        parse_validation_spec(s, r),
    ensures
        r matches Err(e) && e@ == "formato: `tipo:campo:esperado`"@,
{
    lemma_no_sep(s, ':');
}

} // verus!
