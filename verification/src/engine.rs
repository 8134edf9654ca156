//! From a request to what is sent over HTTP, and from what came back to a
//! response with its validations evaluated.
use vstd::prelude::*;

use crate::model::{Body, Json, KeyValue, Request, Response};
use crate::storage::opt_view;
use crate::text::push_str;
use crate::validation::{evaluation, run};
use crate::model::validation_name;

verus! {

/// A `tchar` of RFC 9110: the characters an HTTP method may hold.
pub open spec fn is_tchar(c: char) -> bool {
    ('0' <= c && c <= '9') || ('a' <= c && c <= 'z') || ('A' <= c && c <= 'Z') || c == '!' || c
        == '#' || c == '$' || c == '%' || c == '&' || c == '\'' || c == '*' || c == '+' || c == '-'
        || c == '.' || c == '^' || c == '_' || c == '`' || c == '|' || c == '~'
}

/// A method token: one or more `tchar`s.
pub open spec fn is_method_token(m: Seq<char>) -> bool {
    m.len() > 0 && forall|i: int| 0 <= i < m.len() ==> is_tchar(#[trigger] m[i])
}

/// `reqwest::Method::from_bytes` on the UTF-8 bytes of `m`: it accepts
/// exactly the non-empty byte strings made of `tchar`s (a character outside
/// ASCII has no byte that is one).
#[verifier::external_body]
fn method_is_valid(m: &str) -> (r: bool)
    ensures
        r == is_method_token(m@),
{
    reqwest::Method::from_bytes(m.as_bytes()).is_ok()
}

/// What `url::Url::parse` gives for a text, serialized; `None` when it
/// rejects the text.
pub uninterp spec fn url_parsed(s: Seq<char>) -> Option<Seq<char>>;

/// The serialization of the URL parsed from `s` after appending `pairs` to
/// its query, form-encoded; `None` when `s` does not parse.
pub uninterp spec fn url_with_query(s: Seq<char>, pairs: Seq<(Seq<char>, Seq<char>)>) -> Option<Seq<char>>;

/// `reqwest::Url::parse`, the URL given back as text.
#[verifier::external_body]
fn parse_url(s: &str) -> (r: Option<String>)
    ensures
        opt_view(r) == url_parsed(s@),
{
    reqwest::Url::parse(s).ok().map(|u| u.to_string())
}

pub open spec fn pairs_view(v: Seq<(String, String)>) -> Seq<(Seq<char>, Seq<char>)> {
    v.map_values(|p: (String, String)| (p.0@, p.1@))
}

pub open spec fn pairs_len(p: Seq<(Seq<char>, Seq<char>)>) -> nat
    decreases p.len(),
{
    if p.len() == 0 {
        0
    } else {
        pairs_len(p.drop_last()) + p.last().0.len() + p.last().1.len() + 1
    }
}

/// Bound under which the offsets of a URL, which `url` keeps as `u32`, cannot
/// overflow: a character takes at most twelve bytes once percent-encoded,
/// and a pair adds at most two separators.
pub open spec fn url_room(s: Seq<char>, pairs: Seq<(Seq<char>, Seq<char>)>) -> bool {
    s.len() + pairs_len(pairs) < 0x1000_0000
}

/// `reqwest::Url::parse`, then the pairs appended to the query with
/// `query_pairs_mut().extend_pairs`; the URL given back as text. Appending
/// cannot fail, so the result is `None` exactly when the parse fails.
#[verifier::external_body]
fn parse_url_with_pairs(s: &str, pairs: &Vec<(String, String)>) -> (r: Option<String>)
    requires
        url_room(s@, pairs_view(pairs@)),
    ensures
        opt_view(r) == url_with_query(s@, pairs_view(pairs@)),
        r is None <==> url_parsed(s@) is None,
{
    let mut url = reqwest::Url::parse(s).ok()?;
    url.query_pairs_mut().extend_pairs(pairs.iter());
    Some(url.to_string())
}

/// The enabled pairs, in order.
pub open spec fn enabled_pairs(kvs: Seq<KeyValue>) -> Seq<(Seq<char>, Seq<char>)>
    decreases kvs.len(),
{
    if kvs.len() == 0 {
        Seq::empty()
    } else {
        let rest = enabled_pairs(kvs.drop_last());
        if kvs.last().enabled {
            rest.push((kvs.last().key@, kvs.last().value@))
        } else {
            rest
        }
    }
}

proof fn lemma_enabled_pairs_len(kvs: Seq<KeyValue>)
    ensures
        pairs_len(enabled_pairs(kvs)) <= kv_text_len(kvs),
    decreases kvs.len(),
{
    if kvs.len() > 0 {
        lemma_enabled_pairs_len(kvs.drop_last());
        let rest = enabled_pairs(kvs.drop_last());
        let x = (kvs.last().key@, kvs.last().value@);
        assert(rest.push(x).drop_last() =~= rest);
    }
}

/// Total length of the keys and values, counting one more per pair for its separators.
pub open spec fn kv_text_len(kvs: Seq<KeyValue>) -> nat
    decreases kvs.len(),
{
    if kvs.len() == 0 {
        0
    } else {
        kv_text_len(kvs.drop_last()) + kvs.last().key@.len() + kvs.last().value@.len() + 1
    }
}

/// Whether the URL and the query of `req` leave `url` room for its offsets
/// (what [`plan_request`] requires).
pub fn fits_url_room(req: &Request) -> (r: bool)
    ensures
        r == (req.url@.len() + kv_text_len(req.query@) < 0x1000_0000),
{
    let bound: usize = 0x1000_0000;
    let u = req.url.as_str().unicode_len();
    if u >= bound {
        return false;
    }
    let mut acc: usize = u;
    let mut i: usize = 0;
    while i < req.query.len()
        invariant
            i <= req.query@.len(),
            bound == 0x1000_0000,
            acc < bound,
            acc == req.url@.len() + kv_text_len(req.query@.take(i as int)),
        decreases req.query.len() - i,
    {
        assert(req.query@.take(i + 1).drop_last() =~= req.query@.take(i as int));
        let k = req.query[i].key.as_str().unicode_len();
        let v = req.query[i].value.as_str().unicode_len();
        if k >= bound - acc || v >= bound - acc - k || 1 >= bound - acc - k - v {
            proof {
                lemma_kv_text_len_prefix(req.query@, i as int + 1);
                let t = req.query@.take(i + 1);
                assert(kv_text_len(t) == kv_text_len(t.drop_last()) + t.last().key@.len()
                    + t.last().value@.len() + 1);
                assert(t.last() == req.query@[i as int]);
            }
            return false;
        }
        acc = acc + k + v + 1;
        i = i + 1;
    }
    assert(req.query@.take(i as int) =~= req.query@);
    true
}

proof fn lemma_kv_text_len_prefix(kvs: Seq<KeyValue>, i: int)
    requires
        0 <= i <= kvs.len(),
    ensures
        kv_text_len(kvs.take(i)) <= kv_text_len(kvs),
    decreases kvs.len() - i,
{
    if i < kvs.len() {
        lemma_kv_text_len_prefix(kvs, i + 1);
        assert(kvs.take(i + 1).drop_last() =~= kvs.take(i));
    } else {
        assert(kvs.take(i) =~= kvs);
    }
}

fn enabled(kvs: &Vec<KeyValue>) -> (r: Vec<(String, String)>)
    ensures
        pairs_view(r@) == enabled_pairs(kvs@),
{
    let mut r: Vec<(String, String)> = Vec::new();
    let mut i: usize = 0;
    while i < kvs.len()
        invariant
            i <= kvs@.len(),
            pairs_view(r@) == enabled_pairs(kvs@.take(i as int)),
        decreases kvs.len() - i,
    {
        assert(kvs@.take(i + 1).drop_last() =~= kvs@.take(i as int));
        if kvs[i].enabled {
            r.push((kvs[i].key.clone(), kvs[i].value.clone()));
            assert(pairs_view(r@) =~= enabled_pairs(kvs@.take(i as int)).push(
                (kvs@[i as int].key@, kvs@[i as int].value@),
            ));
        }
        i = i + 1;
    }
    assert(kvs@.take(kvs@.len() as int) =~= kvs@);
    r
}

/// The body that goes over the wire.
#[derive(Debug)]
pub enum PlannedBody {
    Empty,
    Raw(String),
    /// Form fields, sent `application/x-www-form-urlencoded`.
    Form(Vec<(String, String)>),
}

/// Everything needed to send a request.
#[derive(Debug)]
pub struct HttpPlan {
    pub method: String,
    pub url: String,
    pub headers: Vec<(String, String)>,
    pub body: PlannedBody,
    pub timeout_secs: u64,
    pub follow_redirects: bool,
}

pub open spec fn bad_method_msg(m: Seq<char>) -> Seq<char> {
    "verbo HTTP inválido: "@ + m
}

pub open spec fn bad_url_msg(u: Seq<char>) -> Seq<char> {
    "URL inválida: "@ + u
}

/// The URL that is sent: the request's URL with its enabled query pairs.
pub open spec fn target_url(r: Request) -> Option<Seq<char>> {
    if enabled_pairs(r.query@).len() == 0 {
        url_parsed(r.url@)
    } else {
        url_with_query(r.url@, enabled_pairs(r.query@))
    }
}

pub open spec fn planned_body_of(b: Body, p: PlannedBody) -> bool {
    match b {
        Body::Empty => p is Empty,
        Body::Raw { content } => p matches PlannedBody::Raw(c) && c@ == content@,
        Body::UrlEncoded { fields } => p matches PlannedBody::Form(f) && pairs_view(f@)
            == enabled_pairs(fields@),
    }
}

/// What is sent for a request: its method when it is a valid token, its URL
/// when it parses (with the enabled query pairs appended), the enabled
/// headers and form fields, its timeout and redirect policy.
pub fn plan_request(req: &Request) -> (r: Result<HttpPlan, String>)
    requires
        req.url@.len() + kv_text_len(req.query@) < 0x1000_0000,
    ensures
        !is_method_token(req.method@) ==> (r matches Err(e) && e@ == bad_method_msg(req.method@)),
        is_method_token(req.method@) && target_url(*req) is None ==> (r matches Err(e) && e@
            == bad_url_msg(req.url@)),
        is_method_token(req.method@) && target_url(*req) is Some ==> (r matches Ok(p) && {
            &&& p.method@ == req.method@
            &&& Some(p.url@) == target_url(*req)
            &&& pairs_view(p.headers@) == enabled_pairs(req.headers@)
            &&& planned_body_of(req.body, p.body)
            &&& p.timeout_secs == req.timeout_secs
            &&& p.follow_redirects == req.follow_redirects
        }),
{
    if !method_is_valid(req.method.as_str()) {
        let mut e = String::new();
        push_str(&mut e, "verbo HTTP inválido: ");
        push_str(&mut e, req.method.as_str());
        return Err(e);
    }
    let query = enabled(&req.query);
    proof {
        lemma_enabled_pairs_len(req.query@);
    }
    let url = if query.len() == 0 {
        parse_url(req.url.as_str())
    } else {
        parse_url_with_pairs(req.url.as_str(), &query)
    };
    let url = match url {
        Some(u) => u,
        None => {
            let mut e = String::new();
            push_str(&mut e, "URL inválida: ");
            push_str(&mut e, req.url.as_str());
            return Err(e);
        },
    };
    let body = match &req.body {
        Body::Empty => PlannedBody::Empty,
        Body::Raw { content } => PlannedBody::Raw(content.clone()),
        Body::UrlEncoded { fields } => PlannedBody::Form(enabled(fields)),
    };
    Ok(
        HttpPlan {
            method: req.method.clone(),
            url,
            headers: enabled(&req.headers),
            body,
            timeout_secs: req.timeout_secs,
            follow_redirects: req.follow_redirects,
        },
    )
}

/// What came back for a sent request.
#[derive(Debug)]
pub struct Received {
    pub status: u16,
    pub status_text: String,
    pub http_version: String,
    pub headers: Vec<(String, String)>,
    pub body: Option<String>,
    pub duration_ms: u128,
    pub url: String,
}

/// The response to `req`, with the request's validations evaluated against
/// it; `body_json` is its body parsed as JSON (`None` when it is not JSON).
pub fn complete_response(req: &Request, received: Received, body_json: &Option<Json>) -> (r: Response)
    ensures
        r.status == received.status,
        r.status_text == received.status_text,
        r.http_version == received.http_version,
        r.headers == received.headers,
        r.body == received.body,
        r.duration_ms == received.duration_ms,
        r.url == received.url,
        r.validation_results@.len() == req.validations@.len(),
        forall|i: int|
            0 <= i < r.validation_results@.len() ==> (#[trigger] r.validation_results@[i]).name@
                == validation_name(req.validations@[i]) && (
                r.validation_results@[i].passed,
                r.validation_results@[i].detail@,
            ) == evaluation(req.validations@[i], r, *body_json),
{
    let mut response = Response {
        status: received.status,
        status_text: received.status_text,
        http_version: received.http_version,
        headers: received.headers,
        body: received.body,
        duration_ms: received.duration_ms,
        url: received.url,
        validation_results: Vec::new(),
    };
    let results = run(&req.validations, &response, body_json);
    let ghost before = response;
    response.validation_results = results;
    proof {
        assert forall|i: int| 0 <= i < req.validations@.len() implies evaluation(
            req.validations@[i],
            response,
            *body_json,
        ) == evaluation(req.validations@[i], before, *body_json) by {
            lemma_evaluation_ignores_results(req.validations@[i], before, response, *body_json);
        }
    }
    response
}

/// Evaluating a validation does not look at the results already recorded.
proof fn lemma_evaluation_ignores_results(
    v: crate::model::Validation,
    a: Response,
    b: Response,
    j: Option<Json>,
)
    requires
        a.status == b.status,
        a.headers == b.headers,
        a.body == b.body,
        a.duration_ms == b.duration_ms,
    ensures
        evaluation(v, a, j) == evaluation(v, b, j),
{
}

/// Only enabled pairs are sent, in their order: every pair sent is an
/// enabled pair of the list, and when all pairs are enabled all of them are sent.
pub proof fn law_only_enabled_pairs_are_sent(kvs: Seq<KeyValue>)
    ensures
        enabled_pairs(kvs).len() <= kvs.len(),
        forall|j: int|
            0 <= j < enabled_pairs(kvs).len() ==> exists|i: int|
                0 <= i < kvs.len() && (#[trigger] kvs[i]).enabled && (kvs[i].key@, kvs[i].value@)
                    == #[trigger] enabled_pairs(kvs)[j],
        (forall|i: int| 0 <= i < kvs.len() ==> (#[trigger] kvs[i]).enabled) ==> enabled_pairs(kvs)
            == kvs.map_values(|kv: KeyValue| (kv.key@, kv.value@)),
    decreases kvs.len(),
{
    if kvs.len() > 0 {
        let init = kvs.drop_last();
        law_only_enabled_pairs_are_sent(init);
        let rest = enabled_pairs(init);
        assert forall|j: int| 0 <= j < enabled_pairs(kvs).len() implies exists|i: int|
            0 <= i < kvs.len() && (#[trigger] kvs[i]).enabled && (kvs[i].key@, kvs[i].value@)
                == #[trigger] enabled_pairs(kvs)[j] by {
            if j < rest.len() {
                let i = choose|i: int|
                    0 <= i < init.len() && (#[trigger] init[i]).enabled && (init[i].key@, init[i].value@)
                        == #[trigger] enabled_pairs(init)[j];
                assert(kvs[i] == init[i]);
            } else {
                assert(kvs[kvs.len() - 1] == kvs.last());
            }
        }
        if forall|i: int| 0 <= i < kvs.len() ==> (#[trigger] kvs[i]).enabled {
            assert forall|i: int| 0 <= i < init.len() implies (#[trigger] init[i]).enabled by {
                assert(init[i] == kvs[i]);
            }
            assert(kvs[kvs.len() - 1].enabled);
            assert(enabled_pairs(kvs) =~= kvs.map_values(|kv: KeyValue| (kv.key@, kv.value@)));
        }
    }
}

} // verus!
