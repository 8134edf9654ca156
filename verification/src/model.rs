//! Domain model: requests, collections, responses, declarative validations,
//! load tests and their reports.
use vstd::prelude::*;

verus! {

// ---------------------------------------------------------------------------
// Requests
// ---------------------------------------------------------------------------

/// A key/value pair of a query, a header list or a form body.
#[derive(Debug, Clone)]
pub struct KeyValue {
    pub key: String,
    pub value: String,
    pub enabled: bool,
}

/// Body of a request.
#[derive(Debug, Clone)]
pub enum Body {
    Empty,
    Raw { content: String },
    UrlEncoded { fields: Vec<KeyValue> },
}

/// An HTTP request as stored in a collection.
#[derive(Debug, Clone)]
pub struct Request {
    pub id: Option<String>,
    pub name: String,
    pub method: String,
    pub url: String,
    pub query: Vec<KeyValue>,
    pub headers: Vec<KeyValue>,
    pub body: Body,
    pub timeout_secs: u64,
    pub follow_redirects: bool,
    pub validations: Vec<Validation>,
}

/// A named group of requests and load tests.
#[derive(Debug, Clone)]
pub struct Collection {
    pub name: String,
    pub version: String,
    pub requests: Vec<Request>,
    pub tests: Vec<LoadTest>,
}

/// Summary of a stored collection, for listings.
#[derive(Debug, Clone)]
pub struct CollectionSummary {
    pub name: String,
    pub size: u64,
}

// ---------------------------------------------------------------------------
// JSON values
// ---------------------------------------------------------------------------

/// Shape of a JSON value. Numbers keep their canonical text; object members
/// are kept in key order, as `serde_json`'s map iterates them.
#[derive(Debug)]
pub enum JsonKind {
    Null,
    Bool(bool),
    Number(String),
    Str(String),
    Array(Vec<Json>),
    Object(Vec<(String, Json)>),
}

/// A JSON value together with its compact rendering (`serde_json`'s `Display`).
#[derive(Debug)]
pub struct Json {
    pub kind: JsonKind,
    pub text: String,
}

// ---------------------------------------------------------------------------
// Validations and responses
// ---------------------------------------------------------------------------

/// A declarative check evaluated against a response.
#[derive(Debug, Clone)]
pub enum Validation {
    StatusEquals { name: String, expected: u16 },
    HeaderEquals { name: String, header: String, expected: String },
    HeaderContains { name: String, header: String, expected: String },
    BodyContains { name: String, expected: String },
    BodyEquals { name: String, expected: String },
    JsonEquals { name: String, path: String, expected: Json },
    JsonExists { name: String, path: String },
    DurationLt { name: String, max_ms: u64 },
}

/// Outcome of one validation.
#[derive(Debug, Clone)]
pub struct ValidationResult {
    pub name: String,
    pub passed: bool,
    pub detail: String,
}

/// A received HTTP response.
#[derive(Debug, Clone)]
pub struct Response {
    pub status: u16,
    pub status_text: String,
    pub http_version: String,
    pub headers: Vec<(String, String)>,
    pub body: Option<String>,
    pub duration_ms: u128,
    pub url: String,
    pub validation_results: Vec<ValidationResult>,
}

// ---------------------------------------------------------------------------
// Load tests
// ---------------------------------------------------------------------------

/// A load test: a flow of requests run `iterations` times in sequence.
#[derive(Debug, Clone)]
pub struct LoadTest {
    pub name: String,
    /// Requests of the flow, in order; empty means every request of the collection.
    pub request_names: Vec<String>,
    pub iterations: u64,
    /// Pause between requests, in milliseconds.
    pub delay_ms: u64,
    pub csv: Option<CsvSource>,
}

/// Where the data rows of a load test come from.
#[derive(Debug, Clone)]
pub enum CsvSource {
    Path { path: String },
}

/// Final report of a load test run.
#[derive(Debug, Clone)]
pub struct LoadTestReport {
    pub test_name: String,
    pub duration_ms: u128,
    pub total_requests: u64,
    pub success: u64,
    pub failed: u64,
    pub avg_ms: u128,
    pub p95_ms: u128,
    pub per_request: Vec<RequestSummary>,
    /// First network errors met (at most twenty).
    pub errors: Vec<String>,
}

/// Counts for one request name.
#[derive(Debug, Clone)]
pub struct RequestSummary {
    pub name: String,
    pub total: u64,
    pub success: u64,
    pub failed: u64,
}

/// One execution of one request (one request in one iteration).
#[derive(Debug, Clone)]
pub struct RunEvent {
    pub request: String,
    pub iteration: u64,
    pub csv_row: Option<u64>,
    pub method: String,
    pub url: String,
    pub status: Option<u16>,
    pub ok: bool,
    pub duration_ms: u128,
    pub error: Option<String>,
}

/// Live progress of a run.
#[derive(Debug, Clone)]
pub struct RunProgress {
    pub done: u64,
    pub total: u64,
    pub current_request: Option<String>,
    pub per_request: Vec<RequestSummary>,
    pub last_event: Option<RunEvent>,
}

// ---------------------------------------------------------------------------
// Defaults
// ---------------------------------------------------------------------------

/// Default of `KeyValue::enabled` when absent.
pub fn default_true() -> (r: bool)
    ensures
        r,
{
    true
}

/// Default request timeout, in seconds.
pub fn default_timeout() -> (r: u64)
    ensures
        r == 30,
{
    30
}

/// Redirects are followed unless said otherwise.
pub fn default_follow_redirects() -> (r: bool)
    ensures
        r,
{
    true
}

/// A load test runs its flow once unless said otherwise.
pub fn default_iterations() -> (r: u64)
    ensures
        r == 1,
{
    1
}

impl Default for Body {
    fn default() -> (r: Body)
        ensures
            r is Empty,
    {
        Body::Empty
    }
}

impl KeyValue {
    /// An enabled pair.
    pub fn new(key: &str, value: &str) -> (r: KeyValue)
        ensures
            r.key@ == key@,
            r.value@ == value@,
            r.enabled,
    {
        KeyValue { key: key.to_string(), value: value.to_string(), enabled: true }
    }
}

// ---------------------------------------------------------------------------
// Equality of values by their contents
// ---------------------------------------------------------------------------

pub open spec fn kv_same(a: KeyValue, b: KeyValue) -> bool {
    a.key@ == b.key@ && a.value@ == b.value@ && a.enabled == b.enabled
}

pub open spec fn kvs_same(a: Seq<KeyValue>, b: Seq<KeyValue>) -> bool {
    a.len() == b.len() && forall|i: int| 0 <= i < a.len() ==> kv_same(#[trigger] a[i], b[i])
}

pub open spec fn opt_str_same(a: Option<String>, b: Option<String>) -> bool {
    match a {
        Some(x) => b matches Some(y) && x@ == y@,
        None => b is None,
    }
}

pub open spec fn body_same(a: Body, b: Body) -> bool {
    match a {
        Body::Empty => b is Empty,
        Body::Raw { content } => b matches Body::Raw { content: c } && content@ == c@,
        Body::UrlEncoded { fields } => b matches Body::UrlEncoded { fields: f } && kvs_same(
            fields@,
            f@,
        ),
    }
}

/// Two JSON values with the same shape, contents and rendering.
pub open spec fn json_same(a: Json, b: Json) -> bool
    decreases a,
{
    a.text@ == b.text@ && match a.kind {
        JsonKind::Null => b.kind is Null,
        JsonKind::Bool(x) => b.kind matches JsonKind::Bool(y) && x == y,
        JsonKind::Number(x) => b.kind matches JsonKind::Number(y) && x@ == y@,
        JsonKind::Str(x) => b.kind matches JsonKind::Str(y) && x@ == y@,
        JsonKind::Array(xs) => b.kind matches JsonKind::Array(ys) && xs@.len() == ys@.len()
            && forall|i: int| 0 <= i < xs@.len() ==> json_same(#[trigger] xs@[i], ys@[i]),
        JsonKind::Object(xs) => b.kind matches JsonKind::Object(ys) && xs@.len() == ys@.len()
            && forall|i: int|
            0 <= i < xs@.len() ==> (#[trigger] xs@[i]).0@ == ys@[i].0@ && json_same(
                xs@[i].1,
                ys@[i].1,
            ),
    }
}

pub open spec fn validation_same(a: Validation, b: Validation) -> bool {
    match a {
        Validation::StatusEquals { name, expected } => b matches Validation::StatusEquals {
            name: n,
            expected: e,
        } && name@ == n@ && expected == e,
        Validation::HeaderEquals { name, header, expected } => b matches Validation::HeaderEquals {
            name: n,
            header: h,
            expected: e,
        } && name@ == n@ && header@ == h@ && expected@ == e@,
        Validation::HeaderContains { name, header, expected } =>
            b matches Validation::HeaderContains { name: n, header: h, expected: e } && name@
                == n@ && header@ == h@ && expected@ == e@,
        Validation::BodyContains { name, expected } => b matches Validation::BodyContains {
            name: n,
            expected: e,
        } && name@ == n@ && expected@ == e@,
        Validation::BodyEquals { name, expected } => b matches Validation::BodyEquals {
            name: n,
            expected: e,
        } && name@ == n@ && expected@ == e@,
        Validation::JsonEquals { name, path, expected } => b matches Validation::JsonEquals {
            name: n,
            path: p,
            expected: e,
        } && name@ == n@ && path@ == p@ && json_same(expected, e),
        Validation::JsonExists { name, path } => b matches Validation::JsonExists {
            name: n,
            path: p,
        } && name@ == n@ && path@ == p@,
        Validation::DurationLt { name, max_ms } => b matches Validation::DurationLt {
            name: n,
            max_ms: m,
        } && name@ == n@ && max_ms == m,
    }
}

pub open spec fn validations_same(a: Seq<Validation>, b: Seq<Validation>) -> bool {
    a.len() == b.len() && forall|i: int|
        0 <= i < a.len() ==> validation_same(#[trigger] a[i], b[i])
}

/// The declared name of a validation.
pub open spec fn validation_name(v: Validation) -> Seq<char> {
    match v {
        Validation::StatusEquals { name, .. } => name@,
        Validation::HeaderEquals { name, .. } => name@,
        Validation::HeaderContains { name, .. } => name@,
        Validation::BodyContains { name, .. } => name@,
        Validation::BodyEquals { name, .. } => name@,
        Validation::JsonEquals { name, .. } => name@,
        Validation::JsonExists { name, .. } => name@,
        Validation::DurationLt { name, .. } => name@,
    }
}

// ---------------------------------------------------------------------------
// Copies with stated contents
// ---------------------------------------------------------------------------

pub fn copy_opt_string(s: &Option<String>) -> (r: Option<String>)
    ensures
        opt_str_same(r, *s),
{
    match s {
        Some(x) => Some(x.clone()),
        None => None,
    }
}

impl KeyValue {
    /// A copy of this pair.
    pub fn copy(&self) -> (r: KeyValue)
        ensures
            kv_same(r, *self),
    {
        KeyValue { key: self.key.clone(), value: self.value.clone(), enabled: self.enabled }
    }
}

pub fn copy_kvs(v: &Vec<KeyValue>) -> (r: Vec<KeyValue>)
    ensures
        kvs_same(r@, v@),
{
    let mut r: Vec<KeyValue> = Vec::new();
    let mut i: usize = 0;
    while i < v.len()
        invariant
            i <= v.len(),
            r@.len() == i,
            forall|k: int| 0 <= k < i ==> kv_same(#[trigger] r@[k], v@[k]),
        decreases v.len() - i,
    {
        r.push(v[i].copy());
        i = i + 1;
    }
    r
}

impl Json {
    /// A copy of this value.
    pub fn copy(&self) -> (r: Json)
        ensures
            json_same(r, *self),
            json_same(*self, r),
        decreases self,
    {
        let kind = match &self.kind {
            JsonKind::Null => JsonKind::Null,
            JsonKind::Bool(b) => JsonKind::Bool(*b),
            JsonKind::Number(n) => JsonKind::Number(n.clone()),
            JsonKind::Str(s) => JsonKind::Str(s.clone()),
            JsonKind::Array(xs) => {
                let mut ys: Vec<Json> = Vec::new();
                let mut i: usize = 0;
                while i < xs.len()
                    invariant
                        i <= xs.len(),
                        ys@.len() == i,
                        self.kind == JsonKind::Array(*xs),
                        forall|k: int|
                            0 <= k < i ==> json_same(#[trigger] ys@[k], xs@[k]) && json_same(
                                xs@[k],
                                ys@[k],
                            ),
                    decreases xs.len() - i,
                {
                    proof {
                        assert(decreases_to!(*self => self.kind));
                        assert(decreases_to!(self.kind => self.kind->Array_0));
                        assert(decreases_to!(self.kind->Array_0 => self.kind->Array_0@));
                        assert(decreases_to!(xs@ => xs@[i as int]));
                    }
                    ys.push(xs[i].copy());
                    i = i + 1;
                }
                JsonKind::Array(ys)
            },
            JsonKind::Object(xs) => {
                let mut ys: Vec<(String, Json)> = Vec::new();
                let mut i: usize = 0;
                while i < xs.len()
                    invariant
                        i <= xs.len(),
                        ys@.len() == i,
                        self.kind == JsonKind::Object(*xs),
                        forall|k: int|
                            0 <= k < i ==> (#[trigger] ys@[k]).0@ == xs@[k].0@ && json_same(
                                ys@[k].1,
                                xs@[k].1,
                            ) && json_same(xs@[k].1, ys@[k].1),
                    decreases xs.len() - i,
                {
                    proof {
                        assert(decreases_to!(*self => self.kind));
                        assert(decreases_to!(self.kind => self.kind->Object_0));
                        assert(decreases_to!(self.kind->Object_0 => self.kind->Object_0@));
                        assert(decreases_to!(xs@ => xs@[i as int]));
                        assert(decreases_to!(xs@[i as int] => xs@[i as int].1));
                    }
                    ys.push((xs[i].0.clone(), xs[i].1.copy()));
                    i = i + 1;
                }
                JsonKind::Object(ys)
            },
        };
        Json { kind, text: self.text.clone() }
    }
}

impl Clone for Json {
    fn clone(&self) -> (r: Self)
        ensures
            json_same(r, *self),
    {
        self.copy()
    }
}

impl Validation {
    /// Declared name of the validation (for reports and export).
    pub fn name(&self) -> (r: &str)
        ensures
            r@ == validation_name(*self),
    {
        match self {
            Validation::StatusEquals { name, .. } => name.as_str(),
            Validation::HeaderEquals { name, .. } => name.as_str(),
            Validation::HeaderContains { name, .. } => name.as_str(),
            Validation::BodyContains { name, .. } => name.as_str(),
            Validation::BodyEquals { name, .. } => name.as_str(),
            Validation::JsonEquals { name, .. } => name.as_str(),
            Validation::JsonExists { name, .. } => name.as_str(),
            Validation::DurationLt { name, .. } => name.as_str(),
        }
    }

    /// A copy of this validation.
    pub fn copy(&self) -> (r: Validation)
        ensures
            validation_same(*self, r),
    {
        match self {
            Validation::StatusEquals { name, expected } => Validation::StatusEquals {
                name: name.clone(),
                expected: *expected,
            },
            Validation::HeaderEquals { name, header, expected } => Validation::HeaderEquals {
                name: name.clone(),
                header: header.clone(),
                expected: expected.clone(),
            },
            Validation::HeaderContains { name, header, expected } => Validation::HeaderContains {
                name: name.clone(),
                header: header.clone(),
                expected: expected.clone(),
            },
            Validation::BodyContains { name, expected } => Validation::BodyContains {
                name: name.clone(),
                expected: expected.clone(),
            },
            Validation::BodyEquals { name, expected } => Validation::BodyEquals {
                name: name.clone(),
                expected: expected.clone(),
            },
            Validation::JsonEquals { name, path, expected } => Validation::JsonEquals {
                name: name.clone(),
                path: path.clone(),
                expected: expected.copy(),
            },
            Validation::JsonExists { name, path } => Validation::JsonExists {
                name: name.clone(),
                path: path.clone(),
            },
            Validation::DurationLt { name, max_ms } => Validation::DurationLt {
                name: name.clone(),
                max_ms: *max_ms,
            },
        }
    }
}

pub fn copy_validations(v: &Vec<Validation>) -> (r: Vec<Validation>)
    ensures
        validations_same(v@, r@),
{
    let mut r: Vec<Validation> = Vec::new();
    let mut i: usize = 0;
    while i < v.len()
        invariant
            i <= v.len(),
            r@.len() == i,
            forall|k: int| 0 <= k < i ==> validation_same(#[trigger] v@[k], r@[k]),
        decreases v.len() - i,
    {
        r.push(v[i].copy());
        i = i + 1;
    }
    r
}

pub open spec fn request_same(a: Request, b: Request) -> bool {
    &&& opt_str_same(a.id, b.id)
    &&& a.name@ == b.name@
    &&& a.method@ == b.method@
    &&& a.url@ == b.url@
    &&& kvs_same(a.query@, b.query@)
    &&& kvs_same(a.headers@, b.headers@)
    &&& body_same(a.body, b.body)
    &&& a.timeout_secs == b.timeout_secs
    &&& a.follow_redirects == b.follow_redirects
    &&& validations_same(a.validations@, b.validations@)
}

pub open spec fn csv_source_same(a: Option<CsvSource>, b: Option<CsvSource>) -> bool {
    match a {
        Some(CsvSource::Path { path }) => b matches Some(CsvSource::Path { path: p }) && path@
            == p@,
        None => b is None,
    }
}

pub open spec fn strings_same(a: Seq<String>, b: Seq<String>) -> bool {
    a.len() == b.len() && forall|i: int| 0 <= i < a.len() ==> (#[trigger] a[i])@ == b[i]@
}

pub open spec fn load_test_same(a: LoadTest, b: LoadTest) -> bool {
    &&& a.name@ == b.name@
    &&& strings_same(a.request_names@, b.request_names@)
    &&& a.iterations == b.iterations
    &&& a.delay_ms == b.delay_ms
    &&& csv_source_same(a.csv, b.csv)
}

pub open spec fn collection_same(a: Collection, b: Collection) -> bool {
    &&& a.name@ == b.name@
    &&& a.version@ == b.version@
    &&& a.requests@.len() == b.requests@.len()
    &&& forall|i: int| 0 <= i < a.requests@.len() ==> request_same(#[trigger] a.requests@[i], b.requests@[i])
    &&& a.tests@.len() == b.tests@.len()
    &&& forall|i: int| 0 <= i < a.tests@.len() ==> load_test_same(#[trigger] a.tests@[i], b.tests@[i])
}

pub fn copy_strings(v: &Vec<String>) -> (r: Vec<String>)
    ensures
        strings_same(r@, v@),
{
    let mut r: Vec<String> = Vec::new();
    let mut i: usize = 0;
    while i < v.len()
        invariant
            i <= v.len(),
            r@.len() == i,
            forall|k: int| 0 <= k < i ==> (#[trigger] r@[k])@ == v@[k]@,
        decreases v.len() - i,
    {
        r.push(v[i].clone());
        i = i + 1;
    }
    r
}

impl Body {
    /// A copy of this body.
    pub fn copy(&self) -> (r: Body)
        ensures
            body_same(*self, r),
    {
        match self {
            Body::Empty => Body::Empty,
            Body::Raw { content } => Body::Raw { content: content.clone() },
            Body::UrlEncoded { fields } => {
                let f = copy_kvs(fields);
                assert(kvs_same(fields@, f@));
                Body::UrlEncoded { fields: f }
            },
        }
    }
}

impl Request {
    /// A copy of this request.
    pub fn copy(&self) -> (r: Request)
        ensures
            request_same(r, *self),
            request_same(*self, r),
    {
        let query = copy_kvs(&self.query);
        let headers = copy_kvs(&self.headers);
        let body = self.body.copy();
        let validations = copy_validations(&self.validations);
        let r = Request {
            id: copy_opt_string(&self.id),
            name: self.name.clone(),
            method: self.method.clone(),
            url: self.url.clone(),
            query,
            headers,
            body,
            timeout_secs: self.timeout_secs,
            follow_redirects: self.follow_redirects,
            validations,
        };
        proof {
            lemma_validations_same_symmetric(self.validations@, r.validations@);
        }
        r
    }
}

proof fn lemma_validations_same_symmetric(a: Seq<Validation>, b: Seq<Validation>)
    requires
        validations_same(a, b),
    ensures
        validations_same(b, a),
{
    assert forall|i: int| 0 <= i < b.len() implies validation_same(#[trigger] b[i], a[i]) by {
        assert(validation_same(a[i], b[i]));
        match a[i] {
            Validation::JsonEquals { expected, .. } => {
                let e2 = b[i]->JsonEquals_expected;
                lemma_json_same_symmetric(expected, e2);
            },
            _ => {},
        }
    }
}

pub proof fn lemma_json_same_symmetric(a: Json, b: Json)
    requires
        json_same(a, b),
    ensures
        json_same(b, a),
    decreases a,
{
    match a.kind {
        JsonKind::Array(xs) => {
            let ys = b.kind->Array_0;
            assert forall|i: int| 0 <= i < ys@.len() implies json_same(#[trigger] ys@[i], xs@[i]) by {
                assert(decreases_to!(a => a.kind));
                assert(decreases_to!(a.kind => a.kind->Array_0));
                assert(decreases_to!(a.kind->Array_0 => a.kind->Array_0@));
                assert(decreases_to!(xs@ => xs@[i]));
                lemma_json_same_symmetric(xs@[i], ys@[i]);
            }
        },
        JsonKind::Object(xs) => {
            let ys = b.kind->Object_0;
            assert forall|i: int| 0 <= i < ys@.len() implies (#[trigger] ys@[i]).0@ == xs@[i].0@ && json_same(ys@[i].1, xs@[i].1) by {
                assert(decreases_to!(a => a.kind));
                assert(decreases_to!(a.kind => a.kind->Object_0));
                assert(decreases_to!(a.kind->Object_0 => a.kind->Object_0@));
                assert(decreases_to!(xs@ => xs@[i]));
                assert(decreases_to!(xs@[i] => xs@[i].1));
                lemma_json_same_symmetric(xs@[i].1, ys@[i].1);
            }
        },
        _ => {},
    }
}

impl LoadTest {
    /// A copy of this load test.
    pub fn copy(&self) -> (r: LoadTest)
        ensures
            load_test_same(r, *self),
    {
        LoadTest {
            name: self.name.clone(),
            request_names: copy_strings(&self.request_names),
            iterations: self.iterations,
            delay_ms: self.delay_ms,
            csv: match &self.csv {
                Some(CsvSource::Path { path }) => Some(CsvSource::Path { path: path.clone() }),
                None => None,
            },
        }
    }
}

impl Collection {
    /// A copy of this collection.
    pub fn copy(&self) -> (r: Collection)
        ensures
            collection_same(r, *self),
    {
        let mut requests: Vec<Request> = Vec::new();
        let mut i: usize = 0;
        while i < self.requests.len()
            invariant
                i <= self.requests.len(),
                requests@.len() == i,
                forall|k: int| 0 <= k < i ==> request_same(#[trigger] requests@[k], self.requests@[k]),
            decreases self.requests.len() - i,
        {
            requests.push(self.requests[i].copy());
            i = i + 1;
        }
        let mut tests: Vec<LoadTest> = Vec::new();
        let mut i: usize = 0;
        while i < self.tests.len()
            invariant
                i <= self.tests.len(),
                tests@.len() == i,
                forall|k: int| 0 <= k < i ==> load_test_same(#[trigger] tests@[k], self.tests@[k]),
            decreases self.tests.len() - i,
        {
            tests.push(self.tests[i].copy());
            i = i + 1;
        }
        Collection { name: self.name.clone(), version: self.version.clone(), requests, tests }
    }
}

pub open spec fn summary_same(a: RequestSummary, b: RequestSummary) -> bool {
    a.name@ == b.name@ && a.total == b.total && a.success == b.success && a.failed == b.failed
}

pub open spec fn summaries_same(a: Seq<RequestSummary>, b: Seq<RequestSummary>) -> bool {
    a.len() == b.len() && forall|i: int| 0 <= i < a.len() ==> summary_same(#[trigger] a[i], b[i])
}

pub fn copy_summaries(v: &Vec<RequestSummary>) -> (r: Vec<RequestSummary>)
    ensures
        summaries_same(r@, v@),
{
    let mut r: Vec<RequestSummary> = Vec::new();
    let mut i: usize = 0;
    while i < v.len()
        invariant
            i <= v.len(),
            r@.len() == i,
            forall|k: int| 0 <= k < i ==> summary_same(#[trigger] r@[k], v@[k]),
        decreases v.len() - i,
    {
        let s = &v[i];
        r.push(RequestSummary { name: s.name.clone(), total: s.total, success: s.success, failed: s.failed });
        i = i + 1;
    }
    r
}

pub open spec fn report_same(a: LoadTestReport, b: LoadTestReport) -> bool {
    &&& a.test_name@ == b.test_name@
    &&& a.duration_ms == b.duration_ms
    &&& a.total_requests == b.total_requests
    &&& a.success == b.success
    &&& a.failed == b.failed
    &&& a.avg_ms == b.avg_ms
    &&& a.p95_ms == b.p95_ms
    &&& summaries_same(a.per_request@, b.per_request@)
    &&& strings_same(a.errors@, b.errors@)
}

impl LoadTestReport {
    /// A copy of this report.
    pub fn copy(&self) -> (r: LoadTestReport)
        ensures
            report_same(r, *self),
    {
        LoadTestReport {
            test_name: self.test_name.clone(),
            duration_ms: self.duration_ms,
            total_requests: self.total_requests,
            success: self.success,
            failed: self.failed,
            avg_ms: self.avg_ms,
            p95_ms: self.p95_ms,
            per_request: copy_summaries(&self.per_request),
            errors: copy_strings(&self.errors),
        }
    }
}

pub open spec fn event_same(a: RunEvent, b: RunEvent) -> bool {
    &&& a.request@ == b.request@
    &&& a.iteration == b.iteration
    &&& a.csv_row == b.csv_row
    &&& a.method@ == b.method@
    &&& a.url@ == b.url@
    &&& a.status == b.status
    &&& a.ok == b.ok
    &&& a.duration_ms == b.duration_ms
    &&& opt_str_same(a.error, b.error)
}

impl RunEvent {
    /// A copy of this event.
    pub fn copy(&self) -> (r: RunEvent)
        ensures
            event_same(r, *self),
    {
        RunEvent {
            request: self.request.clone(),
            iteration: self.iteration,
            csv_row: self.csv_row,
            method: self.method.clone(),
            url: self.url.clone(),
            status: self.status,
            ok: self.ok,
            duration_ms: self.duration_ms,
            error: copy_opt_string(&self.error),
        }
    }
}

} // verus!
