//! Evaluation of declarative validations against a response, and the
//! `$.field[index]` paths into JSON bodies.
use vstd::prelude::*;

use crate::model::{validation_name, Json, JsonKind, Response, Validation, ValidationResult};
use crate::text::{
    chars_of, chars_eq, contains_chars, contains_seq, decimal, decimal_string,
    eq_ignore_ascii_case, eq_ignore_ascii_case_spec, find_char, index_of_char,
    push_quoted, push_str, quoted, sub_chars, find_from, matches_at, lemma_find_from_some,
    lemma_find_from_none,
};

verus! {

// ---------------------------------------------------------------------------
// JSON equality
// ---------------------------------------------------------------------------

/// Texts of the two zeros of floating point numbers.
pub open spec fn is_float_zero(t: Seq<char>) -> bool {
    t == seq!['0', '.', '0'] || t == seq!['-', '0', '.', '0']
}

/// Equality of numbers by their canonical texts: the same text, or the two
/// floating point zeros, which compare equal.
pub open spec fn number_eq(a: Seq<char>, b: Seq<char>) -> bool {
    a == b || (is_float_zero(a) && is_float_zero(b))
}

/// Equality of JSON values (their renderings aside).
pub open spec fn json_eq(a: Json, b: Json) -> bool
    decreases a,
{
    match a.kind {
        JsonKind::Null => b.kind is Null,
        JsonKind::Bool(x) => b.kind matches JsonKind::Bool(y) && x == y,
        JsonKind::Number(x) => b.kind matches JsonKind::Number(y) && number_eq(x@, y@),
        JsonKind::Str(x) => b.kind matches JsonKind::Str(y) && x@ == y@,
        JsonKind::Array(xs) => b.kind matches JsonKind::Array(ys) && xs@.len() == ys@.len()
            && forall|i: int| 0 <= i < xs@.len() ==> json_eq(#[trigger] xs@[i], ys@[i]),
        JsonKind::Object(xs) => b.kind matches JsonKind::Object(ys) && xs@.len() == ys@.len()
            && forall|i: int|
            0 <= i < xs@.len() ==> (#[trigger] xs@[i]).0@ == ys@[i].0@ && json_eq(
                xs@[i].1,
                ys@[i].1,
            ),
    }
}

// ---------------------------------------------------------------------------
// Paths
// ---------------------------------------------------------------------------

/// Index of the first member named `k`, at or after `i`.
pub open spec fn member_index(xs: Seq<(String, Json)>, k: Seq<char>, i: int) -> Option<int>
    decreases xs.len() - i,
{
    if i < 0 || i >= xs.len() {
        None
    } else if xs[i].0@ == k {
        Some(i)
    } else {
        member_index(xs, k, i + 1)
    }
}

/// Member `k` of an object.
pub open spec fn json_get_key(j: Json, k: Seq<char>) -> Option<Json> {
    match j.kind {
        JsonKind::Object(xs) => match member_index(xs@, k, 0) {
            Some(i) => Some(xs@[i].1),
            None => None,
        },
        _ => None,
    }
}

/// Element `n` of an array.
pub open spec fn json_get_index(j: Json, n: nat) -> Option<Json> {
    match j.kind {
        JsonKind::Array(xs) => if n < xs@.len() {
            Some(xs@[n as int])
        } else {
            None
        },
        _ => None,
    }
}

/// Index of the first `.` or `[` at or after `i`.
pub open spec fn separator_index(s: Seq<char>, i: int) -> Option<int>
    decreases s.len() - i,
{
    if i < 0 || i >= s.len() {
        None
    } else if s[i] == '.' || s[i] == '[' {
        Some(i)
    } else {
        separator_index(s, i + 1)
    }
}

pub open spec fn is_digit(c: char) -> bool {
    '0' <= c && c <= '9'
}

/// Value of a sequence of decimal digits.
pub open spec fn digits_value(s: Seq<char>) -> nat
    decreases s.len(),
{
    if s.len() == 0 {
        0
    } else {
        digits_value(s.drop_last()) * 10 + ((s.last() as u32) - 48) as nat
    }
}

/// The digits part of an unsigned number: the text after an optional `+`.
pub open spec fn unsigned_digits(s: Seq<char>) -> Seq<char> {
    if s.len() > 0 && s[0] == '+' {
        s.skip(1)
    } else {
        s
    }
}

pub open spec fn all_digits(d: Seq<char>) -> bool {
    forall|i: int| 0 <= i < d.len() ==> is_digit(#[trigger] d[i])
}

/// What `str::parse` of an unsigned integer type accepts: an optional `+`,
/// then one or more decimal digits whose value is at most `max`.
pub open spec fn parse_unsigned_spec(s: Seq<char>, max: nat) -> Option<nat> {
    let d = unsigned_digits(s);
    if d.len() > 0 && all_digits(d) && digits_value(d) <= max {
        Some(digits_value(d))
    } else {
        None
    }
}

/// The path after its optional leading `$`.
pub open spec fn strip_root(p: Seq<char>) -> Seq<char> {
    if p.len() > 0 && p[0] == '$' {
        p.skip(1)
    } else {
        p
    }
}

/// Follows `.name` and `[index]` steps from `j`.
pub open spec fn resolve_steps(j: Json, rest: Seq<char>) -> Option<Json>
    decreases rest.len(),
{
    if rest.len() == 0 {
        Some(j)
    } else if rest[0] == '.' {
        let key = rest.skip(1);
        let end = match separator_index(key, 0) {
            Some(e) => e,
            None => key.len() as int,
        };
        if end <= 0 || end > key.len() {
            None
        } else {
            match json_get_key(j, key.take(end)) {
                Some(c) => resolve_steps(c, key.skip(end)),
                None => None,
            }
        }
    } else if rest[0] == '[' {
        let idx = rest.skip(1);
        match index_of_char(idx, ']') {
            Some(e) => if 0 <= e < idx.len() {
                match parse_unsigned_spec(idx.take(e), usize::MAX as nat) {
                    Some(n) => match json_get_index(j, n) {
                        Some(c) => resolve_steps(c, idx.skip(e + 1)),
                        None => None,
                    },
                    None => None,
                }
            } else {
                None
            },
            None => None,
        }
    } else {
        None
    }
}

/// The value at path `p` (`$.field.sub[index]`) in `j`, if any.
pub open spec fn resolve_spec(j: Json, p: Seq<char>) -> Option<Json> {
    resolve_steps(j, strip_root(p))
}

// ---------------------------------------------------------------------------
// Evaluation
// ---------------------------------------------------------------------------

/// Index of the first header whose name equals `key` ignoring ASCII case.
pub open spec fn header_index(hs: Seq<(String, String)>, key: Seq<char>, i: int) -> Option<int>
    decreases hs.len() - i,
{
    if i < 0 || i >= hs.len() {
        None
    } else if eq_ignore_ascii_case_spec(hs[i].0@, key) {
        Some(i)
    } else {
        header_index(hs, key, i + 1)
    }
}

/// Value of the first header named `key` (ASCII case ignored).
pub open spec fn header_value(r: Response, key: Seq<char>) -> Option<Seq<char>> {
    match header_index(r.headers@, key, 0) {
        Some(i) => Some(r.headers@[i].1@),
        None => None,
    }
}

/// Body text, empty when the response has none.
pub open spec fn body_text(r: Response) -> Seq<char> {
    match r.body {
        Some(b) => b@,
        None => Seq::empty(),
    }
}

/// Outcome (passed, detail) of a validation against a response whose body,
/// when there is one, parses to `body_json` (`None`: not valid JSON).
pub open spec fn evaluation(v: Validation, r: Response, body_json: Option<Json>) -> (bool, Seq<char>) {
    match v {
        Validation::StatusEquals { expected, .. } => (
            r.status == expected,
            "status esperado "@ + decimal(expected as nat) + ", obtenido "@ + decimal(
                r.status as nat,
            ),
        ),
        Validation::HeaderEquals { header, expected, .. } => match header_value(r, header@) {
            Some(value) => (
                value == expected@,
                "header "@ + quoted(header@) + " esperado "@ + quoted(expected@) + ", obtenido "@
                    + quoted(value),
            ),
            None => (false, "header "@ + quoted(header@) + " no presente"@),
        },
        Validation::HeaderContains { header, expected, .. } => match header_value(r, header@) {
            Some(value) => (
                contains_seq(value, expected@),
                "header "@ + quoted(header@) + " = "@ + quoted(value) + ", debe contener "@
                    + quoted(expected@),
            ),
            None => (false, "header "@ + quoted(header@) + " no presente"@),
        },
        Validation::BodyContains { expected, .. } => (
            contains_seq(body_text(r), expected@),
            "el cuerpo debe contener "@ + quoted(expected@),
        ),
        Validation::BodyEquals { expected, .. } => (
            body_text(r) == expected@,
            "el cuerpo debe ser igual a "@ + quoted(expected@),
        ),
        Validation::JsonExists { path, .. } => match r.body {
            None => (false, "la respuesta no tiene cuerpo"@),
            Some(_) => match body_json {
                None => (false, "el cuerpo no es JSON válido"@),
                Some(j) => match resolve_spec(j, path@) {
                    Some(_) => (true, "la ruta "@ + quoted(path@) + " existe"@),
                    None => (false, "la ruta "@ + quoted(path@) + " no existe"@),
                },
            },
        },
        Validation::JsonEquals { path, expected, .. } => match r.body {
            None => (false, "la respuesta no tiene cuerpo"@),
            Some(_) => match body_json {
                None => (false, "el cuerpo no es JSON válido"@),
                Some(j) => match resolve_spec(j, path@) {
                    Some(actual) => (
                        json_eq(actual, expected),
                        "la ruta "@ + quoted(path@) + " esperada "@ + expected.text@
                            + ", obtenida "@ + actual.text@,
                    ),
                    None => (false, "la ruta "@ + quoted(path@) + " no existe"@),
                },
            },
        },
        Validation::DurationLt { max_ms, .. } => (
            r.duration_ms < max_ms,
            "duración esperada < "@ + decimal(max_ms as nat) + " ms, obtenida "@ + decimal(
                r.duration_ms as nat,
            ) + " ms"@,
        ),
    }
}

// ---------------------------------------------------------------------------
// Executable functions
// ---------------------------------------------------------------------------

/// Equality of JSON values (renderings aside), as `serde_json` compares them.
pub fn json_equals(a: &Json, b: &Json) -> (r: bool)
    ensures
        r == json_eq(*a, *b),
    decreases a,
{
    match (&a.kind, &b.kind) {
        (JsonKind::Null, JsonKind::Null) => true,
        (JsonKind::Bool(x), JsonKind::Bool(y)) => *x == *y,
        (JsonKind::Number(x), JsonKind::Number(y)) => number_equals(x, y),
        (JsonKind::Str(x), JsonKind::Str(y)) => *x == *y,
        (JsonKind::Array(xs), JsonKind::Array(ys)) => {
            if xs.len() != ys.len() {
                return false;
            }
            let mut i: usize = 0;
            while i < xs.len()
                invariant
                    i <= xs.len(),
                    xs.len() == ys.len(),
                    a.kind == JsonKind::Array(*xs),
                    b.kind == JsonKind::Array(*ys),
                    forall|k: int| 0 <= k < i ==> json_eq(#[trigger] xs@[k], ys@[k]),
                decreases xs.len() - i,
            {
                proof {
                    assert(decreases_to!(*a => a.kind));
                    assert(decreases_to!(a.kind => a.kind->Array_0));
                    assert(decreases_to!(a.kind->Array_0 => a.kind->Array_0@));
                    assert(decreases_to!(xs@ => xs@[i as int]));
                }
                if !json_equals(&xs[i], &ys[i]) {
                    return false;
                }
                i = i + 1;
            }
            true
        },
        (JsonKind::Object(xs), JsonKind::Object(ys)) => {
            if xs.len() != ys.len() {
                return false;
            }
            let mut i: usize = 0;
            while i < xs.len()
                invariant
                    i <= xs.len(),
                    xs.len() == ys.len(),
                    a.kind == JsonKind::Object(*xs),
                    b.kind == JsonKind::Object(*ys),
                    forall|k: int|
                        0 <= k < i ==> (#[trigger] xs@[k]).0@ == ys@[k].0@ && json_eq(
                            xs@[k].1,
                            ys@[k].1,
                        ),
                decreases xs.len() - i,
            {
                proof {
                    assert(decreases_to!(*a => a.kind));
                    assert(decreases_to!(a.kind => a.kind->Object_0));
                    assert(decreases_to!(a.kind->Object_0 => a.kind->Object_0@));
                    assert(decreases_to!(xs@ => xs@[i as int]));
                    assert(decreases_to!(xs@[i as int] => xs@[i as int].1));
                }
                if xs[i].0 != ys[i].0 {
                    return false;
                }
                if !json_equals(&xs[i].1, &ys[i].1) {
                    return false;
                }
                i = i + 1;
            }
            true
        },
        _ => false,
    }
}

fn is_float_zero_exec(t: &Vec<char>) -> (r: bool)
    ensures
        r == is_float_zero(t@),
{
    let z: Vec<char> = vec!['0', '.', '0'];
    let nz: Vec<char> = vec!['-', '0', '.', '0'];
    assert(z@ =~= seq!['0', '.', '0']);
    assert(nz@ =~= seq!['-', '0', '.', '0']);
    chars_eq(t, &z) || chars_eq(t, &nz)
}

fn number_equals(x: &String, y: &String) -> (r: bool)
    ensures
        r == number_eq(x@, y@),
{
    if *x == *y {
        return true;
    }
    let a = chars_of(x.as_str());
    let b = chars_of(y.as_str());
    is_float_zero_exec(&a) && is_float_zero_exec(&b)
}

/// Member `k` of an object value.
pub fn get_key<'a>(j: &'a Json, k: &Vec<char>) -> (r: Option<&'a Json>)
    ensures
        match r {
            Some(x) => json_get_key(*j, k@) == Some(*x),
            None => json_get_key(*j, k@) is None,
        },
{
    match &j.kind {
        JsonKind::Object(xs) => {
            let mut i: usize = 0;
            while i < xs.len()
                invariant
                    i <= xs.len(),
                    j.kind == JsonKind::Object(*xs),
                    member_index(xs@, k@, 0) == member_index(xs@, k@, i as int),
                decreases xs.len() - i,
            {
                let name = chars_of(xs[i].0.as_str());
                if chars_eq(&name, k) {
                    return Some(&xs[i].1);
                }
                i = i + 1;
            }
            None
        },
        _ => None,
    }
}

/// Element `n` of an array value.
pub fn get_index<'a>(j: &'a Json, n: usize) -> (r: Option<&'a Json>)
    ensures
        match r {
            Some(x) => json_get_index(*j, n as nat) == Some(*x),
            None => json_get_index(*j, n as nat) is None,
        },
{
    match &j.kind {
        JsonKind::Array(xs) => if n < xs.len() {
            Some(&xs[n])
        } else {
            None
        },
        _ => None,
    }
}

fn separator_index_exec(s: &Vec<char>, from: usize) -> (r: Option<usize>)
    ensures
        match r {
            Some(i) => separator_index(s@, from as int) == Some(i as int),
            None => separator_index(s@, from as int) is None,
        },
{
    let mut i = from;
    while i < s.len()
        invariant
            from <= i,
            separator_index(s@, from as int) == separator_index(s@, i as int),
        decreases s.len() - i,
    {
        if s[i] == '.' || s[i] == '[' {
            return Some(i);
        }
        i = i + 1;
    }
    None
}

pub proof fn lemma_digits_value_prefix(s: Seq<char>, i: int)
    requires
        0 <= i <= s.len(),
    ensures
        digits_value(s.take(i)) <= digits_value(s),
    decreases s.len() - i,
{
    if i < s.len() {
        lemma_digits_value_prefix(s, i + 1);
        assert(s.take(i + 1).drop_last() =~= s.take(i));
    } else {
        assert(s.take(i) =~= s);
    }
}

/// `str::parse` of an unsigned integer type whose maximum is `max`, on the
/// characters `s[from..to]`.
pub fn parse_unsigned(s: &Vec<char>, from: usize, to: usize, max: u128) -> (r: Option<u128>)
    requires
        from <= to <= s.len(),
        max <= u64::MAX,
    ensures
        match r {
            Some(n) => parse_unsigned_spec(s@.subrange(from as int, to as int), max as nat) == Some(n as nat),
            None => parse_unsigned_spec(s@.subrange(from as int, to as int), max as nat) is None,
        },
{
    let ghost t = s@.subrange(from as int, to as int);
    let mut start = from;
    if from < to && s[from] == '+' {
        start = from + 1;
    }
    let ghost d = s@.subrange(start as int, to as int);
    assert(d =~= unsigned_digits(t));
    if start == to {
        return None;
    }
    let mut acc: u128 = 0;
    let mut i = start;
    while i < to
        invariant
            start <= i <= to <= s.len(),
            t == s@.subrange(from as int, to as int),
            d == unsigned_digits(t),
            d == s@.subrange(start as int, to as int),
            acc == digits_value(d.take(i - start)),
            acc <= max,
            max <= u64::MAX,
            forall|k: int| 0 <= k < i - start ==> is_digit(#[trigger] d[k]),
        decreases to - i,
    {
        let c = s[i];
        if !('0' <= c && c <= '9') {
            assert(d[i - start] == s@[i as int]);
            assert(!is_digit(d[i - start]));
            assert(!all_digits(d));
            return None;
        }
        let digit: u128 = ((c as u32) - 48) as u128;
        assert(d.take(i - start + 1).drop_last() =~= d.take(i - start));
        acc = acc * 10 + digit;
        proof {
            assert(acc == digits_value(d.take(i - start + 1)));
        }
        if acc > max {
            proof {
                lemma_digits_value_prefix(d, i - start + 1);
            }
            return None;
        }
        i = i + 1;
    }
    assert(d.take(d.len() as int) =~= d);
    Some(acc)
}

/// The value at `path` (`$.field.sub[index]`, `$` optional) in `json`.
pub fn resolve_path<'a>(json: &'a Json, path: &str) -> (r: Option<&'a Json>)
    ensures
        match r {
            Some(x) => resolve_spec(*json, path@) == Some(*x),
            None => resolve_spec(*json, path@) is None,
        },
{
    let p = chars_of(path);
    let mut pos: usize = 0;
    if p.len() > 0 && p[0] == '$' {
        pos = 1;
    }
    assert(p@.skip(pos as int) =~= strip_root(path@));
    let mut current: &'a Json = json;
    while pos < p.len()
        invariant
            p@ == path@,
            pos <= p.len(),
            resolve_spec(*json, path@) == resolve_steps(*current, p@.skip(pos as int)),
        decreases p.len() - pos,
    {
        let ghost rest = p@.skip(pos as int);
        if p[pos] == '.' {
            let ghost key = rest.skip(1);
            let start = pos + 1;
            assert(key =~= p@.skip(start as int));
            let end = match separator_index_exec(&p, start) {
                Some(e) => e,
                None => p.len(),
            };
            proof {
                lemma_separator_shift(p@, start as int, 0);
            }
            if end == start {
                return None;
            }
            let name = sub_chars(&p, start, end);
            assert(name@ =~= key.take(end - start));
            match get_key(current, &name) {
                Some(c) => {
                    assert(key.skip(end - start) =~= p@.skip(end as int));
                    current = c;
                    pos = end;
                },
                None => {
                    return None;
                },
            }
        } else if p[pos] == '[' {
            let ghost idx = rest.skip(1);
            let start = pos + 1;
            assert(idx =~= p@.skip(start as int));
            proof {
                crate::interpolation::lemma_find_from_shift(p@, seq![']'], start as int, 0);
            }
            match find_char(&p, ']', start) {
                Some(e) => {
                    proof {
                        crate::text::lemma_find_from_some(p@, seq![']'], start as int);
                    }
                    assert(idx.take(e - start) =~= p@.subrange(start as int, e as int));
                    match parse_unsigned(&p, start, e, usize::MAX as u128) {
                        Some(n) => match get_index(current, n as usize) {
                            Some(c) => {
                                assert(idx.skip(e - start + 1) =~= p@.skip(e + 1));
                                current = c;
                                pos = e + 1;
                            },
                            None => {
                                return None;
                            },
                        },
                        None => {
                            return None;
                        },
                    }
                },
                None => {
                    return None;
                },
            }
        } else {
            return None;
        }
    }
    assert(p@.skip(pos as int).len() == 0);
    Some(current)
}

pub proof fn lemma_separator_shift(s: Seq<char>, k: int, i: int)
    requires
        0 <= k <= s.len(),
        0 <= i,
    ensures
        separator_index(s.skip(k), i) == (match separator_index(s, k + i) {
            Some(j) => Some(j - k),
            None => None::<int>,
        }),
        separator_index(s, k + i) matches Some(j) ==> k + i <= j < s.len(),
    decreases s.len() - k - i,
{
    if k + i < s.len() && !(s[k + i] == '.' || s[k + i] == '[') {
        lemma_separator_shift(s, k, i + 1);
    }
}

/// Value of the first header named `key`, ignoring ASCII case.
pub fn find_header(response: &Response, key: &str) -> (r: Option<String>)
    ensures
        match r {
            Some(v) => header_value(*response, key@) == Some(v@),
            None => header_value(*response, key@) is None,
        },
{
    let k = chars_of(key);
    let mut i: usize = 0;
    while i < response.headers.len()
        invariant
            i <= response.headers.len(),
            k@ == key@,
            header_index(response.headers@, key@, 0) == header_index(
                response.headers@,
                key@,
                i as int,
            ),
        decreases response.headers.len() - i,
    {
        let name = chars_of(response.headers[i].0.as_str());
        if eq_ignore_ascii_case(&name, &k) {
            return Some(response.headers[i].1.clone());
        }
        i = i + 1;
    }
    None
}

/// Evaluates one validation against the response; `body_json` is what the
/// response body parses to as JSON (`None` when it is not valid JSON).
pub fn evaluate(v: &Validation, response: &Response, body_json: &Option<Json>) -> (r:
    ValidationResult)
    ensures
        r.name@ == validation_name(*v),
        (r.passed, r.detail@) == evaluation(*v, *response, *body_json),
{
    let mut detail = String::new();
    let passed: bool = match v {
        Validation::StatusEquals { expected, .. } => {
            push_str(&mut detail, "status esperado ");
            push_str(&mut detail, decimal_string(*expected as u128).as_str());
            push_str(&mut detail, ", obtenido ");
            push_str(&mut detail, decimal_string(response.status as u128).as_str());
            response.status == *expected
        },
        Validation::HeaderEquals { header, expected, .. } => {
            push_str(&mut detail, "header ");
            push_quoted(&mut detail, header.as_str());
            match find_header(response, header.as_str()) {
                Some(value) => {
                    push_str(&mut detail, " esperado ");
                    push_quoted(&mut detail, expected.as_str());
                    push_str(&mut detail, ", obtenido ");
                    push_quoted(&mut detail, value.as_str());
                    value == *expected
                },
                None => {
                    push_str(&mut detail, " no presente");
                    false
                },
            }
        },
        Validation::HeaderContains { header, expected, .. } => {
            push_str(&mut detail, "header ");
            push_quoted(&mut detail, header.as_str());
            match find_header(response, header.as_str()) {
                Some(value) => {
                    push_str(&mut detail, " = ");
                    push_quoted(&mut detail, value.as_str());
                    push_str(&mut detail, ", debe contener ");
                    push_quoted(&mut detail, expected.as_str());
                    let vc = chars_of(value.as_str());
                    let ec = chars_of(expected.as_str());
                    contains_chars(&vc, &ec)
                },
                None => {
                    push_str(&mut detail, " no presente");
                    false
                },
            }
        },
        Validation::BodyContains { expected, .. } => {
            push_str(&mut detail, "el cuerpo debe contener ");
            push_quoted(&mut detail, expected.as_str());
            let bc = match &response.body {
                Some(b) => chars_of(b.as_str()),
                None => Vec::new(),
            };
            let ec = chars_of(expected.as_str());
            contains_chars(&bc, &ec)
        },
        Validation::BodyEquals { expected, .. } => {
            push_str(&mut detail, "el cuerpo debe ser igual a ");
            push_quoted(&mut detail, expected.as_str());
            let bc = match &response.body {
                Some(b) => chars_of(b.as_str()),
                None => Vec::new(),
            };
            let ec = chars_of(expected.as_str());
            chars_eq(&bc, &ec)
        },
        Validation::JsonExists { path, .. } => match &response.body {
            None => {
                push_str(&mut detail, "la respuesta no tiene cuerpo");
                false
            },
            Some(_) => match body_json {
                None => {
                    push_str(&mut detail, "el cuerpo no es JSON válido");
                    false
                },
                Some(j) => {
                    push_str(&mut detail, "la ruta ");
                    push_quoted(&mut detail, path.as_str());
                    match resolve_path(j, path.as_str()) {
                        Some(_) => {
                            push_str(&mut detail, " existe");
                            true
                        },
                        None => {
                            push_str(&mut detail, " no existe");
                            false
                        },
                    }
                },
            },
        },
        Validation::JsonEquals { path, expected, .. } => match &response.body {
            None => {
                push_str(&mut detail, "la respuesta no tiene cuerpo");
                false
            },
            Some(_) => match body_json {
                None => {
                    push_str(&mut detail, "el cuerpo no es JSON válido");
                    false
                },
                Some(j) => {
                    push_str(&mut detail, "la ruta ");
                    push_quoted(&mut detail, path.as_str());
                    match resolve_path(j, path.as_str()) {
                        Some(actual) => {
                            push_str(&mut detail, " esperada ");
                            push_str(&mut detail, expected.text.as_str());
                            push_str(&mut detail, ", obtenida ");
                            push_str(&mut detail, actual.text.as_str());
                            json_equals(actual, expected)
                        },
                        None => {
                            push_str(&mut detail, " no existe");
                            false
                        },
                    }
                },
            },
        },
        Validation::DurationLt { max_ms, .. } => {
            push_str(&mut detail, "duración esperada < ");
            push_str(&mut detail, decimal_string(*max_ms as u128).as_str());
            push_str(&mut detail, " ms, obtenida ");
            push_str(&mut detail, decimal_string(response.duration_ms).as_str());
            push_str(&mut detail, " ms");
            response.duration_ms < *max_ms as u128
        },
    };
    ValidationResult { name: v.name().to_string(), passed, detail }
}

/// Evaluates every validation against the response, in order.
pub fn run(validations: &Vec<Validation>, response: &Response, body_json: &Option<Json>) -> (r:
    Vec<ValidationResult>)
    ensures
        r@.len() == validations@.len(),
        forall|i: int|
            0 <= i < r@.len() ==> (#[trigger] r@[i]).name@ == validation_name(validations@[i]) && (
            r@[i].passed,
            r@[i].detail@,
        ) == evaluation(validations@[i], *response, *body_json),
{
    let mut out: Vec<ValidationResult> = Vec::new();
    let mut i: usize = 0;
    while i < validations.len()
        invariant
            i <= validations.len(),
            out@.len() == i,
            forall|k: int|
                0 <= k < i ==> (#[trigger] out@[k]).name@ == validation_name(validations@[k]) && (
                out@[k].passed,
                out@[k].detail@,
            ) == evaluation(validations@[k], *response, *body_json),
        decreases validations.len() - i,
    {
        out.push(evaluate(&validations[i], response, body_json));
        i = i + 1;
    }
    out
}

// ---------------------------------------------------------------------------
// Composition of paths
// ---------------------------------------------------------------------------

/// `q` is a sequence of whole path steps: each `.key` (a non-empty key
/// without `.` or `[`) or `[n]` (`n` an index that parses as `usize`).
pub open spec fn whole_steps(q: Seq<char>) -> bool
    decreases q.len(),
{
    if q.len() == 0 {
        true
    } else if q[0] == '.' {
        let key = q.skip(1);
        let end = match separator_index(key, 0) {
            Some(e) => e,
            None => key.len() as int,
        };
        0 < end <= key.len() && whole_steps(key.skip(end))
    } else if q[0] == '[' {
        let idx = q.skip(1);
        match index_of_char(idx, ']') {
            Some(e) => 0 <= e < idx.len() && parse_unsigned_spec(idx.take(e), usize::MAX as nat)
                is Some && whole_steps(idx.skip(e + 1)),
            None => false,
        }
    } else {
        false
    }
}

/// `q` starts a new step (or is empty): it cannot extend the key before it.
pub open spec fn starts_step(q: Seq<char>) -> bool {
    q.len() == 0 || q[0] == '.' || q[0] == '['
}

proof fn lemma_separator_concat(a: Seq<char>, b: Seq<char>, i: int)
    requires
        0 <= i <= a.len(),
        starts_step(b),
    ensures
        separator_index(a + b, i) == (match separator_index(a, i) {
            Some(e) => Some(e),
            None => if b.len() == 0 {
                None::<int>
            } else {
                Some(a.len() as int)
            },
        }),
    decreases a.len() - i,
{
    if i < a.len() {
        assert((a + b)[i] == a[i]);
        if !(a[i] == '.' || a[i] == '[') {
            lemma_separator_concat(a, b, i + 1);
        }
    } else if b.len() > 0 {
        assert((a + b)[i] == b[0]);
    }
}

proof fn lemma_find_from_concat(a: Seq<char>, b: Seq<char>, p: Seq<char>, i: int)
    requires
        find_from(a, p, i) is Some,
    ensures
        find_from(a + b, p, i) == find_from(a, p, i),
    decreases a.len() - i,
{
    if i < 0 || i + p.len() > a.len() {
    } else {
        assert((a + b).subrange(i, i + p.len()) =~= a.subrange(i, i + p.len()));
        if p.len() == 0 || a.subrange(i, i + p.len()) == p {
        } else {
            lemma_find_from_concat(a, b, p, i + 1);
        }
    }
}

/// Following whole steps `q1` then `q2` is following `q1`, then `q2` from
/// where `q1` led.
pub proof fn lemma_steps_compose(j: Json, q1: Seq<char>, q2: Seq<char>)
    requires
        whole_steps(q1),
        starts_step(q2),
    ensures
        resolve_steps(j, q1 + q2) == (match resolve_steps(j, q1) {
            Some(v) => resolve_steps(v, q2),
            None => None,
        }),
    decreases q1.len(),
{
    let q = q1 + q2;
    if q1.len() == 0 {
        assert(q =~= q2);
    } else if q1[0] == '.' {
        let key1 = q1.skip(1);
        let key = q.skip(1);
        assert(key =~= key1 + q2);
        assert(q[0] == '.');
        lemma_separator_concat(key1, q2, 0);
        let end = match separator_index(key1, 0) {
            Some(e) => e,
            None => key1.len() as int,
        };
        if separator_index(key1, 0) is Some {
            lemma_separator_shift(key1, 0, 0);
        }
        assert(key.take(end) =~= key1.take(end));
        assert(key.skip(end) =~= key1.skip(end) + q2);
        match json_get_key(j, key1.take(end)) {
            Some(c) => {
                lemma_steps_compose(c, key1.skip(end), q2);
            },
            None => {},
        }
    } else {
        let idx1 = q1.skip(1);
        let idx = q.skip(1);
        assert(idx =~= idx1 + q2);
        assert(q[0] == '[');
        lemma_find_from_concat(idx1, q2, seq![']'], 0);
        let e = index_of_char(idx1, ']')->0;
        assert(idx.take(e) =~= idx1.take(e));
        assert(idx.skip(e + 1) =~= idx1.skip(e + 1) + q2);
        match parse_unsigned_spec(idx1.take(e), usize::MAX as nat) {
            Some(n) => match json_get_index(j, n) {
                Some(c) => {
                    lemma_steps_compose(c, idx1.skip(e + 1), q2);
                },
                None => {},
            },
            None => {},
        }
    }
}

/// The root path gives the value itself, and a path made of whole steps
/// resolves in two parts: `$q1q2` is `$q2` followed from where `$q1` led.
pub proof fn law_resolve_path_composes(j: Json, q1: Seq<char>, q2: Seq<char>)
    requires
        whole_steps(q1),
        whole_steps(q2),
    ensures
        resolve_spec(j, seq!['$']) == Some(j),
        resolve_spec(j, seq!['$'] + q1 + q2) == (match resolve_spec(j, seq!['$'] + q1) {
            Some(v) => resolve_spec(v, seq!['$'] + q2),
            None => None,
        }),
{
    assert(seq!['$'].skip(1) =~= Seq::<char>::empty());
    assert((seq!['$'] + q1 + q2).skip(1) =~= q1 + q2);
    assert((seq!['$'] + q1).skip(1) =~= q1);
    assert((seq!['$'] + q2).skip(1) =~= q2);
    lemma_steps_compose(j, q1, q2);
}

// ---------------------------------------------------------------------------
// Laws of the validations
// ---------------------------------------------------------------------------

/// `p` occurs in `s` exactly when it stands at some position of `s`.
pub proof fn lemma_contains_iff_occurs(s: Seq<char>, p: Seq<char>)
    ensures
        contains_seq(s, p) <==> exists|i: int| #[trigger] matches_at(s, p, i),
{
    if contains_seq(s, p) {
        lemma_find_from_some(s, p, 0);
        let i = find_from(s, p, 0)->0;
        assert(matches_at(s, p, i));
    } else {
        lemma_find_from_none(s, p, 0);
    }
}

proof fn lemma_header_index(hs: Seq<(String, String)>, key: Seq<char>, i: int)
    requires
        0 <= i,
    ensures
        match header_index(hs, key, i) {
            Some(k) => i <= k < hs.len() && eq_ignore_ascii_case_spec(hs[k].0@, key),
            None => forall|j: int| i <= j < hs.len() ==> !eq_ignore_ascii_case_spec(#[trigger] hs[j].0@, key),
        },
    decreases hs.len() - i,
{
    if i < hs.len() && !eq_ignore_ascii_case_spec(hs[i].0@, key) {
        lemma_header_index(hs, key, i + 1);
    }
}

/// A `status_equals` passes exactly when the response has the expected status.
pub proof fn law_status_equals(name: String, expected: u16, r: Response, j: Option<Json>)
    ensures
        evaluation(Validation::StatusEquals { name, expected }, r, j).0 <==> r.status == expected,
{
}

/// A `duration_lt` passes exactly when the response took strictly less than the bound.
pub proof fn law_duration_lt(name: String, max_ms: u64, r: Response, j: Option<Json>)
    ensures
        evaluation(Validation::DurationLt { name, max_ms }, r, j).0 <==> r.duration_ms < max_ms,
{
}

/// A `body_equals` passes exactly when the body (empty when there is none)
/// is the expected text: a body that only holds the expected text as a
/// proper part fails.
pub proof fn law_body_equals(name: String, expected: String, r: Response, j: Option<Json>)
    ensures
        evaluation(Validation::BodyEquals { name, expected }, r, j).0 <==> body_text(r) == expected@,
        body_text(r).len() != expected@.len() ==> !evaluation(
            Validation::BodyEquals { name, expected },
            r,
            j,
        ).0,
{
}

/// A `body_contains` passes exactly when the expected text stands at some
/// position of the body.
pub proof fn law_body_contains(name: String, expected: String, r: Response, j: Option<Json>)
    ensures
        evaluation(Validation::BodyContains { name, expected }, r, j).0 <==> exists|i: int|
            #[trigger] matches_at(body_text(r), expected@, i),
{
    lemma_contains_iff_occurs(body_text(r), expected@);
}

/// A `header_equals` that passes found a header of that name (ASCII case
/// ignored) whose value is the expected text; with no header of that name
/// it fails.
pub proof fn law_header_equals(name: String, header: String, expected: String, r: Response, j: Option<Json>)
    ensures
        evaluation(Validation::HeaderEquals { name, header, expected }, r, j).0 ==> exists|k: int|
            0 <= k < r.headers@.len() && eq_ignore_ascii_case_spec(
                (#[trigger] r.headers@[k]).0@,
                header@,
            ) && r.headers@[k].1@ == expected@,
        (forall|k: int| 0 <= k < r.headers@.len() ==> !eq_ignore_ascii_case_spec(
            (#[trigger] r.headers@[k]).0@,
            header@,
        )) ==> !evaluation(Validation::HeaderEquals { name, header, expected }, r, j).0,
{
    lemma_header_index(r.headers@, header@, 0);
}

/// A `header_contains` that passes found a header of that name (ASCII case
/// ignored) in whose value the expected text stands; with no header of that
/// name it fails.
pub proof fn law_header_contains(name: String, header: String, expected: String, r: Response, j: Option<Json>)
    ensures
        evaluation(Validation::HeaderContains { name, header, expected }, r, j).0 ==> exists|k: int|
            0 <= k < r.headers@.len() && eq_ignore_ascii_case_spec(
                (#[trigger] r.headers@[k]).0@,
                header@,
            ) && exists|i: int| matches_at(r.headers@[k].1@, expected@, i),
        (forall|k: int| 0 <= k < r.headers@.len() ==> !eq_ignore_ascii_case_spec(
            (#[trigger] r.headers@[k]).0@,
            header@,
        )) ==> !evaluation(Validation::HeaderContains { name, header, expected }, r, j).0,
{
    lemma_header_index(r.headers@, header@, 0);
    match header_index(r.headers@, header@, 0) {
        Some(k) => {
            lemma_contains_iff_occurs(r.headers@[k].1@, expected@);
        },
        None => {},
    }
}

/// Two JSON objects are equal only member by member: the same names in the
/// same places, and equal values under each.
pub proof fn law_json_objects_equal_by_members(a: Json, b: Json)
    requires
        json_eq(a, b),
        a.kind is Object,
        b.kind is Object,
    ensures
        ({
            let xs = a.kind->Object_0@;
            let ys = b.kind->Object_0@;
            &&& xs.len() == ys.len()
            &&& forall|i: int| 0 <= i < xs.len() ==> (#[trigger] xs[i]).0@ == ys[i].0@ && json_eq(
                xs[i].1,
                ys[i].1,
            )
        }),
{
}

/// Two JSON strings are equal only when their texts are.
pub proof fn law_json_strings_equal(a: Json, b: Json)
    requires
        json_eq(a, b),
        a.kind is Str,
    ensures
        b.kind matches JsonKind::Str(y) && y@ == a.kind->Str_0@,
{
}

/// Two JSON arrays are equal only element by element.
pub proof fn law_json_arrays_equal_by_elements(a: Json, b: Json)
    requires
        json_eq(a, b),
        a.kind is Array,
    ensures
        b.kind matches JsonKind::Array(ys) && ys@.len() == a.kind->Array_0@.len() && forall|i: int|
            0 <= i < ys@.len() ==> json_eq(#[trigger] a.kind->Array_0@[i], ys@[i]),
{
}

/// A `json_equals` that passes had a JSON body whose value at the path is
/// equal to the expected value.
pub proof fn law_json_equals_passes(name: String, path: String, expected: Json, r: Response, j: Option<Json>)
    ensures
        evaluation(Validation::JsonEquals { name, path, expected }, r, j).0 ==> r.body is Some,
        evaluation(Validation::JsonEquals { name, path, expected }, r, j).0 ==> (j matches Some(
            body,
        ) && resolve_spec(body, path@) matches Some(actual) && json_eq(actual, expected)),
{
}

/// A `header_equals` passes when the first header of that name (ASCII case
/// ignored) has the expected value, and a `header_contains` when the
/// expected text stands in that value.
pub proof fn law_header_checks_pass(
    name: String,
    header: String,
    expected: String,
    r: Response,
    j: Option<Json>,
    k: int,
)
    requires
        0 <= k < r.headers@.len(),
        eq_ignore_ascii_case_spec(r.headers@[k].0@, header@),
        forall|m: int| 0 <= m < k ==> !eq_ignore_ascii_case_spec((#[trigger] r.headers@[m]).0@, header@),
    ensures
        r.headers@[k].1@ == expected@ ==> evaluation(
            Validation::HeaderEquals { name, header, expected },
            r,
            j,
        ).0,
        (exists|i: int| matches_at(r.headers@[k].1@, expected@, i)) ==> evaluation(
            Validation::HeaderContains { name, header, expected },
            r,
            j,
        ).0,
{
    lemma_header_index(r.headers@, header@, 0);
    lemma_contains_iff_occurs(r.headers@[k].1@, expected@);
    lemma_header_first(r.headers@, header@, 0, k);
    let x = header_index(r.headers@, header@, 0)->0;
    if x < k {
        assert(!eq_ignore_ascii_case_spec(r.headers@[x].0@, header@));
    }
    assert(x == k);
}

proof fn lemma_header_first(hs: Seq<(String, String)>, key: Seq<char>, i: int, k: int)
    requires
        0 <= i <= k < hs.len(),
        eq_ignore_ascii_case_spec(hs[k].0@, key),
    ensures
        header_index(hs, key, i) matches Some(x) && x <= k,
    decreases k - i,
{
    if !eq_ignore_ascii_case_spec(hs[i].0@, key) {
        lemma_header_first(hs, key, i + 1, k);
    }
}

/// JSON equality is reflexive: every value equals itself.
pub proof fn law_json_eq_reflexive(a: Json)
    ensures
        json_eq(a, a),
    decreases a,
{
    match a.kind {
        JsonKind::Array(xs) => {
            assert forall|i: int| 0 <= i < xs@.len() implies json_eq(#[trigger] xs@[i], xs@[i]) by {
                law_json_eq_reflexive(xs@[i]);
            }
        },
        JsonKind::Object(xs) => {
            assert forall|i: int| 0 <= i < xs@.len() implies (#[trigger] xs@[i]).0@ == xs@[i].0@
                && json_eq(xs@[i].1, xs@[i].1) by {
                law_json_eq_reflexive(xs@[i].1);
            }
        },
        _ => {},
    }
}

/// Equal JSON values are of the same kind; equal booleans are the same
/// boolean, equal numbers have the same text (the two zeros of floating
/// point aside), and `null` equals only `null`.
pub proof fn law_json_eq_same_kind(a: Json, b: Json)
    requires
        json_eq(a, b),
    ensures
        a.kind is Null <==> b.kind is Null,
        a.kind is Bool <==> b.kind is Bool,
        a.kind is Number <==> b.kind is Number,
        a.kind is Str <==> b.kind is Str,
        a.kind is Array <==> b.kind is Array,
        a.kind is Object <==> b.kind is Object,
        a.kind matches JsonKind::Bool(x) ==> (b.kind matches JsonKind::Bool(y) && x == y),
        a.kind matches JsonKind::Number(x) ==> (b.kind matches JsonKind::Number(y) && (x@ == y@ || (
        is_float_zero(x@) && is_float_zero(y@)))),
{
}

} // verus!
