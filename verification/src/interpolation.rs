//! Variables: `{{name}}` placeholders and `:name` path parameters.
use vstd::prelude::*;

use crate::model::{
    copy_opt_string, copy_validations, opt_str_same, validations_same, Body, KeyValue, Request,
};
use crate::text::{
    chars_of, contains_seq, extend_chars, find_chars, find_from, lemma_find_from_some,
    lemma_replace_absent, matches_at_exec, replace_all, replace_chars, string_of, sub_chars,
};

verus! {

// ---------------------------------------------------------------------------
// Specifications
// ---------------------------------------------------------------------------

pub open spec fn open_braces() -> Seq<char> {
    seq!['{', '{']
}

pub open spec fn close_braces() -> Seq<char> {
    seq!['}', '}']
}

/// `{{k}}`
pub open spec fn placeholder(k: Seq<char>) -> Seq<char> {
    open_braces() + k + close_braces()
}

/// `:k`
pub open spec fn path_param(k: Seq<char>) -> Seq<char> {
    seq![':'] + k
}

/// Variables as texts, in the order they are applied.
pub open spec fn vars_view(vars: Seq<(String, String)>) -> Seq<(Seq<char>, Seq<char>)> {
    vars.map_values(|p: (String, String)| (p.0@, p.1@))
}

/// A character that continues a name: an ASCII letter, an ASCII digit or `_`.
pub open spec fn is_name_char(c: char) -> bool {
    ('a' <= c && c <= 'z') || ('A' <= c && c <= 'Z') || ('0' <= c && c <= '9') || c == '_'
}

/// `t` starts with the parameter `p` as a whole: `p` is not followed by a
/// character that would make it part of a longer name.
pub open spec fn param_at_start(t: Seq<char>, p: Seq<char>) -> bool {
    &&& t.len() >= p.len()
    &&& t.take(p.len() as int) == p
    &&& (t.len() == p.len() || !is_name_char(t[p.len() as int]))
}

/// Every whole occurrence of the parameter `p`, scanning from the left,
/// replaced by `v`; an occurrence inside a longer name is kept.
pub open spec fn replace_param(t: Seq<char>, p: Seq<char>, v: Seq<char>) -> Seq<char>
    decreases t.len(),
{
    if p.len() == 0 || t.len() < p.len() {
        t
    } else if param_at_start(t, p) {
        v + replace_param(t.skip(p.len() as int), p, v)
    } else {
        seq![t[0]] + replace_param(t.skip(1), p, v)
    }
}

/// The parameter `p` occurs somewhere in `t` as a whole.
pub open spec fn param_occurs(t: Seq<char>, p: Seq<char>) -> bool {
    exists|i: int| 0 <= i <= t.len() && #[trigger] param_at_start(t.skip(i), p)
}

/// One variable applied: first its `{{k}}` placeholders, then its `:k`
/// parameters where they stand as a whole name (`:k` inside `:kx` is kept).
pub open spec fn apply_var(t: Seq<char>, k: Seq<char>, v: Seq<char>) -> Seq<char> {
    replace_param(replace_all(t, placeholder(k), v), path_param(k), v)
}

/// The variables applied one after the other, in order.
pub open spec fn interpolate_spec(t: Seq<char>, vars: Seq<(Seq<char>, Seq<char>)>) -> Seq<char>
    decreases vars.len(),
{
    if vars.len() == 0 {
        t
    } else {
        interpolate_spec(apply_var(t, vars[0].0, vars[0].1), vars.drop_first())
    }
}

/// Names between `{{` and `}}`, left to right, empty names skipped.
pub open spec fn placeholder_names(s: Seq<char>) -> Seq<Seq<char>>
    decreases s.len(),
{
    match find_from(s, open_braces(), 0) {
        None => Seq::empty(),
        Some(a) => {
            proof {
                lemma_find_from_some(s, open_braces(), 0);
            }
            let rest = s.skip(a + 2);
            match find_from(rest, close_braces(), 0) {
                None => Seq::empty(),
                Some(e) => {
                    proof {
                        lemma_find_from_some(rest, close_braces(), 0);
                    }
                    let tail = placeholder_names(rest.skip(e + 2));
                    if e > 0 {
                        seq![rest.take(e)] + tail
                    } else {
                        tail
                    }
                },
            }
        },
    }
}

/// `s` holds the placeholder `{{n}}` (as the scan above reads it).
pub open spec fn mentions(s: Seq<char>, n: Seq<char>) -> bool {
    placeholder_names(s).contains(n)
}

pub open spec fn kvs_mention(kvs: Seq<KeyValue>, n: Seq<char>) -> bool {
    exists|j: int| 0 <= j < kvs.len() && (mentions(kvs[j].key@, n) || mentions(kvs[j].value@, n))
}

pub open spec fn body_mentions(b: Body, n: Seq<char>) -> bool {
    match b {
        Body::Empty => false,
        Body::Raw { content } => mentions(content@, n),
        Body::UrlEncoded { fields } => kvs_mention(fields@, n),
    }
}

/// A placeholder of the request: in its URL, query, headers or body.
pub open spec fn request_mentions(r: Request, n: Seq<char>) -> bool {
    ||| mentions(r.url@, n)
    ||| kvs_mention(r.query@, n)
    ||| kvs_mention(r.headers@, n)
    ||| body_mentions(r.body, n)
}

pub open spec fn has_name(v: Seq<String>, n: Seq<char>) -> bool {
    exists|i: int| 0 <= i < v.len() && v[i]@ == n
}

pub open spec fn distinct_names(v: Seq<String>) -> bool {
    forall|i: int, j: int| 0 <= i < j < v.len() ==> v[i]@ != v[j]@
}

// ---------------------------------------------------------------------------
// Lemmas
// ---------------------------------------------------------------------------

/// Searching in a suffix is searching the whole text further on.
pub proof fn lemma_find_from_shift(s: Seq<char>, p: Seq<char>, k: int, i: int)
    requires
        0 <= k <= s.len(),
        0 <= i,
    ensures
        find_from(s.skip(k), p, i) == (match find_from(s, p, k + i) {
            Some(j) => Some(j - k),
            None => None::<int>,
        }),
    decreases s.len() - k - i,
{
    let t = s.skip(k);
    if i + p.len() > t.len() {
    } else {
        assert(t.subrange(i, i + p.len()) =~= s.subrange(k + i, k + i + p.len()));
        if p.len() == 0 || t.subrange(i, i + p.len()) == p {
        } else {
            lemma_find_from_shift(s, p, k, i + 1);
        }
    }
}

/// A text where the parameter does not occur as a whole is left unchanged.
pub proof fn lemma_replace_param_absent(t: Seq<char>, p: Seq<char>, v: Seq<char>)
    requires
        !param_occurs(t, p),
    ensures
        replace_param(t, p, v) == t,
    decreases t.len(),
{
    if p.len() == 0 || t.len() < p.len() {
    } else {
        assert(t.skip(0) =~= t);
        assert(!param_at_start(t, p));
        let u = t.skip(1);
        assert(!param_occurs(u, p)) by {
            if param_occurs(u, p) {
                let i = choose|i: int| 0 <= i <= u.len() && #[trigger] param_at_start(u.skip(i), p);
                assert(u.skip(i) =~= t.skip(i + 1));
                assert(param_at_start(t.skip(i + 1), p));
            }
        }
        lemma_replace_param_absent(u, p, v);
        assert(seq![t[0]] + u =~= t);
    }
}

// ---------------------------------------------------------------------------
// Executable functions
// ---------------------------------------------------------------------------

fn is_name_char_exec(c: char) -> (r: bool)
    ensures
        r == is_name_char(c),
{
    ('a' <= c && c <= 'z') || ('A' <= c && c <= 'Z') || ('0' <= c && c <= '9') || c == '_'
}

/// `s` with every whole occurrence of the parameter `p` replaced by `r`.
fn replace_params(s: &Vec<char>, p: &Vec<char>, r: &Vec<char>) -> (out: Vec<char>)
    requires
        p.len() > 0,
    ensures
        out@ == replace_param(s@, p@, r@),
{
    let mut out: Vec<char> = Vec::new();
    let mut i: usize = 0;
    assert(s@.skip(0) =~= s@);
    while i < s.len()
        invariant
            p.len() > 0,
            i <= s.len(),
            out@ + replace_param(s@.skip(i as int), p@, r@) == replace_param(s@, p@, r@),
        decreases s.len() - i,
    {
        let ghost rest = s@.skip(i as int);
        let whole = matches_at_exec(s, p, i) && (i + p.len() == s.len() || !is_name_char_exec(
            s[i + p.len()],
        ));
        proof {
            if rest.len() >= p@.len() {
                assert(rest.take(p@.len() as int) =~= s@.subrange(i as int, i + p@.len()));
                if rest.len() > p@.len() {
                    assert(rest[p@.len() as int] == s@[i + p@.len()]);
                }
            }
        }
        if whole {
            assert(param_at_start(rest, p@));
            assert(rest.skip(p.len() as int) =~= s@.skip(i + p.len()));
            extend_chars(&mut out, r);
            i = i + p.len();
        } else {
            proof {
                assert(rest.skip(1) =~= s@.skip(i + 1));
                if rest.len() < p@.len() {
                    assert(replace_param(rest, p@, r@) == rest);
                    assert(replace_param(rest.skip(1), p@, r@) == rest.skip(1));
                    assert(rest =~= seq![rest[0]] + rest.skip(1));
                } else {
                    assert(!param_at_start(rest, p@));
                }
            }
            out.push(s[i]);
            i = i + 1;
            assert(out@ + replace_param(s@.skip(i as int), p@, r@) =~= replace_param(s@, p@, r@));
        }
    }
    assert(s@.skip(i as int) =~= Seq::<char>::empty());
    assert(out@ + Seq::<char>::empty() =~= out@);
    out
}

/// Replaces the placeholders `{{name}}` and `:name` by the value of each variable,/// Replaces the placeholders `{{name}}` and `:name` by the value of each variable,
/// one variable after the other; `:name` only where it stands as a whole name
/// (not followed by a letter, digit or `_`). Unknown variables, `:namex`
/// included, are left as they are.
pub fn interpolate(template: &str, vars: &Vec<(String, String)>) -> (r: String)
    ensures
        r@ == interpolate_spec(template@, vars_view(vars@)),
{
    if vars.len() == 0 {
        return template.to_string();
    }
    let mut out = chars_of(template);
    let mut j: usize = 0;
    assert(vars_view(vars@).skip(0) =~= vars_view(vars@));
    while j < vars.len()
        invariant
            j <= vars.len(),
            interpolate_spec(template@, vars_view(vars@)) == interpolate_spec(
                out@,
                vars_view(vars@).skip(j as int),
            ),
        decreases vars.len() - j,
    {
        let key = chars_of(vars[j].0.as_str());
        let value = chars_of(vars[j].1.as_str());
        let mut pl: Vec<char> = vec!['{', '{'];
        extend_chars(&mut pl, &key);
        pl.push('}');
        pl.push('}');
        assert(pl@ =~= placeholder(key@));
        let mut pp: Vec<char> = vec![':'];
        extend_chars(&mut pp, &key);
        assert(pp@ =~= path_param(key@));
        let step = replace_chars(&out, &pl, &value);
        out = replace_params(&step, &pp, &value);
        proof {
            let vs = vars_view(vars@);
            assert(vs.skip(j as int).drop_first() =~= vs.skip(j + 1));
            assert(vs.skip(j as int)[0] == vs[j as int]);
        }
        j = j + 1;
    }
    assert(vars_view(vars@).skip(j as int).len() == 0);
    string_of(&out)
}

/// Adds `name` unless a string with the same text is there already.
pub fn insert_name(out: &mut Vec<String>, name: String)
    requires
        distinct_names(old(out)@),
    ensures
        distinct_names(final(out)@),
        forall|n: Seq<char>| #![trigger has_name(final(out)@, n)] has_name(final(out)@, n) <==> (has_name(old(out)@, n) || n == name@),
{
    let mut i: usize = 0;
    while i < out.len()
        invariant
            i <= out.len(),
            out@ == old(out)@,
            distinct_names(out@),
            forall|k: int| 0 <= k < i ==> (#[trigger] out@[k])@ != name@,
        decreases out.len() - i,
    {
        if out[i] == name {
            assert(forall|n: Seq<char>| has_name(out@, n) <==> (has_name(out@, n) || n == name@));
            return;
        }
        i = i + 1;
    }
    let ghost before = out@;
    out.push(name);
    assert forall|n: Seq<char>| has_name(out@, n) <==> (has_name(before, n) || n == name@) by {
        if has_name(out@, n) {
            let k = choose|k: int| 0 <= k < out@.len() && out@[k]@ == n;
            if k < before.len() {
                assert(before[k] == out@[k]);
            }
        }
        if has_name(before, n) {
            let k = choose|k: int| 0 <= k < before.len() && before[k]@ == n;
            assert(out@[k] == before[k]);
        }
        if n == name@ {
            assert(out@[before.len() as int]@ == n);
        }
    }
}

/// Collects the names of the `{{name}}` placeholders of `s` into `out`.
pub fn extract_from_str(s: &str, out: &mut Vec<String>)
    requires
        distinct_names(old(out)@),
    ensures
        distinct_names(final(out)@),
        forall|n: Seq<char>| #![trigger has_name(final(out)@, n)] has_name(final(out)@, n) <==> (has_name(old(out)@, n) || mentions(s@, n)),
{
    let cs = chars_of(s);
    let open: Vec<char> = vec!['{', '{'];
    let close: Vec<char> = vec!['}', '}'];
    assert(open@ =~= open_braces());
    assert(close@ =~= close_braces());
    let ghost start = out@;
    let ghost mut seen: Seq<Seq<char>> = Seq::empty();
    let mut pos: usize = 0;
    assert(cs@.skip(0) =~= cs@);
    loop
        invariant
            cs@ == s@,
            open@ == open_braces(),
            close@ == close_braces(),
            pos <= cs.len(),
            placeholder_names(s@) == seen + placeholder_names(cs@.skip(pos as int)),
            distinct_names(out@),
            forall|n: Seq<char>| has_name(out@, n) <==> (has_name(start, n) || seen.contains(n)),
        ensures
            placeholder_names(s@) == seen,
            distinct_names(out@),
            forall|n: Seq<char>| has_name(out@, n) <==> (has_name(start, n) || seen.contains(n)),
        decreases cs.len() - pos,
    {
        let ghost t = cs@.skip(pos as int);
        proof {
            lemma_find_from_shift(cs@, open_braces(), pos as int, 0);
        }
        match find_chars(&cs, &open, pos) {
            None => {
                assert(placeholder_names(t) == Seq::<Seq<char>>::empty());
                assert(seen + Seq::<Seq<char>>::empty() =~= seen);
                break;
            },
            Some(a) => {
                proof {
                    lemma_find_from_some(cs@, open_braces(), pos as int);
                }
                let b = a + 2;
                let ghost rest = t.skip(a - pos + 2);
                assert(rest =~= cs@.skip(b as int));
                proof {
                    lemma_find_from_shift(cs@, close_braces(), b as int, 0);
                }
                match find_chars(&cs, &close, b) {
                    None => {
                        assert(placeholder_names(t) == Seq::<Seq<char>>::empty());
                        assert(seen + Seq::<Seq<char>>::empty() =~= seen);
                        break;
                    },
                    Some(e) => {
                        proof {
                            lemma_find_from_some(cs@, close_braces(), b as int);
                        }
                        let ghost tail = placeholder_names(rest.skip(e - b + 2));
                        assert(rest.skip(e - b + 2) =~= cs@.skip(e + 2));
                        if e > b {
                            let name_chars = sub_chars(&cs, b, e);
                            assert(rest.take(e - b) =~= name_chars@);
                            let name = string_of(&name_chars);
                            let ghost old_out = out@;
                            let ghost old_seen = seen;
                            insert_name(out, name);
                            proof {
                                seen = seen.push(name_chars@);
                                assert(placeholder_names(t) == seq![name_chars@] + tail);
                                assert(old_seen + (seq![name_chars@] + tail) =~= seen + tail);
                                assert forall|n: Seq<char>|
                                    has_name(out@, n) <==> (has_name(start, n) || seen.contains(
                                        n,
                                    )) by {
                                    if seen.contains(n) && !old_seen.contains(n) {
                                        let k = choose|k: int| 0 <= k < seen.len() && seen[k] == n;
                                        if k < old_seen.len() {
                                            assert(old_seen[k] == seen[k]);
                                        }
                                    }
                                    if old_seen.contains(n) {
                                        let k = choose|k: int|
                                            0 <= k < old_seen.len() && old_seen[k] == n;
                                        assert(seen[k] == old_seen[k]);
                                    }
                                    if n == name_chars@ {
                                        assert(seen[old_seen.len() as int] == n);
                                    }
                                }
                            }
                        } else {
                            assert(placeholder_names(t) == tail);
                        }
                        pos = e + 2;
                    },
                }
            },
        }
    }
}

/// Collects the placeholder names of a list of key/value pairs.
fn extract_from_kvs(kvs: &Vec<KeyValue>, out: &mut Vec<String>)
    requires
        distinct_names(old(out)@),
    ensures
        distinct_names(final(out)@),
        forall|n: Seq<char>|
            #![trigger has_name(final(out)@, n)]
            has_name(final(out)@, n) <==> (has_name(old(out)@, n) || kvs_mention(kvs@, n)),
{
    let ghost start = out@;
    let mut i: usize = 0;
    while i < kvs.len()
        invariant
            i <= kvs.len(),
            distinct_names(out@),
            forall|n: Seq<char>|
                #![trigger has_name(out@, n)]
                has_name(out@, n) <==> (has_name(start, n) || kvs_mention(kvs@.take(i as int), n)),
        decreases kvs.len() - i,
    {
        let ghost before = out@;
        extract_from_str(kvs[i].key.as_str(), out);
        let ghost mid = out@;
        extract_from_str(kvs[i].value.as_str(), out);
        proof {
            assert forall|n: Seq<char>| has_name(out@, n) <==> (has_name(before, n) || mentions(kvs@[i as int].key@, n) || mentions(kvs@[i as int].value@, n)) by {
                assert(has_name(mid, n) <==> (has_name(before, n) || mentions(kvs@[i as int].key@, n)));
                assert(has_name(out@, n) <==> (has_name(mid, n) || mentions(kvs@[i as int].value@, n)));
            }
            let s0 = kvs@.take(i as int);
            let s1 = kvs@.take(i + 1);
            assert forall|n: Seq<char>| kvs_mention(s1, n) <==> (kvs_mention(s0, n) || mentions(kvs@[i as int].key@, n) || mentions(kvs@[i as int].value@, n)) by {
                if kvs_mention(s0, n) {
                    let j = choose|j: int| 0 <= j < s0.len() && (mentions(s0[j].key@, n) || mentions(s0[j].value@, n));
                    assert(s1[j] == s0[j]);
                }
                if mentions(kvs@[i as int].key@, n) || mentions(kvs@[i as int].value@, n) {
                    assert(s1[i as int] == kvs@[i as int]);
                }
                if kvs_mention(s1, n) {
                    let j = choose|j: int| 0 <= j < s1.len() && (mentions(s1[j].key@, n) || mentions(s1[j].value@, n));
                    if j < i {
                        assert(s0[j] == s1[j]);
                    }
                }
            }
        }
        proof {
            assert forall|n: Seq<char>| #![trigger has_name(out@, n)]
                has_name(out@, n) <==> (has_name(start, n) || kvs_mention(kvs@.take(i + 1), n)) by {
                assert(has_name(before, n) <==> (has_name(start, n) || kvs_mention(kvs@.take(i as int), n)));
            }
        }
        i = i + 1;
    }
    assert(kvs@.take(kvs.len() as int) =~= kvs@);
}

/// Collects the placeholder names of one request.
fn extract_from_request(req: &Request, out: &mut Vec<String>)
    requires
        distinct_names(old(out)@),
    ensures
        distinct_names(final(out)@),
        forall|n: Seq<char>|
            #![trigger has_name(final(out)@, n)]
            has_name(final(out)@, n) <==> (has_name(old(out)@, n) || request_mentions(*req, n)),
{
    let ghost s0 = out@;
    extract_from_str(req.url.as_str(), out);
    let ghost s1 = out@;
    extract_from_kvs(&req.query, out);
    let ghost s2 = out@;
    extract_from_kvs(&req.headers, out);
    let ghost s3 = out@;
    match &req.body {
        Body::Empty => {},
        Body::Raw { content } => extract_from_str(content.as_str(), out),
        Body::UrlEncoded { fields } => extract_from_kvs(fields, out),
    }
    proof {
        assert forall|n: Seq<char>|
            has_name(out@, n) <==> (has_name(s0, n) || request_mentions(*req, n)) by {
            assert(has_name(s1, n) <==> (has_name(s0, n) || mentions(req.url@, n)));
            assert(has_name(s2, n) <==> (has_name(s1, n) || kvs_mention(req.query@, n)));
            assert(has_name(s3, n) <==> (has_name(s2, n) || kvs_mention(req.headers@, n)));
            assert(has_name(out@, n) <==> (has_name(s3, n) || body_mentions(req.body, n)));
        }
    }
}

/// All names of `{{name}}` placeholders used by the requests (URL, query,
/// headers and body), each once.
pub fn extract_variables(requests: &Vec<Request>) -> (r: Vec<String>)
    ensures
        distinct_names(r@),
        forall|n: Seq<char>|
            has_name(r@, n) <==> exists|i: int|
                0 <= i < requests@.len() && request_mentions(#[trigger] requests@[i], n),
{
    let mut out: Vec<String> = Vec::new();
    let mut i: usize = 0;
    while i < requests.len()
        invariant
            i <= requests.len(),
            distinct_names(out@),
            forall|n: Seq<char>|
                has_name(out@, n) <==> exists|k: int|
                    0 <= k < i && request_mentions(#[trigger] requests@[k], n),
        decreases requests.len() - i,
    {
        let ghost before = out@;
        extract_from_request(&requests[i], &mut out);
        proof {
            assert forall|n: Seq<char>|
                has_name(out@, n) <==> exists|k: int|
                    0 <= k < i + 1 && request_mentions(#[trigger] requests@[k], n) by {
                assert(has_name(out@, n) <==> (has_name(before, n) || request_mentions(requests@[i as int], n)));
                if exists|k: int| 0 <= k < i + 1 && request_mentions(#[trigger] requests@[k], n) {
                    let k = choose|k: int| 0 <= k < i + 1 && request_mentions(requests@[k], n);
                    if k < i {
                        assert(exists|k2: int| 0 <= k2 < i && request_mentions(#[trigger] requests@[k2], n));
                    }
                }
            }
        }
        i = i + 1;
    }
    out
}

/// `r` is `req` with the variables applied to its URL, query values, header
/// names and values, raw body and form values; all else is kept.
pub open spec fn interpolated_from(r: Request, req: Request, vars: Seq<(Seq<char>, Seq<char>)>) -> bool {
    &&& r.url@ == interpolate_spec(req.url@, vars)
    &&& r.query@.len() == req.query@.len()
    &&& forall|i: int|
        0 <= i < r.query@.len() ==> (#[trigger] r.query@[i]).key@ == req.query@[i].key@
            && r.query@[i].value@ == interpolate_spec(req.query@[i].value@, vars)
            && r.query@[i].enabled == req.query@[i].enabled
    &&& r.headers@.len() == req.headers@.len()
    &&& forall|i: int|
        0 <= i < r.headers@.len() ==> (#[trigger] r.headers@[i]).key@ == interpolate_spec(
            req.headers@[i].key@,
            vars,
        ) && r.headers@[i].value@ == interpolate_spec(req.headers@[i].value@, vars)
            && r.headers@[i].enabled == req.headers@[i].enabled
    &&& match req.body {
        Body::Empty => r.body is Empty,
        Body::Raw { content } => r.body matches Body::Raw { content: c } && c@
            == interpolate_spec(content@, vars),
        Body::UrlEncoded { fields } => r.body matches Body::UrlEncoded { fields: f } && f@.len()
            == fields@.len() && forall|i: int|
            0 <= i < f@.len() ==> (#[trigger] f@[i]).key@ == fields@[i].key@ && f@[i].value@
                == interpolate_spec(fields@[i].value@, vars) && f@[i].enabled
                == fields@[i].enabled,
    }
    &&& opt_str_same(r.id, req.id)
    &&& r.name@ == req.name@
    &&& r.method@ == req.method@
    &&& r.timeout_secs == req.timeout_secs
    &&& r.follow_redirects == req.follow_redirects
    &&& validations_same(req.validations@, r.validations@)
}

/// The request with the variables applied to its URL, query values, header
/// names and values, raw body and form values.
pub fn interpolate_request(req: &Request, vars: &Vec<(String, String)>) -> (r: Request)
    ensures
        interpolated_from(r, *req, vars_view(vars@)),
{
    let mut query: Vec<KeyValue> = Vec::new();
    let mut i: usize = 0;
    while i < req.query.len()
        invariant
            i <= req.query.len(),
            query@.len() == i,
            forall|k: int|
                0 <= k < i ==> (#[trigger] query@[k]).key@ == req.query@[k].key@ && query@[k].value@
                    == interpolate_spec(req.query@[k].value@, vars_view(vars@)) && query@[k].enabled
                    == req.query@[k].enabled,
        decreases req.query.len() - i,
    {
        let kv = &req.query[i];
        query.push(
            KeyValue {
                key: kv.key.clone(),
                value: interpolate(kv.value.as_str(), vars),
                enabled: kv.enabled,
            },
        );
        i = i + 1;
    }
    let mut headers: Vec<KeyValue> = Vec::new();
    let mut i: usize = 0;
    while i < req.headers.len()
        invariant
            i <= req.headers.len(),
            headers@.len() == i,
            forall|k: int|
                0 <= k < i ==> (#[trigger] headers@[k]).key@ == interpolate_spec(
                    req.headers@[k].key@,
                    vars_view(vars@),
                ) && headers@[k].value@ == interpolate_spec(
                    req.headers@[k].value@,
                    vars_view(vars@),
                ) && headers@[k].enabled == req.headers@[k].enabled,
        decreases req.headers.len() - i,
    {
        let kv = &req.headers[i];
        headers.push(
            KeyValue {
                key: interpolate(kv.key.as_str(), vars),
                value: interpolate(kv.value.as_str(), vars),
                enabled: kv.enabled,
            },
        );
        i = i + 1;
    }
    let body = match &req.body {
        Body::Empty => Body::Empty,
        Body::Raw { content } => Body::Raw { content: interpolate(content.as_str(), vars) },
        Body::UrlEncoded { fields } => {
            let mut out: Vec<KeyValue> = Vec::new();
            let mut i: usize = 0;
            while i < fields.len()
                invariant
                    i <= fields.len(),
                    out@.len() == i,
                    forall|k: int|
                        0 <= k < i ==> (#[trigger] out@[k]).key@ == fields@[k].key@
                            && out@[k].value@ == interpolate_spec(
                            fields@[k].value@,
                            vars_view(vars@),
                        ) && out@[k].enabled == fields@[k].enabled,
                decreases fields.len() - i,
            {
                let kv = &fields[i];
                out.push(
                    KeyValue {
                        key: kv.key.clone(),
                        value: interpolate(kv.value.as_str(), vars),
                        enabled: kv.enabled,
                    },
                );
                i = i + 1;
            }
            Body::UrlEncoded { fields: out }
        },
    };
    Request {
        id: copy_opt_string(&req.id),
        name: req.name.clone(),
        method: req.method.clone(),
        url: interpolate(req.url.as_str(), vars),
        query,
        headers,
        body,
        timeout_secs: req.timeout_secs,
        follow_redirects: req.follow_redirects,
        validations: copy_validations(&req.validations),
    }
}

// ---------------------------------------------------------------------------
// Laws
// ---------------------------------------------------------------------------

/// With no variables, interpolation gives the template back unchanged.
pub proof fn law_interpolate_without_vars(t: Seq<char>)
    ensures
        interpolate_spec(t, Seq::empty()) == t,
{
}

/// A template that holds no `{{k}}` and no whole `:k` of the variables is
/// left unchanged: unknown variables stay as they are, `:kx` included.
pub proof fn law_interpolate_untouched(t: Seq<char>, vars: Seq<(Seq<char>, Seq<char>)>)
    requires
        forall|i: int|
            0 <= i < vars.len() ==> !contains_seq(t, placeholder(#[trigger] vars[i].0))
                && !param_occurs(t, path_param(vars[i].0)),
    ensures
        interpolate_spec(t, vars) == t,
    decreases vars.len(),
{
    if vars.len() > 0 {
        let k = vars[0].0;
        let v = vars[0].1;
        assert(!contains_seq(t, placeholder(vars[0].0)));
        lemma_replace_absent(t, placeholder(k), v);
        lemma_replace_param_absent(t, path_param(k), v);
        assert forall|i: int|
            0 <= i < vars.drop_first().len() implies !contains_seq(
            t,
            placeholder(#[trigger] vars.drop_first()[i].0),
        ) && !param_occurs(t, path_param(vars.drop_first()[i].0)) by {
            assert(vars.drop_first()[i] == vars[i + 1]);
        }
        law_interpolate_untouched(t, vars.drop_first());
    }
}

/// A placeholder `{{k}}` alone becomes the value of `k` (a value without `:`,
/// so that no parameter is read into it).
pub proof fn law_placeholder_becomes_value(k: Seq<char>, v: Seq<char>)
    requires
        forall|i: int| 0 <= i < v.len() ==> v[i] != ':',
    ensures
        interpolate_spec(placeholder(k), seq![(k, v)]) == v,
{
    let t = placeholder(k);
    let p = placeholder(k);
    assert(t.take(p.len() as int) =~= p);
    assert(t.skip(p.len() as int) =~= Seq::<char>::empty());
    assert(replace_all(Seq::<char>::empty(), p, v) == Seq::<char>::empty());
    assert(replace_all(t, p, v) =~= v + Seq::<char>::empty());
    assert(replace_all(t, p, v) =~= v);
    let q = path_param(k);
    assert(!param_occurs(v, q)) by {
        if param_occurs(v, q) {
            let i = choose|i: int| 0 <= i <= v.len() && #[trigger] param_at_start(v.skip(i), q);
            let u = v.skip(i);
            assert(u.take(q.len() as int) == q);
            assert(u.take(q.len() as int)[0] == q[0]);
            assert(v[i] == ':');
        }
    }
    lemma_replace_param_absent(v, q, v);
    let vars = seq![(k, v)];
    assert(vars.drop_first() =~= Seq::<(Seq<char>, Seq<char>)>::empty());
    assert(vars[0] == (k, v));
    assert(apply_var(t, k, v) == v);
    assert(interpolate_spec(v, vars.drop_first()) == v);
    assert(interpolate_spec(t, vars) == interpolate_spec(apply_var(t, k, v), vars.drop_first()));
}

/// Interpolating a request applies the variables to each of its texts as
/// to a template of its own: the URL, the query values, the header names and
/// values, the raw body and the form values; the rest is kept.
pub proof fn law_request_texts_interpolated(r: Request, req: Request, vars: Seq<(Seq<char>, Seq<char>)>)
    requires
        interpolated_from(r, req, vars),
    ensures
        r.url@ == interpolate_spec(req.url@, vars),
        forall|i: int| 0 <= i < req.query@.len() ==> (#[trigger] r.query@[i]).value@
            == interpolate_spec(req.query@[i].value@, vars),
        r.query@.len() == req.query@.len(),
        forall|i: int| 0 <= i < req.query@.len() ==> (#[trigger] r.query@[i]).key@
            == req.query@[i].key@ && r.query@[i].enabled == req.query@[i].enabled,
        r.headers@.len() == req.headers@.len(),
        forall|i: int| 0 <= i < req.headers@.len() ==> (#[trigger] r.headers@[i]).value@
            == interpolate_spec(req.headers@[i].value@, vars) && r.headers@[i].key@
            == interpolate_spec(req.headers@[i].key@, vars) && r.headers@[i].enabled
            == req.headers@[i].enabled,
        req.body matches Body::Raw { content } ==> (r.body matches Body::Raw { content: c } && c@
            == interpolate_spec(content@, vars)),
        req.body matches Body::UrlEncoded { fields } ==> (r.body matches Body::UrlEncoded {
            fields: f,
        } && f@.len() == fields@.len() && forall|i: int|
            0 <= i < f@.len() ==> (#[trigger] f@[i]).value@ == interpolate_spec(
                fields@[i].value@,
                vars,
            ) && f@[i].key@ == fields@[i].key@ && f@[i].enabled == fields@[i].enabled),
        req.body is Empty ==> r.body is Empty,
        r.timeout_secs == req.timeout_secs,
        r.follow_redirects == req.follow_redirects,
        r.method@ == req.method@,
        r.name@ == req.name@,
{
}

/// A raw body made of a placeholder of the variable alone is sent with the
/// variable's value in its place, never with the placeholder left in it.
pub proof fn law_raw_body_placeholder_filled(r: Request, req: Request, k: Seq<char>, v: Seq<char>)
    requires
        interpolated_from(r, req, seq![(k, v)]),
        req.body matches Body::Raw { content } && content@ == placeholder(k),
        forall|i: int| 0 <= i < v.len() ==> v[i] != ':',
    ensures
        r.body matches Body::Raw { content: c } && c@ == v,
{
    law_placeholder_becomes_value(k, v);
}

/// A parameter `:k` alone becomes the value of `k` (a name without `{`).
pub proof fn law_param_becomes_value(k: Seq<char>, v: Seq<char>)
    requires
        forall|i: int| 0 <= i < k.len() ==> k[i] != '{',
    ensures
        interpolate_spec(path_param(k), seq![(k, v)]) == v,
{
    let t = path_param(k);
    let p = placeholder(k);
    assert(!contains_seq(t, p)) by {
        if contains_seq(t, p) {
            lemma_find_from_some(t, p, 0);
            let i = find_from(t, p, 0)->0;
            assert(t.subrange(i, i + p.len())[0] == p[0]);
            assert(t[i] == '{');
            if i > 0 {
                assert(t[i] == k[i - 1]);
            }
        }
    }
    lemma_replace_absent(t, p, v);
    assert(t.take(t.len() as int) =~= t);
    assert(t.skip(t.len() as int) =~= Seq::<char>::empty());
    assert(param_at_start(t, t));
    assert(replace_param(Seq::<char>::empty(), t, v) == Seq::<char>::empty());
    assert(replace_param(t, t, v) =~= v);
    let vars = seq![(k, v)];
    assert(vars.drop_first() =~= Seq::<(Seq<char>, Seq<char>)>::empty());
    assert(vars[0] == (k, v));
    assert(apply_var(t, k, v) == v);
    assert(interpolate_spec(v, vars.drop_first()) == v);
    assert(interpolate_spec(t, vars) == interpolate_spec(apply_var(t, k, v), vars.drop_first()));
}

} // verus!
