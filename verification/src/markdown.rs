//! Markdown export of a collection: one `##` section per request with its
//! method, URL (query included), headers, body and validations.
use vstd::prelude::*;

use crate::model::{validation_name, Body, Collection, KeyValue, Request, Validation};
use crate::text::{
    chars_of, contains_seq, find_chars, find_from, index_of_char, matches_at, push_str, string_of,
    sub_chars,
};

verus! {

// ---------------------------------------------------------------------------
// Specifications
// ---------------------------------------------------------------------------

pub open spec fn any_enabled(kvs: Seq<KeyValue>) -> bool {
    exists|i: int| 0 <= i < kvs.len() && (#[trigger] kvs[i]).enabled
}

/// `key sep value` lines of the enabled pairs, in order.
pub open spec fn kv_lines(kvs: Seq<KeyValue>, sep: Seq<char>) -> Seq<char>
    decreases kvs.len(),
{
    if kvs.len() == 0 {
        Seq::empty()
    } else {
        kv_lines(kvs.drop_last(), sep) + if kvs.last().enabled {
            kvs.last().key@ + sep + kvs.last().value@ + "\n"@
        } else {
            Seq::empty()
        }
    }
}

/// `key=value` of the enabled pairs joined by `&`.
pub open spec fn query_join(kvs: Seq<KeyValue>) -> Seq<char>
    decreases kvs.len(),
{
    if kvs.len() == 0 {
        Seq::empty()
    } else {
        let prev = query_join(kvs.drop_last());
        let item = kvs.last().key@ + "="@ + kvs.last().value@;
        if !kvs.last().enabled {
            prev
        } else if any_enabled(kvs.drop_last()) {
            prev + "&"@ + item
        } else {
            item
        }
    }
}

/// URL with its enabled query pairs appended.
pub open spec fn full_url_spec(r: Request) -> Seq<char> {
    if !any_enabled(r.query@) {
        r.url@
    } else {
        r.url@ + (if contains_seq(r.url@, seq!['?']) {
            seq!['&']
        } else {
            seq!['?']
        }) + query_join(r.query@)
    }
}

/// Path of a URL: what follows `scheme://host`, up to `?` or `#`; `/` when none.
pub open spec fn url_path_spec(url: Seq<char>) -> Seq<char> {
    let after = match find_from(url, seq![':', '/', '/'], 0) {
        Some(i) => url.skip(i + 3),
        None => url,
    };
    let path = match index_of_char(after, '/') {
        Some(i) => after.skip(i),
        None => seq!['/'],
    };
    let cut = match first_query_or_fragment(path, 0) {
        Some(i) => path.take(i),
        None => path,
    };
    if cut.len() == 0 {
        seq!['/']
    } else {
        cut
    }
}

/// Index of the first `?` or `#` at or after `i`.
pub open spec fn first_query_or_fragment(s: Seq<char>, i: int) -> Option<int>
    decreases s.len() - i,
{
    if i < 0 || i >= s.len() {
        None
    } else if s[i] == '?' || s[i] == '#' {
        Some(i)
    } else {
        first_query_or_fragment(s, i + 1)
    }
}

pub open spec fn validation_lines(vs: Seq<Validation>) -> Seq<char>
    decreases vs.len(),
{
    if vs.len() == 0 {
        Seq::empty()
    } else {
        validation_lines(vs.drop_last()) + "- "@ + validation_name(vs.last()) + "\n"@
    }
}

pub open spec fn headers_md(r: Request) -> Seq<char> {
    if any_enabled(r.headers@) {
        "**Headers**\n\n```text\n"@ + kv_lines(r.headers@, ": "@) + "```\n\n"@
    } else {
        Seq::empty()
    }
}

pub open spec fn body_md(r: Request) -> Seq<char> {
    match r.body {
        Body::Empty => Seq::empty(),
        Body::Raw { content } => "**Body**\n\n```json\n"@ + content@ + "\n```\n\n"@,
        Body::UrlEncoded { fields } => "**Body (urlencoded)**\n\n```text\n"@ + kv_lines(
            fields@,
            "="@,
        ) + "```\n\n"@,
    }
}

pub open spec fn validations_md(r: Request) -> Seq<char> {
    if r.validations@.len() > 0 {
        "**Validaciones**\n\n"@ + validation_lines(r.validations@) + "\n"@
    } else {
        Seq::empty()
    }
}

/// Section of one request.
pub open spec fn request_md(r: Request) -> Seq<char> {
    request_head_md(r) + headers_md(r) + body_md(r) + validations_md(r)
}

/// Sections of the requests, separated by `---` rules.
pub open spec fn sections_md(rs: Seq<Request>) -> Seq<char>
    decreases rs.len(),
{
    if rs.len() == 0 {
        Seq::empty()
    } else {
        sections_md(rs.drop_last()) + (if rs.len() > 1 {
            "---\n\n"@
        } else {
            Seq::empty()
        }) + request_md(rs.last())
    }
}

/// The whole document of a collection.
pub open spec fn collection_md(c: Collection) -> Seq<char> {
    "# "@ + c.name@ + "\n\n"@ + sections_md(c.requests@) + (if c.requests@.len() == 0 {
        "_(sin solicitudes)_\n\n"@
    } else {
        Seq::empty()
    }) + "---\n\n_Generado desde la colección "@ + "`"@ + c.name@ + ".json`_"@ + "\n"@
}

// ---------------------------------------------------------------------------
// Executable functions
// ---------------------------------------------------------------------------

fn push_kv_lines(out: &mut String, kvs: &Vec<KeyValue>, sep: &str)
    ensures
        final(out)@ == old(out)@ + kv_lines(kvs@, sep@),
{
    let mut i: usize = 0;
    while i < kvs.len()
        invariant
            i <= kvs.len(),
            out@ == old(out)@ + kv_lines(kvs@.take(i as int), sep@),
        decreases kvs.len() - i,
    {
        let ghost before = out@;
        if kvs[i].enabled {
            push_str(out, kvs[i].key.as_str());
            push_str(out, sep);
            push_str(out, kvs[i].value.as_str());
            push_str(out, "\n");
        }
        proof {
            assert(kvs@.take(i + 1).drop_last() =~= kvs@.take(i as int));
            let tail = if kvs@[i as int].enabled {
                kvs@[i as int].key@ + sep@ + kvs@[i as int].value@ + "\n"@
            } else {
                Seq::empty()
            };
            assert(out@ =~= before + tail);
            assert(old(out)@ + kv_lines(kvs@.take(i + 1), sep@) =~= old(out)@ + kv_lines(
                kvs@.take(i as int),
                sep@,
            ) + tail);
        }
        i = i + 1;
    }
    assert(kvs@.take(kvs.len() as int) =~= kvs@);
}

proof fn lemma_query_join_empty(kvs: Seq<KeyValue>)
    requires
        !any_enabled(kvs),
    ensures
        query_join(kvs) == Seq::<char>::empty(),
    decreases kvs.len(),
{
    if kvs.len() > 0 {
        assert(!kvs[kvs.len() - 1].enabled);
        assert forall|i: int| 0 <= i < kvs.drop_last().len() implies !(#[trigger] kvs.drop_last()[i]).enabled by {
            assert(kvs.drop_last()[i] == kvs[i]);
        }
        lemma_query_join_empty(kvs.drop_last());
    }
}

fn has_enabled(kvs: &Vec<KeyValue>) -> (r: bool)
    ensures
        r == any_enabled(kvs@),
{
    let mut i: usize = 0;
    while i < kvs.len()
        invariant
            i <= kvs.len(),
            forall|k: int| 0 <= k < i ==> !(#[trigger] kvs@[k]).enabled,
        decreases kvs.len() - i,
    {
        if kvs[i].enabled {
            return true;
        }
        i = i + 1;
    }
    false
}

/// URL with the enabled query pairs appended (`?` or `&`, then `k=v&...`).
pub fn full_url(req: &Request) -> (r: String)
    ensures
        r@ == full_url_spec(*req),
{
    if !has_enabled(&req.query) {
        return req.url.clone();
    }
    let url = chars_of(req.url.as_str());
    let q: Vec<char> = vec!['?'];
    assert(q@ =~= seq!['?']);
    let mut out = req.url.clone();
    if find_chars(&url, &q, 0).is_some() {
        push_str(&mut out, "&");
        proof {
            reveal_strlit("&");
        }
    } else {
        push_str(&mut out, "?");
        proof {
            reveal_strlit("?");
        }
    }
    let ghost head = out@;
    let kvs = &req.query;
    let mut first = true;
    let mut i: usize = 0;
    while i < kvs.len()
        invariant
            i <= kvs.len(),
            kvs == &req.query,
            out@ == head + query_join(kvs@.take(i as int)),
            first == !any_enabled(kvs@.take(i as int)),
        decreases kvs.len() - i,
    {
        let ghost before = out@;
        let ghost s = kvs@.take(i + 1);
        assert(s.drop_last() =~= kvs@.take(i as int));
        if kvs[i].enabled {
            if !first {
                push_str(&mut out, "&");
            }
            push_str(&mut out, kvs[i].key.as_str());
            push_str(&mut out, "=");
            push_str(&mut out, kvs[i].value.as_str());
            proof {
                assert(s.last() == kvs@[i as int]);
                assert(s[i as int].enabled);
                if first {
                    lemma_query_join_empty(s.drop_last());
                }
                let item = kvs@[i as int].key@ + "="@ + kvs@[i as int].value@;
                if first {
                    assert(out@ =~= head + item);
                } else {
                    assert(out@ =~= head + (query_join(s.drop_last()) + "&"@ + item));
                }
            }
            first = false;
        } else {
            proof {
                if any_enabled(s) {
                    let k = choose|k: int| 0 <= k < s.len() && s[k].enabled;
                    assert(s.drop_last()[k].enabled);
                }
                if any_enabled(s.drop_last()) {
                    let k = choose|k: int| 0 <= k < s.drop_last().len() && s.drop_last()[k].enabled;
                    assert(s[k].enabled);
                }
            }
        }
        proof {
            if kvs@[i as int].enabled {
                if any_enabled(s.drop_last()) {
                    let k = choose|k: int| 0 <= k < s.drop_last().len() && s.drop_last()[k].enabled;
                    assert(s[k].enabled);
                }
            }
        }
        i = i + 1;
    }
    assert(kvs@.take(kvs.len() as int) =~= kvs@);
    out
}

fn first_query_or_fragment_exec(s: &Vec<char>, from: usize) -> (r: Option<usize>)
    ensures
        match r {
            Some(i) => first_query_or_fragment(s@, from as int) == Some(i as int),
            None => first_query_or_fragment(s@, from as int) is None,
        },
{
    let mut i = from;
    while i < s.len()
        invariant
            from <= i,
            first_query_or_fragment(s@, from as int) == first_query_or_fragment(s@, i as int),
        decreases s.len() - i,
    {
        if s[i] == '?' || s[i] == '#' {
            return Some(i);
        }
        i = i + 1;
    }
    None
}

/// Path of a URL (no scheme, host, query or fragment), for section titles.
pub fn url_path(url: &str) -> (r: String)
    ensures
        r@ == url_path_spec(url@),
{
    let u = chars_of(url);
    let sep: Vec<char> = vec![':', '/', '/'];
    assert(sep@ =~= seq![':', '/', '/']);
    let after = match find_chars(&u, &sep, 0) {
        Some(i) => {
            proof {
                crate::text::lemma_find_from_some(u@, sep@, 0);
            }
            assert(i + 3 <= u.len());
            sub_chars(&u, i + 3, u.len())
        },
        None => sub_chars(&u, 0, u.len()),
    };
    assert(u@.subrange(0, u@.len() as int) =~= u@);
    proof {
        if let Some(i) = find_from(u@, seq![':', '/', '/'], 0) {
            assert(u@.subrange(i + 3, u@.len() as int) =~= u@.skip(i + 3));
        }
    }
    let slash: Vec<char> = vec!['/'];
    assert(slash@ =~= seq!['/']);
    let path = match find_chars(&after, &slash, 0) {
        Some(i) => {
            proof {
                crate::text::lemma_find_from_some(after@, seq!['/'], 0);
            }
            let p = sub_chars(&after, i, after.len());
            assert(p@ =~= after@.skip(i as int));
            p
        },
        None => slash,
    };
    let cut = match first_query_or_fragment_exec(&path, 0) {
        Some(i) => {
            proof {
                lemma_first_qf_range(path@, 0);
            }
            let c = sub_chars(&path, 0, i);
            assert(c@ =~= path@.take(i as int));
            c
        },
        None => path,
    };
    if cut.len() == 0 {
        let v: Vec<char> = vec!['/'];
        assert(v@ =~= seq!['/']);
        string_of(&v)
    } else {
        string_of(&cut)
    }
}

proof fn lemma_first_qf_range(s: Seq<char>, i: int)
    ensures
        first_query_or_fragment(s, i) matches Some(j) ==> i <= j < s.len(),
    decreases s.len() - i,
{
    if 0 <= i < s.len() && !(s[i] == '?' || s[i] == '#') {
        lemma_first_qf_range(s, i + 1);
    }
}

pub open spec fn request_head_md(r: Request) -> Seq<char> {
    "## "@ + r.method@ + " "@ + url_path_spec(r.url@) + " — "@ + r.name@ + "\n\n"@
        + "- **Método:** "@ + r.method@ + "\n"@ + "- **URL:** "@ + full_url_spec(r) + "\n\n"@
}

fn push_request_head(out: &mut String, req: &Request)
    ensures
        final(out)@ == old(out)@ + request_head_md(*req),
{
    let path = url_path(req.url.as_str());
    let url = full_url(req);
    push_str(out, "## ");
    push_str(out, req.method.as_str());
    push_str(out, " ");
    push_str(out, path.as_str());
    push_str(out, " — ");
    push_str(out, req.name.as_str());
    push_str(out, "\n\n");
    push_str(out, "- **Método:** ");
    push_str(out, req.method.as_str());
    push_str(out, "\n");
    push_str(out, "- **URL:** ");
    push_str(out, url.as_str());
    push_str(out, "\n\n");
    assert(out@ =~= old(out)@ + request_head_md(*req));
}

fn push_headers(out: &mut String, req: &Request)
    ensures
        final(out)@ == old(out)@ + headers_md(*req),
{
    if has_enabled(&req.headers) {
        push_str(out, "**Headers**\n\n```text\n");
        push_kv_lines(out, &req.headers, ": ");
        push_str(out, "```\n\n");
    }
    assert(out@ =~= old(out)@ + headers_md(*req));
}

fn push_body(out: &mut String, req: &Request)
    ensures
        final(out)@ == old(out)@ + body_md(*req),
{
    match &req.body {
        Body::Empty => {},
        Body::Raw { content } => {
            push_str(out, "**Body**\n\n```json\n");
            push_str(out, content.as_str());
            push_str(out, "\n```\n\n");
        },
        Body::UrlEncoded { fields } => {
            push_str(out, "**Body (urlencoded)**\n\n```text\n");
            push_kv_lines(out, fields, "=");
            push_str(out, "```\n\n");
        },
    }
    assert(out@ =~= old(out)@ + body_md(*req));
}

fn push_validations(out: &mut String, req: &Request)
    ensures
        final(out)@ == old(out)@ + validations_md(*req),
{
    if req.validations.len() > 0 {
        push_str(out, "**Validaciones**\n\n");
        let ghost d = out@;
        assert(req.validations@.take(0) =~= Seq::<Validation>::empty());
        assert(d + Seq::<char>::empty() =~= d);
        let mut i: usize = 0;
        while i < req.validations.len()
            invariant
                i <= req.validations.len(),
                out@ == d + validation_lines(req.validations@.take(i as int)),
            decreases req.validations.len() - i,
        {
            assert(req.validations@.take(i + 1).drop_last() =~= req.validations@.take(i as int));
            push_str(out, "- ");
            push_str(out, req.validations[i].name());
            push_str(out, "\n");
            assert(out@ =~= d + validation_lines(req.validations@.take(i + 1)));
            i = i + 1;
        }
        assert(req.validations@.take(req.validations.len() as int) =~= req.validations@);
        push_str(out, "\n");
    }
    assert(out@ =~= old(out)@ + validations_md(*req));
}

fn push_request(out: &mut String, req: &Request)
    ensures
        final(out)@ == old(out)@ + request_md(*req),
{
    push_request_head(out, req);
    push_headers(out, req);
    push_body(out, req);
    push_validations(out, req);
    assert(out@ =~= old(out)@ + request_md(*req));
}

/// The collection as a Markdown document (one section per request).
pub fn collection_to_markdown(collection: &Collection) -> (r: String)
    ensures
        r@ == collection_md(*collection),
{
    let mut out = String::new();
    push_str(&mut out, "# ");
    push_str(&mut out, collection.name.as_str());
    push_str(&mut out, "\n\n");
    let ghost head = out@;
    let rs = &collection.requests;
    let mut i: usize = 0;
    while i < rs.len()
        invariant
            i <= rs.len(),
            rs == &collection.requests,
            out@ == head + sections_md(rs@.take(i as int)),
        decreases rs.len() - i,
    {
        assert(rs@.take(i + 1).drop_last() =~= rs@.take(i as int));
        if i > 0 {
            push_str(&mut out, "---\n\n");
        }
        push_request(&mut out, &rs[i]);
        i = i + 1;
    }
    assert(rs@.take(rs.len() as int) =~= rs@);
    let ghost mid = out@;
    if rs.len() == 0 {
        push_str(&mut out, "_(sin solicitudes)_\n\n");
    }
    let ghost mid2 = out@;
    push_str(&mut out, "---\n\n_Generado desde la colección ");
    push_str(&mut out, "`");
    push_str(&mut out, collection.name.as_str());
    push_str(&mut out, ".json`_");
    push_str(&mut out, "\n");
    assert(out@ =~= collection_md(*collection));
    out
}

/// The line of one validation in the `**Validaciones**` section.
pub open spec fn validation_line(v: Validation) -> Seq<char> {
    "- "@ + validation_name(v) + "\n"@
}

/// Adding a validation to a request adds exactly its line at the end of the
/// section, after the lines of the validations before it.
pub proof fn law_validation_lines_grow(vs: Seq<Validation>, v: Validation)
    ensures
        validation_lines(vs.push(v)) == validation_lines(vs) + validation_line(v),
        validation_lines(Seq::<Validation>::empty()).len() == 0,
{
    assert(vs.push(v).drop_last() =~= vs);
    assert(vs.push(v).last() == v);
}

/// `l` stands at some position of `s`.
pub open spec fn occurs_in(s: Seq<char>, l: Seq<char>) -> bool {
    exists|i: int| #[trigger] matches_at(s, l, i)
}

/// Every validation of a request has its line in the section.
pub proof fn law_validation_lines_list_each(vs: Seq<Validation>)
    ensures
        forall|k: int| 0 <= k < vs.len() ==> occurs_in(validation_lines(vs), validation_line(#[trigger] vs[k])),
    decreases vs.len(),
{
    if vs.len() > 0 {
        let init = vs.drop_last();
        law_validation_lines_list_each(init);
        let l0 = validation_lines(init);
        let all = validation_lines(vs);
        assert(all =~= l0 + validation_line(vs.last()));
        assert forall|k: int| 0 <= k < vs.len() implies occurs_in(all, validation_line(#[trigger] vs[k])) by {
            let line = validation_line(vs[k]);
            if k == vs.len() - 1 {
                assert(all.subrange(l0.len() as int, l0.len() as int + line.len()) =~= line);
                assert(matches_at(all, line, l0.len() as int));
            } else {
                assert(init[k] == vs[k]);
                assert(occurs_in(l0, validation_line(init[k])));
                let i = choose|i: int| matches_at(l0, validation_line(init[k]), i);
                assert(all.subrange(i, i + line.len()) =~= l0.subrange(i, i + line.len()));
                assert(matches_at(all, line, i));
            }
        }
    }
}

/// A request with validations gets the section `**Validaciones**` holding
/// one line per validation, in order; one without gets no section.
pub proof fn law_validations_section(r: Request)
    ensures
        r.validations@.len() == 0 ==> validations_md(r) == Seq::<char>::empty(),
        r.validations@.len() > 0 ==> validations_md(r) == "**Validaciones**\n\n"@ + validation_lines(
            r.validations@,
        ) + "\n"@,
{
}

/// Adding a pair to a list adds its `key sep value` line at the end when it
/// is enabled, and nothing when it is not.
pub proof fn law_kv_lines_grow(kvs: Seq<KeyValue>, kv: KeyValue, sep: Seq<char>)
    ensures
        kv.enabled ==> kv_lines(kvs.push(kv), sep) == kv_lines(kvs, sep) + kv.key@ + sep + kv.value@
            + "\n"@,
        !kv.enabled ==> kv_lines(kvs.push(kv), sep) == kv_lines(kvs, sep),
{
    assert(kvs.push(kv).drop_last() =~= kvs);
    assert(kvs.push(kv).last() == kv);
}

/// Pairs that are all disabled give no lines (and no section).
pub proof fn law_disabled_pairs_give_no_lines(kvs: Seq<KeyValue>, sep: Seq<char>)
    requires
        forall|i: int| 0 <= i < kvs.len() ==> !(#[trigger] kvs[i]).enabled,
    ensures
        kv_lines(kvs, sep) == Seq::<char>::empty(),
        !any_enabled(kvs),
    decreases kvs.len(),
{
    if kvs.len() > 0 {
        let init = kvs.drop_last();
        assert forall|i: int| 0 <= i < init.len() implies !(#[trigger] init[i]).enabled by {
            assert(init[i] == kvs[i]);
        }
        law_disabled_pairs_give_no_lines(init, sep);
        assert(!kvs[kvs.len() - 1].enabled);
    }
}

} // verus!
