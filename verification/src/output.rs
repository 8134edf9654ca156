//! The lines that the command line prints: a response, a load test report,
//! the tests of a collection and the stored collections.
use vstd::prelude::*;

use crate::model::{Collection, CollectionSummary, LoadTest, LoadTestReport, RequestSummary, Response, ValidationResult};
use crate::text::{chars_of, push_decimal, push_quoted, push_str, decimal, quoted, string_of, sub_chars};

verus! {

pub open spec fn lines_view(v: Seq<String>) -> Seq<Seq<char>> {
    v.map_values(|s: String| s@)
}

fn push_line(out: &mut Vec<String>, l: String)
    ensures
        lines_view(final(out)@) == lines_view(old(out)@).push(l@),
{
    let ghost before = out@;
    out.push(l);
    assert(lines_view(out@) =~= lines_view(before).push(l@));
}

/// `s` without every leading repetition of `p` (`str::trim_start_matches`).
pub open spec fn trim_start_all(s: Seq<char>, p: Seq<char>) -> Seq<char>
    decreases s.len(),
{
    if p.len() > 0 && s.len() >= p.len() && s.take(p.len() as int) == p {
        trim_start_all(s.skip(p.len() as int), p)
    } else {
        s
    }
}

fn trim_start_matches(s: &str, p: &str) -> (r: String)
    ensures
        r@ == trim_start_all(s@, p@),
{
    let cs = chars_of(s);
    let ps = chars_of(p);
    let mut i: usize = 0;
    assert(s@.skip(0) =~= s@);
    while ps.len() > 0 && ps.len() <= cs.len() - i && crate::text::chars_eq(
        &sub_chars(&cs, i, i + ps.len()),
        &ps,
    )
        invariant
            i <= cs@.len(),
            cs@ == s@,
            ps@ == p@,
            trim_start_all(s@, p@) == trim_start_all(s@.skip(i as int), p@),
        decreases cs.len() - i,
    {
        assert(s@.skip(i as int).take(p@.len() as int) =~= s@.subrange(i as int, i + p@.len()));
        assert(s@.skip(i as int).skip(p@.len() as int) =~= s@.skip(i + p@.len()));
        i = i + ps.len();
    }
    proof {
        if ps.len() > 0 && ps.len() <= cs.len() - i {
            assert(s@.skip(i as int).take(p@.len() as int) =~= s@.subrange(i as int, i + p@.len()));
        }
    }
    let rest = sub_chars(&cs, i, cs.len());
    assert(rest@ =~= s@.skip(i as int));
    string_of(&rest)
}

pub open spec fn mark(passed: bool) -> Seq<char> {
    if passed {
        "PASÓ"@
    } else {
        "FALLÓ"@
    }
}

pub open spec fn validation_line(v: ValidationResult) -> Seq<char> {
    "  ["@ + mark(v.passed) + "] "@ + v.name@ + " — "@ + v.detail@
}

pub open spec fn header_line(h: (String, String)) -> Seq<char> {
    h.0@ + ": "@ + h.1@
}

/// The lines printed for a response: status, final URL, time and HTTP
/// version, then the validations, the headers and the body when there are any.
pub open spec fn response_lines_spec(r: Response) -> Seq<Seq<char>> {
    let head = seq![
        decimal(r.status as nat) + " "@ + r.status_text@,
        "URL final: "@ + r.url@,
        "Tiempo: "@ + decimal(r.duration_ms as nat) + " ms | HTTP/"@ + trim_start_all(
            r.http_version@,
            "HTTP/"@,
        ),
        Seq::<char>::empty(),
    ];
    let vals = if r.validation_results@.len() > 0 {
        seq!["Validaciones:"@] + r.validation_results@.map_values(|v: ValidationResult| validation_line(v))
            + seq![Seq::<char>::empty()]
    } else {
        Seq::empty()
    };
    let hdrs = if r.headers@.len() > 0 {
        r.headers@.map_values(|h: (String, String)| header_line(h)) + seq![Seq::<char>::empty()]
    } else {
        Seq::empty()
    };
    let body = match r.body {
        Some(b) => seq![b@],
        None => Seq::empty(),
    };
    head + vals + hdrs + body
}

pub fn response_lines(r: &Response) -> (v: Vec<String>)
    ensures
        lines_view(v@) == response_lines_spec(*r),
{
    let mut out: Vec<String> = Vec::new();
    let mut l = String::new();
    push_decimal(&mut l, r.status as u128);
    push_str(&mut l, " ");
    push_str(&mut l, r.status_text.as_str());
    push_line(&mut out, l);
    let mut l = String::new();
    push_str(&mut l, "URL final: ");
    push_str(&mut l, r.url.as_str());
    push_line(&mut out, l);
    let mut l = String::new();
    push_str(&mut l, "Tiempo: ");
    push_decimal(&mut l, r.duration_ms);
    push_str(&mut l, " ms | HTTP/");
    let version = trim_start_matches(r.http_version.as_str(), "HTTP/");
    push_str(&mut l, version.as_str());
    push_line(&mut out, l);
    push_line(&mut out, String::new());
    let ghost head = lines_view(out@);
    if r.validation_results.len() > 0 {
        push_line(&mut out, "Validaciones:".to_string());
        let mut i: usize = 0;
        while i < r.validation_results.len()
            invariant
                i <= r.validation_results@.len(),
                lines_view(out@) == head + seq!["Validaciones:"@]
                    + r.validation_results@.take(i as int).map_values(
                    |v: ValidationResult| validation_line(v),
                ),
            decreases r.validation_results.len() - i,
        {
            let v = &r.validation_results[i];
            let mut l = String::new();
            push_str(&mut l, "  [");
            push_str(&mut l, if v.passed {
                "PASÓ"
            } else {
                "FALLÓ"
            });
            push_str(&mut l, "] ");
            push_str(&mut l, v.name.as_str());
            push_str(&mut l, " — ");
            push_str(&mut l, v.detail.as_str());
            push_line(&mut out, l);
            assert(r.validation_results@.take(i + 1).map_values(
                |v: ValidationResult| validation_line(v),
            ) =~= r.validation_results@.take(i as int).map_values(
                |v: ValidationResult| validation_line(v),
            ).push(validation_line(*v)));
            i = i + 1;
        }
        push_line(&mut out, String::new());
        assert(r.validation_results@.take(i as int) =~= r.validation_results@);
    }
    let ghost head2 = lines_view(out@);
    if r.headers.len() > 0 {
        let mut i: usize = 0;
        while i < r.headers.len()
            invariant
                i <= r.headers@.len(),
                lines_view(out@) == head2 + r.headers@.take(i as int).map_values(
                    |h: (String, String)| header_line(h),
                ),
            decreases r.headers.len() - i,
        {
            let mut l = String::new();
            push_str(&mut l, r.headers[i].0.as_str());
            push_str(&mut l, ": ");
            push_str(&mut l, r.headers[i].1.as_str());
            push_line(&mut out, l);
            assert(r.headers@.take(i + 1).map_values(|h: (String, String)| header_line(h))
                =~= r.headers@.take(i as int).map_values(|h: (String, String)| header_line(h)).push(
                header_line(r.headers@[i as int]),
            ));
            i = i + 1;
        }
        push_line(&mut out, String::new());
        assert(r.headers@.take(i as int) =~= r.headers@);
    }
    match &r.body {
        Some(b) => push_line(&mut out, b.clone()),
        None => {},
    }
    assert(lines_view(out@) =~= response_lines_spec(*r));
    out
}

pub open spec fn per_request_line(s: RequestSummary) -> Seq<char> {
    "    "@ + s.name@ + " — "@ + decimal(s.total as nat) + " total, "@ + decimal(s.success as nat)
        + " OK, "@ + decimal(s.failed as nat) + " fallidas"@
}

pub open spec fn error_line(e: String) -> Seq<char> {
    "    - "@ + e@
}

/// The lines printed for a load test report.
pub open spec fn report_lines_spec(r: LoadTestReport) -> Seq<Seq<char>> {
    let head = seq![
        Seq::<char>::empty(),
        "== Reporte del test "@ + quoted(r.test_name@) + " ("@ + mark(r.failed == 0) + ") =="@,
        "  Duración: "@ + decimal(r.duration_ms as nat) + " ms"@,
        "  Solicitudes: "@ + decimal(r.total_requests as nat) + " total, "@ + decimal(
            r.success as nat,
        ) + " OK, "@ + decimal(r.failed as nat) + " fallidas"@,
        "  Tiempo por solicitud: promedio "@ + decimal(r.avg_ms as nat) + " ms, p95 "@ + decimal(
            r.p95_ms as nat,
        ) + " ms"@,
    ];
    let per = if r.per_request@.len() > 0 {
        seq![Seq::<char>::empty(), "  Por solicitud:"@] + r.per_request@.map_values(
            |s: RequestSummary| per_request_line(s),
        )
    } else {
        Seq::empty()
    };
    let errs = if r.errors@.len() > 0 {
        seq![Seq::<char>::empty(), "  Errores:"@] + r.errors@.map_values(|e: String| error_line(e))
    } else {
        Seq::empty()
    };
    head + per + errs
}

pub fn report_lines(r: &LoadTestReport) -> (v: Vec<String>)
    ensures
        lines_view(v@) == report_lines_spec(*r),
{
    let mut out: Vec<String> = Vec::new();
    push_line(&mut out, String::new());
    let mut l = String::new();
    push_str(&mut l, "== Reporte del test ");
    push_quoted(&mut l, r.test_name.as_str());
    push_str(&mut l, " (");
    push_str(&mut l, if r.failed == 0 {
        "PASÓ"
    } else {
        "FALLÓ"
    });
    push_str(&mut l, ") ==");
    push_line(&mut out, l);
    let mut l = String::new();
    push_str(&mut l, "  Duración: ");
    push_decimal(&mut l, r.duration_ms);
    push_str(&mut l, " ms");
    push_line(&mut out, l);
    let mut l = String::new();
    push_str(&mut l, "  Solicitudes: ");
    push_decimal(&mut l, r.total_requests as u128);
    push_str(&mut l, " total, ");
    push_decimal(&mut l, r.success as u128);
    push_str(&mut l, " OK, ");
    push_decimal(&mut l, r.failed as u128);
    push_str(&mut l, " fallidas");
    push_line(&mut out, l);
    let mut l = String::new();
    push_str(&mut l, "  Tiempo por solicitud: promedio ");
    push_decimal(&mut l, r.avg_ms);
    push_str(&mut l, " ms, p95 ");
    push_decimal(&mut l, r.p95_ms);
    push_str(&mut l, " ms");
    push_line(&mut out, l);
    let ghost head = lines_view(out@);
    if r.per_request.len() > 0 {
        push_line(&mut out, String::new());
        push_line(&mut out, "  Por solicitud:".to_string());
        let ghost h1 = lines_view(out@);
        let mut i: usize = 0;
        while i < r.per_request.len()
            invariant
                i <= r.per_request@.len(),
                lines_view(out@) == h1 + r.per_request@.take(i as int).map_values(
                    |s: RequestSummary| per_request_line(s),
                ),
            decreases r.per_request.len() - i,
        {
            let s = &r.per_request[i];
            let mut l = String::new();
            push_str(&mut l, "    ");
            push_str(&mut l, s.name.as_str());
            push_str(&mut l, " — ");
            push_decimal(&mut l, s.total as u128);
            push_str(&mut l, " total, ");
            push_decimal(&mut l, s.success as u128);
            push_str(&mut l, " OK, ");
            push_decimal(&mut l, s.failed as u128);
            push_str(&mut l, " fallidas");
            push_line(&mut out, l);
            assert(r.per_request@.take(i + 1).map_values(|s: RequestSummary| per_request_line(s))
                =~= r.per_request@.take(i as int).map_values(
                |s: RequestSummary| per_request_line(s),
            ).push(per_request_line(*s)));
            i = i + 1;
        }
        assert(r.per_request@.take(i as int) =~= r.per_request@);
    }
    let ghost head2 = lines_view(out@);
    if r.errors.len() > 0 {
        push_line(&mut out, String::new());
        push_line(&mut out, "  Errores:".to_string());
        let ghost h1 = lines_view(out@);
        let mut i: usize = 0;
        while i < r.errors.len()
            invariant
                i <= r.errors@.len(),
                lines_view(out@) == h1 + r.errors@.take(i as int).map_values(
                    |e: String| error_line(e),
                ),
            decreases r.errors.len() - i,
        {
            let mut l = String::new();
            push_str(&mut l, "    - ");
            push_str(&mut l, r.errors[i].as_str());
            push_line(&mut out, l);
            assert(r.errors@.take(i + 1).map_values(|e: String| error_line(e)) =~= r.errors@.take(
                i as int,
            ).map_values(|e: String| error_line(e)).push(error_line(r.errors@[i as int])));
            i = i + 1;
        }
        assert(r.errors@.take(i as int) =~= r.errors@);
    }
    assert(lines_view(out@) =~= report_lines_spec(*r));
    out
}

/// `names` joined with `, `.
pub open spec fn join_names(names: Seq<String>) -> Seq<char>
    decreases names.len(),
{
    if names.len() == 0 {
        Seq::empty()
    } else if names.len() == 1 {
        names[0]@
    } else {
        join_names(names.drop_last()) + ", "@ + names.last()@
    }
}

pub open spec fn test_line(t: LoadTest) -> Seq<char> {
    let scope = if t.request_names@.len() == 0 {
        "todas las solicitudes"@
    } else {
        join_names(t.request_names@)
    };
    let csv = if t.csv is Some {
        " | con CSV"@
    } else {
        Seq::empty()
    };
    "  "@ + t.name@ + " — "@ + decimal(t.iterations as nat) + " iteración(es), delay "@ + decimal(
        t.delay_ms as nat,
    ) + " ms, "@ + scope + " "@ + csv
}

/// The lines printed for the tests of a collection.
pub open spec fn test_list_lines_spec(c: Collection) -> Seq<Seq<char>> {
    if c.tests@.len() == 0 {
        seq!["La colección "@ + quoted(c.name@) + " no tiene tests definidos."@]
    } else {
        seq!["Tests de "@ + quoted(c.name@) + ":"@] + c.tests@.map_values(|t: LoadTest| test_line(t))
    }
}

fn push_joined(out: &mut String, names: &Vec<String>)
    ensures
        final(out)@ == old(out)@ + join_names(names@),
{
    let mut i: usize = 0;
    while i < names.len()
        invariant
            i <= names@.len(),
            out@ == old(out)@ + join_names(names@.take(i as int)),
        decreases names.len() - i,
    {
        if i > 0 {
            push_str(out, ", ");
        }
        push_str(out, names[i].as_str());
        assert(names@.take(i + 1).drop_last() =~= names@.take(i as int));
        proof {
            if i == 0 {
                assert(join_names(names@.take(1)) == names@[0]@);
            }
        }
        i = i + 1;
    }
    assert(names@.take(i as int) =~= names@);
}

pub fn test_list_lines(c: &Collection) -> (v: Vec<String>)
    ensures
        lines_view(v@) == test_list_lines_spec(*c),
{
    let mut out: Vec<String> = Vec::new();
    if c.tests.len() == 0 {
        let mut l = String::new();
        push_str(&mut l, "La colección ");
        push_quoted(&mut l, c.name.as_str());
        push_str(&mut l, " no tiene tests definidos.");
        push_line(&mut out, l);
        assert(lines_view(out@) =~= test_list_lines_spec(*c));
        return out;
    }
    let mut l = String::new();
    push_str(&mut l, "Tests de ");
    push_quoted(&mut l, c.name.as_str());
    push_str(&mut l, ":");
    push_line(&mut out, l);
    let ghost h1 = lines_view(out@);
    let mut i: usize = 0;
    while i < c.tests.len()
        invariant
            i <= c.tests@.len(),
            lines_view(out@) == h1 + c.tests@.take(i as int).map_values(|t: LoadTest| test_line(t)),
        decreases c.tests.len() - i,
    {
        let t = &c.tests[i];
        let mut l = String::new();
        push_str(&mut l, "  ");
        push_str(&mut l, t.name.as_str());
        push_str(&mut l, " — ");
        push_decimal(&mut l, t.iterations as u128);
        push_str(&mut l, " iteración(es), delay ");
        push_decimal(&mut l, t.delay_ms as u128);
        push_str(&mut l, " ms, ");
        if t.request_names.len() == 0 {
            push_str(&mut l, "todas las solicitudes");
        } else {
            push_joined(&mut l, &t.request_names);
        }
        push_str(&mut l, " ");
        if t.csv.is_some() {
            push_str(&mut l, " | con CSV");
        }
        assert(l@ =~= test_line(*t));
        push_line(&mut out, l);
        assert(c.tests@.take(i + 1).map_values(|t: LoadTest| test_line(t)) =~= c.tests@.take(
            i as int,
        ).map_values(|t: LoadTest| test_line(t)).push(test_line(*t)));
        i = i + 1;
    }
    assert(c.tests@.take(i as int) =~= c.tests@);
    assert(lines_view(out@) =~= test_list_lines_spec(*c));
    out
}

pub open spec fn summary_line(s: CollectionSummary) -> Seq<char> {
    "  "@ + s.name@ + "  ("@ + decimal(s.size as nat) + " bytes)"@
}

/// The lines printed for the stored collections of directory `dir`.
pub open spec fn collection_list_lines_spec(dir: Seq<char>, cs: Seq<CollectionSummary>) -> Seq<Seq<char>> {
    if cs.len() == 0 {
        seq!["No hay colecciones guardadas en "@ + dir]
    } else {
        seq!["Colecciones en "@ + dir + ":"@] + cs.map_values(|s: CollectionSummary| summary_line(s))
    }
}

pub fn collection_list_lines(dir: &str, cs: &Vec<CollectionSummary>) -> (v: Vec<String>)
    ensures
        lines_view(v@) == collection_list_lines_spec(dir@, cs@),
{
    let mut out: Vec<String> = Vec::new();
    if cs.len() == 0 {
        let mut l = String::new();
        push_str(&mut l, "No hay colecciones guardadas en ");
        push_str(&mut l, dir);
        push_line(&mut out, l);
        assert(lines_view(out@) =~= collection_list_lines_spec(dir@, cs@));
        return out;
    }
    let mut l = String::new();
    push_str(&mut l, "Colecciones en ");
    push_str(&mut l, dir);
    push_str(&mut l, ":");
    push_line(&mut out, l);
    let ghost h1 = lines_view(out@);
    let mut i: usize = 0;
    while i < cs.len()
        invariant
            i <= cs@.len(),
            lines_view(out@) == h1 + cs@.take(i as int).map_values(
                |s: CollectionSummary| summary_line(s),
            ),
        decreases cs.len() - i,
    {
        let mut l = String::new();
        push_str(&mut l, "  ");
        push_str(&mut l, cs[i].name.as_str());
        push_str(&mut l, "  (");
        push_decimal(&mut l, cs[i].size as u128);
        push_str(&mut l, " bytes)");
        push_line(&mut out, l);
        assert(cs@.take(i + 1).map_values(|s: CollectionSummary| summary_line(s)) =~= cs@.take(
            i as int,
        ).map_values(|s: CollectionSummary| summary_line(s)).push(summary_line(cs@[i as int])));
        i = i + 1;
    }
    assert(cs@.take(i as int) =~= cs@);
    assert(lines_view(out@) =~= collection_list_lines_spec(dir@, cs@));
    out
}

/// The line printed once a collection is saved at `path`.
pub fn saved_line(name: &str, path: &str) -> (r: String)
    ensures
        r@ == "Colección "@ + quoted(name@) + " guardada en "@ + path@,
{
    let mut l = String::new();
    push_str(&mut l, "Colección ");
    push_quoted(&mut l, name);
    push_str(&mut l, " guardada en ");
    push_str(&mut l, path);
    l
}

/// The line printed once an empty collection is created at `path`.
pub fn created_line(path: &str) -> (r: String)
    ensures
        r@ == "Colección vacía creada en "@ + path@,
{
    let mut l = String::new();
    push_str(&mut l, "Colección vacía creada en ");
    push_str(&mut l, path);
    l
}

/// The line printed once a collection is deleted.
pub fn deleted_line(name: &str) -> (r: String)
    ensures
        r@ == "Colección "@ + quoted(name@) + " eliminada."@,
{
    let mut l = String::new();
    push_str(&mut l, "Colección ");
    push_quoted(&mut l, name);
    push_str(&mut l, " eliminada.");
    l
}

/// The line printed when a load test starts.
pub fn starting_line(test: &str) -> (r: String)
    ensures
        r@ == "Ejecutando test "@ + quoted(test@) + " (Ctrl+C para detener)..."@,
{
    let mut l = String::new();
    push_str(&mut l, "Ejecutando test ");
    push_quoted(&mut l, test);
    push_str(&mut l, " (Ctrl+C para detener)...");
    l
}

/// The progress line printed while a load test runs.
pub fn progress_line(done: u64, total: u64) -> (r: String)
    ensures
        r@ == "  "@ + decimal(done as nat) + " de "@ + decimal(total as nat) + " solicitudes"@,
{
    let mut l = String::new();
    push_str(&mut l, "  ");
    push_decimal(&mut l, done as u128);
    push_str(&mut l, " de ");
    push_decimal(&mut l, total as u128);
    push_str(&mut l, " solicitudes");
    l
}

} // verus!
