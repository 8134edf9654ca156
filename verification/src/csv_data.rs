//! Test data from CSV: a header row names the variables, each record gives
//! their values for one iteration.
use vstd::prelude::*;

use crate::text::{push_str, trim_chars, trim_spec, chars_of, string_of};

verus! {

/// What the `csv` crate reads from `bytes` with a header row: the header
/// fields and the records, or `Err(true)` when the header row cannot be read
/// and `Err(false)` when a record cannot.
pub uninterp spec fn csv_parse(bytes: Seq<u8>) -> Result<(Seq<Seq<char>>, Seq<Seq<Seq<char>>>), bool>;

pub open spec fn strings_view(v: Seq<String>) -> Seq<Seq<char>> {
    v.map_values(|s: String| s@)
}

pub open spec fn records_view(v: Seq<Vec<String>>) -> Seq<Seq<Seq<char>>> {
    v.map_values(|r: Vec<String>| strings_view(r@))
}

pub open spec fn table_view(r: Result<(Vec<String>, Vec<Vec<String>>), bool>) -> Result<
    (Seq<Seq<char>>, Seq<Seq<Seq<char>>>),
    bool,
> {
    match r {
        Ok((h, recs)) => Ok((strings_view(h@), records_view(recs@))),
        Err(b) => Err(b),
    }
}

/// Reads CSV bytes with `csv::ReaderBuilder` (header row on): the header
/// fields, then every record as its fields. Stops at the first record that
/// cannot be read. The contract names the result `csv_parse(bytes)`.
#[verifier::external_body]
fn read_csv(bytes: &[u8]) -> (r: Result<(Vec<String>, Vec<Vec<String>>), bool>)
    ensures
        table_view(r) == csv_parse(bytes@),
{
    let mut reader = csv::ReaderBuilder::new().has_headers(true).from_reader(bytes);
    let headers: Vec<String> = match reader.headers() {
        Ok(h) => h.iter().map(|f| f.to_string()).collect(),
        Err(_) => return Err(true),
    };
    let mut records: Vec<Vec<String>> = Vec::new();
    for record in reader.records() {
        match record {
            Ok(rec) => records.push(rec.iter().map(|f| f.to_string()).collect()),
            Err(_) => return Err(false),
        }
    }
    Ok((headers, records))
}

/// The variables of a row, later pairs overriding earlier ones.
pub open spec fn pairs_map(s: Seq<(Seq<char>, Seq<char>)>) -> Map<Seq<char>, Seq<char>>
    decreases s.len(),
{
    if s.len() == 0 {
        Map::empty()
    } else {
        pairs_map(s.drop_last()).insert(s.last().0, s.last().1)
    }
}

pub open spec fn keys_distinct(s: Seq<(Seq<char>, Seq<char>)>) -> bool {
    forall|a: int, b: int| 0 <= a < b < s.len() ==> (#[trigger] s[a]).0 != (#[trigger] s[b]).0
}

pub open spec fn row_view(v: Seq<(String, String)>) -> Seq<(Seq<char>, Seq<char>)> {
    v.map_values(|p: (String, String)| (p.0@, p.1@))
}

/// The row of a record: each header (trimmed) with the field at its position
/// (trimmed), for the positions that both have; a repeated header keeps its
/// last value.
pub open spec fn row_spec(h: Seq<Seq<char>>, rec: Seq<Seq<char>>, n: nat) -> Map<Seq<char>, Seq<char>>
    decreases n,
{
    if n == 0 {
        Map::empty()
    } else if n - 1 < h.len() && n - 1 < rec.len() {
        row_spec(h, rec, (n - 1) as nat).insert(trim_spec(h[n - 1]), trim_spec(rec[n - 1]))
    } else {
        row_spec(h, rec, (n - 1) as nat)
    }
}

pub open spec fn row_of(h: Seq<Seq<char>>, rec: Seq<Seq<char>>) -> Map<Seq<char>, Seq<char>> {
    row_spec(h, rec, h.len())
}

proof fn lemma_pairs_map_update(s: Seq<(Seq<char>, Seq<char>)>, j: int, v: Seq<char>)
    requires
        keys_distinct(s),
        0 <= j < s.len(),
    ensures
        pairs_map(s.update(j, (s[j].0, v))) == pairs_map(s).insert(s[j].0, v),
    decreases s.len(),
{
    let t = s.update(j, (s[j].0, v));
    if j == s.len() - 1 {
        assert(t.drop_last() =~= s.drop_last());
        assert(pairs_map(t) =~= pairs_map(s).insert(s[j].0, v));
    } else {
        assert(t.drop_last() =~= s.drop_last().update(j, (s[j].0, v)));
        lemma_pairs_map_update(s.drop_last(), j, v);
        assert(s.last().0 != s[j].0);
        assert(pairs_map(t) =~= pairs_map(s).insert(s[j].0, v));
    }
}

/// Sets `k` to `v` in the row: in place where `k` is already a key, at the end otherwise.
fn set_var(row: &mut Vec<(String, String)>, k: String, v: String)
    requires
        keys_distinct(row_view(old(row)@)),
    ensures
        keys_distinct(row_view(final(row)@)),
        pairs_map(row_view(final(row)@)) == pairs_map(row_view(old(row)@)).insert(k@, v@),
{
    let ghost before = row_view(row@);
    let mut j: usize = 0;
    while j < row.len()
        invariant
            j <= row@.len(),
            row_view(row@) == before,
            before == row_view(old(row)@),
            keys_distinct(before),
            forall|i: int| 0 <= i < j ==> (#[trigger] row@[i]).0@ != k@,
        decreases row.len() - j,
    {
        if row[j].0 == k {
            assert(before[j as int].0 == k@);
            let key = row[j].0.clone();
            row.set(j, (key, v));
            proof {
                assert(row_view(row@) =~= before.update(j as int, (before[j as int].0, v@)));
                lemma_pairs_map_update(before, j as int, v@);
                let after = row_view(row@);
                assert(pairs_map(after) == pairs_map(before).insert(k@, v@));
                assert(before == row_view(old(row)@));
                assert forall|a: int, b: int| 0 <= a < b < after.len() implies (#[trigger] after[a]).0
                    != (#[trigger] after[b]).0 by {
                    assert(after[a].0 == before[a].0 && after[b].0 == before[b].0);
                }
            }
            return;
        }
        j = j + 1;
    }
    row.push((k, v));
    proof {
        assert(row_view(row@) =~= before.push((k@, v@)));
        assert(row_view(row@).drop_last() =~= before);
    }
}

/// The variables of each record of a table, as [`row_of`] gives them.
pub fn rows_from_table(headers: &Vec<String>, records: &Vec<Vec<String>>) -> (r: Vec<
    Vec<(String, String)>,
>)
    ensures
        r@.len() == records@.len(),
        forall|i: int|
            0 <= i < r@.len() ==> keys_distinct(row_view((#[trigger] r@[i])@)) && pairs_map(
                row_view(r@[i]@),
            ) == row_of(strings_view(headers@), strings_view(records@[i]@)),
{
    let mut rows: Vec<Vec<(String, String)>> = Vec::new();
    let mut i: usize = 0;
    while i < records.len()
        invariant
            i <= records@.len(),
            rows@.len() == i,
            forall|k: int|
                0 <= k < i ==> keys_distinct(row_view((#[trigger] rows@[k])@)) && pairs_map(
                    row_view(rows@[k]@),
                ) == row_of(strings_view(headers@), strings_view(records@[k]@)),
        decreases records.len() - i,
    {
        let rec = &records[i];
        let ghost h = strings_view(headers@);
        let ghost fs = strings_view(rec@);
        let mut row: Vec<(String, String)> = Vec::new();
        let mut j: usize = 0;
        assert(pairs_map(row_view(row@)) =~= row_spec(h, fs, 0));
        while j < headers.len()
            invariant
                j <= headers@.len(),
                h == strings_view(headers@),
                fs == strings_view(rec@),
                keys_distinct(row_view(row@)),
                pairs_map(row_view(row@)) == row_spec(h, fs, j as nat),
            decreases headers.len() - j,
        {
            if j < rec.len() {
                let key = string_of(&trim_chars(&chars_of(headers[j].as_str())));
                let value = string_of(&trim_chars(&chars_of(rec[j].as_str())));
                set_var(&mut row, key, value);
            }
            j = j + 1;
        }
        rows.push(row);
        i = i + 1;
    }
    rows
}

pub open spec fn open_failed_msg(path: Seq<char>) -> Seq<char> {
    "no se pudo abrir el CSV "@ + path
}

pub open spec fn no_headers_msg(path: Seq<char>) -> Seq<char> {
    "CSV sin encabezados en "@ + path
}

pub open spec fn bad_record_msg(path: Seq<char>) -> Seq<char> {
    "CSV inválido en "@ + path
}

/// What loading the CSV file at `path` gives, its content being `content`.
pub open spec fn csv_rows_result(
    path: Seq<char>,
    content: Option<Seq<u8>>,
    r: Result<Vec<Vec<(String, String)>>, String>,
) -> bool {
    match content {
        None => r matches Err(e) && e@ == open_failed_msg(path),
        Some(bytes) => match csv_parse(bytes) {
            Err(true) => r matches Err(e) && e@ == no_headers_msg(path),
            Err(false) => r matches Err(e) && e@ == bad_record_msg(path),
            Ok((h, recs)) => r matches Ok(rows) && rows@.len() == recs.len() && forall|i: int|
                0 <= i < rows@.len() ==> keys_distinct(row_view((#[trigger] rows@[i])@))
                    && pairs_map(row_view(rows@[i]@)) == row_of(h, recs[i]),
        },
    }
}

pub open spec fn bytes_view(content: Option<&[u8]>) -> Option<Seq<u8>> {
    match content {
        Some(b) => Some(b@),
        None => None,
    }
}

/// The rows of the CSV file at `path`, whose content is `content` (`None`
/// when the file could not be opened): one row per record, the header row
/// naming the variables.
pub fn load_csv_rows(path: &str, content: Option<&[u8]>) -> (r: Result<Vec<Vec<(String, String)>>, String>)
    ensures
        csv_rows_result(path@, bytes_view(content), r),
{
    match content {
        None => {
            let mut e = String::new();
            push_str(&mut e, "no se pudo abrir el CSV ");
            push_str(&mut e, path);
            Err(e)
        },
        Some(bytes) => match read_csv(bytes) {
            Err(true) => {
                let mut e = String::new();
                push_str(&mut e, "CSV sin encabezados en ");
                push_str(&mut e, path);
                Err(e)
            },
            Err(false) => {
                let mut e = String::new();
                push_str(&mut e, "CSV inválido en ");
                push_str(&mut e, path);
                Err(e)
            },
            Ok((headers, records)) => {
                let rows = rows_from_table(&headers, &records);
                assert(forall|i: int| 0 <= i < records@.len() ==> strings_view(records@[i]@) == records_view(records@)[i]);
                Ok(rows)
            },
        },
    }
}

/// Loads the rows of a test's CSV file.
pub trait CsvRowLoader {
    fn load(&self, path: &str, content: Option<&[u8]>) -> Result<Vec<Vec<(String, String)>>, String>;
}

/// The loader of local CSV files.
pub struct CsvLoader;

impl CsvRowLoader for CsvLoader {
    fn load(&self, path: &str, content: Option<&[u8]>) -> (r: Result<Vec<Vec<(String, String)>>, String>)
        ensures
            csv_rows_result(path@, bytes_view(content), r),
    {
        load_csv_rows(path, content)
    }
}

} // verus!
