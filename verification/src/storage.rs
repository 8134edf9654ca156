//! Where stored collections live: the directory, the file of each collection
//! and the names read back from a listing of that directory.
use vstd::prelude::*;

use crate::model::CollectionSummary;
use crate::text::{chars_of, lemma_text_lt_total, lemma_text_lt_transitive, push_char, push_str, string_of, sub_chars, text_less, text_lt};

verus! {

/// Characters that cannot stand in a file name on common systems.
pub open spec fn is_reserved(c: char) -> bool {
    c == '/' || c == '\\' || c == ':' || c == '*' || c == '?' || c == '"' || c == '<' || c == '>'
        || c == '|'
}

pub open spec fn sanitize_char(c: char) -> char {
    if is_reserved(c) {
        '_'
    } else {
        c
    }
}

/// `s` with every reserved character replaced by `_`.
pub open spec fn sanitize_spec(s: Seq<char>) -> Seq<char> {
    s.map_values(|c: char| sanitize_char(c))
}

/// A file name for the collection named `name`: reserved characters become `_`.
pub fn sanitize_name(name: &str) -> (r: String)
    ensures
        r@ == sanitize_spec(name@),
{
    let cs = chars_of(name);
    let mut out = String::new();
    let mut i: usize = 0;
    while i < cs.len()
        invariant
            i <= cs.len(),
            cs@ == name@,
            out@ == sanitize_spec(name@.take(i as int)),
        decreases cs.len() - i,
    {
        let c = cs[i];
        let d = if c == '/' || c == '\\' || c == ':' || c == '*' || c == '?' || c == '"' || c
            == '<' || c == '>' || c == '|' {
            '_'
        } else {
            c
        };
        push_char(&mut out, d);
        assert(name@.take(i + 1) =~= name@.take(i as int).push(c));
        assert(sanitize_spec(name@.take(i + 1)) =~= sanitize_spec(name@.take(i as int)).push(d));
        i = i + 1;
    }
    assert(name@.take(cs.len() as int) =~= name@);
    out
}

/// `dir` joined with `part`, as `Path::join` does on Unix: an absolute part
/// replaces the directory, and a separator is added only where one is missing.
pub open spec fn join_spec(dir: Seq<char>, part: Seq<char>) -> Seq<char> {
    if part.len() > 0 && part[0] == '/' {
        part
    } else if dir.len() == 0 {
        part
    } else if dir.last() == '/' {
        dir + part
    } else {
        dir + seq!['/'] + part
    }
}

pub fn join_path(dir: &str, part: &str) -> (r: String)
    ensures
        r@ == join_spec(dir@, part@),
{
    let d = chars_of(dir);
    let p = chars_of(part);
    if p.len() > 0 && p[0] == '/' {
        return part.to_string();
    }
    if d.len() == 0 {
        return part.to_string();
    }
    let mut out = dir.to_string();
    if d[d.len() - 1] != '/' {
        push_char(&mut out, '/');
    }
    push_str(&mut out, part);
    out
}

pub open spec fn missing_home_msg() -> Seq<char> {
    "no se pudo determinar el directorio de inicio del usuario"@
}

/// The directory of the stored collections, from the environment:
/// `PROBE_COLLECTIONS_DIR` when it is set, else `.probe/collections` under
/// `HOME`, or under `USERPROFILE` when `HOME` is not set.
pub open spec fn collections_dir_spec(
    probe_dir: Option<Seq<char>>,
    home: Option<Seq<char>>,
    userprofile: Option<Seq<char>>,
) -> Result<Seq<char>, Seq<char>> {
    match probe_dir {
        Some(d) => Ok(d),
        None => match (if home is Some {
            home
        } else {
            userprofile
        }) {
            Some(h) => Ok(join_spec(join_spec(h, ".probe"@), "collections"@)),
            None => Err(missing_home_msg()),
        },
    }
}

pub open spec fn opt_view(o: Option<String>) -> Option<Seq<char>> {
    match o {
        Some(s) => Some(s@),
        None => None,
    }
}

/// The directory of the stored collections; the arguments are the values of
/// `PROBE_COLLECTIONS_DIR`, `HOME` and `USERPROFILE`, `None` where unset.
pub fn collections_dir(
    probe_dir: Option<String>,
    home: Option<String>,
    userprofile: Option<String>,
) -> (r: Result<String, String>)
    ensures
        match r {
            Ok(d) => collections_dir_spec(opt_view(probe_dir), opt_view(home), opt_view(userprofile))
                == Ok::<Seq<char>, Seq<char>>(d@),
            Err(e) => collections_dir_spec(opt_view(probe_dir), opt_view(home), opt_view(userprofile))
                == Err::<Seq<char>, Seq<char>>(e@),
        },
{
    if let Some(d) = probe_dir {
        return Ok(d);
    }
    let base = match home {
        Some(h) => h,
        None => match userprofile {
            Some(u) => u,
            None => {
                return Err("no se pudo determinar el directorio de inicio del usuario".to_string());
            },
        },
    };
    let probe = join_path(base.as_str(), ".probe");
    Ok(join_path(probe.as_str(), "collections"))
}

/// The directory where uploaded CSV files are kept: `csv` inside the
/// directory of the stored collections.
pub fn csv_dir(
    probe_dir: Option<String>,
    home: Option<String>,
    userprofile: Option<String>,
) -> (r: Result<String, String>)
    ensures
        match collections_dir_spec(opt_view(probe_dir), opt_view(home), opt_view(userprofile)) {
            Ok(d) => r matches Ok(c) && c@ == join_spec(d, "csv"@),
            Err(e) => r matches Err(x) && x@ == e,
        },
{
    match collections_dir(probe_dir, home, userprofile) {
        Ok(d) => Ok(join_path(d.as_str(), "csv")),
        Err(e) => Err(e),
    }
}

/// The directory that holds one JSON file per stored collection.
pub struct Storage {
    dir: String,
}

impl View for Storage {
    type V = Seq<char>;

    closed spec fn view(&self) -> Seq<char> {
        self.dir@
    }
}

impl Storage {
    /// The storage of the directory that the environment names (see
    /// [`collections_dir`]); creating the directory is left to the caller.
    pub fn new(
        probe_dir: Option<String>,
        home: Option<String>,
        userprofile: Option<String>,
    ) -> (r: Result<Storage, String>)
        ensures
            match r {
                Ok(s) => collections_dir_spec(opt_view(probe_dir), opt_view(home), opt_view(userprofile))
                    == Ok::<Seq<char>, Seq<char>>(s@),
                Err(e) => collections_dir_spec(opt_view(probe_dir), opt_view(home), opt_view(userprofile))
                    == Err::<Seq<char>, Seq<char>>(e@),
            },
    {
        match collections_dir(probe_dir, home, userprofile) {
            Ok(dir) => Ok(Storage { dir }),
            Err(e) => Err(e),
        }
    }

    /// The storage of a given directory.
    pub fn at(dir: String) -> (r: Storage)
        ensures
            r@ == dir@,
    {
        Storage { dir }
    }

    pub fn dir(&self) -> (r: &str)
        ensures
            r@ == self@,
    {
        self.dir.as_str()
    }

    /// The file of the collection named `name`.
    pub fn collection_path(&self, name: &str) -> (r: String)
        ensures
            r@ == join_spec(self@, sanitize_spec(name@) + ".json"@),
    {
        let mut file = sanitize_name(name);
        push_str(&mut file, ".json");
        join_path(self.dir.as_str(), file.as_str())
    }
}

/// The stem of a directory entry that holds a collection: the file name
/// without its `.json` extension, when it has one (a leading dot does not
/// start an extension).
pub open spec fn json_stem_spec(f: Seq<char>) -> Option<Seq<char>> {
    if f.len() > 5 && f.skip(f.len() - 5) == ".json"@ {
        Some(f.take(f.len() - 5))
    } else {
        None
    }
}

pub fn json_stem(file_name: &str) -> (r: Option<String>)
    ensures
        opt_view(r) == json_stem_spec(file_name@),
{
    let cs = chars_of(file_name);
    if cs.len() <= 5 {
        return None;
    }
    let tail = sub_chars(&cs, cs.len() - 5, cs.len());
    let ext = chars_of(".json");
    assert(tail@ =~= file_name@.skip(file_name@.len() - 5));
    if crate::text::chars_eq(&tail, &ext) {
        let stem = sub_chars(&cs, 0, cs.len() - 5);
        assert(stem@ =~= file_name@.take(file_name@.len() - 5));
        Some(string_of(&stem))
    } else {
        None
    }
}

/// A sanitized name holds no reserved character.
pub proof fn law_sanitized_has_no_reserved(name: Seq<char>)
    ensures
        forall|i: int| 0 <= i < sanitize_spec(name).len() ==> !is_reserved(#[trigger] sanitize_spec(name)[i]),
{
}

/// Sanitizing twice is sanitizing once.
pub proof fn law_sanitize_idempotent(name: Seq<char>)
    ensures
        sanitize_spec(sanitize_spec(name)) == sanitize_spec(name),
{
    assert(sanitize_spec(sanitize_spec(name)) =~= sanitize_spec(name));
}

/// Listing the directory gives back, for the file of a collection, the
/// sanitized name of that collection.
pub proof fn law_listed_name_of_saved_file(name: Seq<char>)
    requires
        name.len() > 0,
    ensures
        json_stem_spec(sanitize_spec(name) + ".json"@) == Some(sanitize_spec(name)),
{
    reveal_strlit(".json");
    let f = sanitize_spec(name) + ".json"@;
    assert(f.skip(f.len() - 5) =~= ".json"@);
    assert(f.take(f.len() - 5) =~= sanitize_spec(name));
}

/// Summaries in strictly increasing order of name.
pub open spec fn names_increasing(v: Seq<CollectionSummary>) -> bool {
    forall|a: int, b: int| 0 <= a < b < v.len() ==> text_lt(#[trigger] v[a].name@, #[trigger] v[b].name@)
}

pub open spec fn summary_eq(a: CollectionSummary, b: CollectionSummary) -> bool {
    a.name@ == b.name@ && a.size == b.size
}

/// Inserts `s`, whose name no summary of `v` has, at its place by name;
/// returns that place.
pub fn insert_by_name(v: &mut Vec<CollectionSummary>, s: CollectionSummary) -> (i: usize)
    requires
        names_increasing(old(v)@),
        forall|k: int| 0 <= k < old(v)@.len() ==> (#[trigger] old(v)@[k]).name@ != s.name@,
    ensures
        names_increasing(final(v)@),
        i <= old(v)@.len(),
        final(v)@ == old(v)@.insert(i as int, s),
{
    let mut i: usize = 0;
    while i < v.len() && text_less(&v[i].name, &s.name)
        invariant
            i <= v.len(),
            forall|k: int| 0 <= k < i ==> text_lt(#[trigger] v@[k].name@, s.name@),
        decreases v.len() - i,
    {
        i = i + 1;
    }
    let ghost before = v@;
    let ghost name = s.name@;
    proof {
        if i < before.len() {
            lemma_text_lt_total(before[i as int].name@, name);
            assert forall|k: int| i <= k < before.len() implies text_lt(name, #[trigger] before[k].name@) by {
                if k > i {
                    lemma_text_lt_transitive(name, before[i as int].name@, before[k].name@);
                }
            }
        }
    }
    v.insert(i, s);
    proof {
        assert forall|a: int, b: int| 0 <= a < b < v@.len() implies text_lt(
            #[trigger] v@[a].name@,
            #[trigger] v@[b].name@,
        ) by {
            if b < i {
                assert(v@[a] == before[a] && v@[b] == before[b]);
            } else if b == i {
                assert(v@[a] == before[a]);
            } else if a == i {
                assert(v@[b] == before[b - 1]);
            } else if a < i {
                assert(v@[a] == before[a] && v@[b] == before[b - 1]);
                assert(text_lt(name, before[b - 1].name@));
                lemma_text_lt_transitive(before[a].name@, name, before[b - 1].name@);
            } else {
                assert(v@[a] == before[a - 1] && v@[b] == before[b - 1]);
            }
        }
    }
    i
}

/// Names that are all different.
pub open spec fn distinct_summary_names(v: Seq<CollectionSummary>) -> bool {
    forall|a: int, b: int| 0 <= a < b < v.len() ==> (#[trigger] v[a]).name@ != (#[trigger] v[b]).name@
}

/// The summaries sorted by name, for names that are all different.
pub fn sort_summaries(v: Vec<CollectionSummary>) -> (r: Vec<CollectionSummary>)
    requires
        distinct_summary_names(v@),
    ensures
        names_increasing(r@),
        r@.to_multiset() == v@.to_multiset(),
{
    broadcast use vstd::seq_lib::group_to_multiset_ensures;

    let mut r: Vec<CollectionSummary> = Vec::new();
    let ghost orig = v@;
    let mut rest = v;
    assert(orig.len() == rest.len());
    let mut i: usize = 0;
    while rest.len() > 0
        invariant
            i + rest@.len() == orig.len(),
            orig.len() <= usize::MAX,
            rest@ == orig.skip(i as int),
            distinct_summary_names(orig),
            names_increasing(r@),
            r@.to_multiset() == orig.take(i as int).to_multiset(),
        decreases rest.len(),
    {
        let s = rest.remove(0);
        let ghost before = r@;
        assert(s == orig[i as int]);
        proof {
            assert forall|k: int| 0 <= k < before.len() implies (#[trigger] before[k]).name@
                != s.name@ by {
                let t = orig.take(i as int);
                assert(before.contains(before[k]));
                vstd::seq_lib::to_multiset_contains(before, before[k]);
                vstd::seq_lib::to_multiset_contains(t, before[k]);
                let kk = choose|kk: int| 0 <= kk < t.len() && t[kk] == before[k];
                assert(orig[kk] == before[k]);
            }
        }
        let p = insert_by_name(&mut r, s);
        proof {
            vstd::seq_lib::to_multiset_insert(before, p as int, s);
            assert(orig.take(i + 1) =~= orig.take(i as int).push(orig[i as int]));
            vstd::seq_lib::to_multiset_build(orig.take(i as int), orig[i as int]);
        }
        i = i + 1;
        assert(rest@ =~= orig.skip(i as int));
    }
    assert(orig.take(v.len() as int) =~= orig);
    r
}

} // verus!
