//! Collections kept in memory, at most one per name.
use vstd::prelude::*;

use crate::model::{collection_same, Collection, CollectionSummary};
use crate::storage::{names_increasing, sort_summaries};
use crate::text::{push_quoted, push_str, quoted};

verus! {

/// The collection stored under `n`, if any.
pub open spec fn lookup(m: Map<Seq<char>, Collection>, n: Seq<char>) -> Option<Collection> {
    if m.contains_key(n) {
        Some(m[n])
    } else {
        None
    }
}

/// What saving `c` leaves: a copy of `c` under its name, every other name as it was.
pub open spec fn saved_into(
    before: Map<Seq<char>, Collection>,
    after: Map<Seq<char>, Collection>,
    c: Collection,
) -> bool {
    &&& after.dom() == before.dom().insert(c.name@)
    &&& collection_same(after[c.name@], c)
    &&& forall|n: Seq<char>| n != c.name@ ==> #[trigger] lookup(after, n) == lookup(before, n)
}

/// What deleting `n` leaves: everything but `n`.
pub open spec fn deleted_from(
    before: Map<Seq<char>, Collection>,
    after: Map<Seq<char>, Collection>,
    n: Seq<char>,
) -> bool {
    after == before.remove(n)
}

pub open spec fn not_found_msg(n: Seq<char>) -> Seq<char> {
    "la colección "@ + quoted(n) + " no existe"@
}

pub open spec fn no_files_msg() -> Seq<char> {
    "el repositorio en memoria no lee archivos"@
}

/// A collection repository that keeps everything in memory (for tests and
/// for runs without a disk).
pub struct InMemoryCollectionRepository {
    collections: Vec<Collection>,
    contents: Ghost<Map<Seq<char>, Collection>>,
}

impl View for InMemoryCollectionRepository {
    type V = Map<Seq<char>, Collection>;

    closed spec fn view(&self) -> Map<Seq<char>, Collection> {
        self.contents@
    }
}

impl InMemoryCollectionRepository {
    /// One stored collection per name, and the map names exactly them.
    pub closed spec fn wf(&self) -> bool {
        let cs = self.collections@;
        &&& forall|a: int, b: int|
            0 <= a < b < cs.len() ==> (#[trigger] cs[a]).name@ != (#[trigger] cs[b]).name@
        &&& forall|k: int|
            0 <= k < cs.len() ==> self.contents@.contains_key((#[trigger] cs[k]).name@)
                && self.contents@[cs[k].name@] == cs[k]
        &&& forall|n: Seq<char>| #[trigger]
            self.contents@.contains_key(n) ==> exists|k: int|
                0 <= k < cs.len() && (#[trigger] cs[k]).name@ == n
    }

    /// An empty repository.
    pub fn new() -> (r: Self)
        ensures
            r.wf(),
            r@ == Map::<Seq<char>, Collection>::empty(),
    {
        InMemoryCollectionRepository { collections: Vec::new(), contents: Ghost(Map::empty()) }
    }

    /// Index of the stored collection named `name`.
    fn find(&self, name: &str) -> (r: Option<usize>)
        requires
            self.wf(),
        ensures
            match r {
                Some(k) => k < self.collections@.len() && self.collections@[k as int].name@
                    == name@ && self@.contains_key(name@) && self@[name@]
                    == self.collections@[k as int],
                None => !self@.contains_key(name@),
            },
    {
        let n = name.to_string();
        let mut k: usize = 0;
        while k < self.collections.len()
            invariant
                k <= self.collections@.len(),
                n@ == name@,
                self.wf(),
                forall|j: int| 0 <= j < k ==> (#[trigger] self.collections@[j]).name@ != name@,
            decreases self.collections.len() - k,
        {
            if self.collections[k].name == n {
                return Some(k);
            }
            k = k + 1;
        }
        None
    }

    /// Stores a copy of `collection` under its name, in place of any
    /// collection of that name.
    pub fn save(&mut self, collection: &Collection) -> (r: Result<(), String>)
        requires
            old(self).wf(),
        ensures
            final(self).wf(),
            r is Ok,
            saved_into(old(self)@, final(self)@, *collection),
    {
        let copy = collection.copy();
        let ghost before = self.collections@;
        let ghost m = self.contents@;
        let ghost stored = copy;
        match self.find(collection.name.as_str()) {
            Some(k) => {
                self.collections.set(k, copy);
            },
            None => {
                self.collections.push(copy);
            },
        }
        self.contents = Ghost(m.insert(collection.name@, stored));
        proof {
            let cs = self.collections@;
            assert forall|n: Seq<char>| #[trigger]
                self.contents@.contains_key(n) implies exists|k: int|
                0 <= k < cs.len() && (#[trigger] cs[k]).name@ == n by {
                if n == collection.name@ {
                    if before.len() < cs.len() {
                        assert(cs[cs.len() - 1].name@ == n);
                    } else {
                        let k = choose|k: int|
                            0 <= k < before.len() && (#[trigger] before[k]).name@ == n;
                        assert(cs[k].name@ == n);
                    }
                } else {
                    let k = choose|k: int| 0 <= k < before.len() && (#[trigger] before[k]).name@ == n;
                    assert(cs[k] == before[k]);
                }
            }
            assert(self.contents@.dom() =~= m.dom().insert(collection.name@));
        }
        Ok(())
    }

    /// A copy of the collection stored under `name`.
    pub fn load(&self, name: &str) -> (r: Result<Collection, String>)
        requires
            self.wf(),
        ensures
            match lookup(self@, name@) {
                Some(c) => r matches Ok(x) && collection_same(x, c),
                None => r matches Err(e) && e@ == not_found_msg(name@),
            },
    {
        match self.find(name) {
            Some(k) => Ok(self.collections[k].copy()),
            None => {
                let mut e = String::new();
                push_str(&mut e, "la colección ");
                push_quoted(&mut e, name);
                push_str(&mut e, " no existe");
                Err(e)
            },
        }
    }

    /// An in-memory repository reads no files.
    pub fn load_file(&self, path: &str) -> (r: Result<Collection, String>)
        ensures
            r matches Err(e) && e@ == no_files_msg(),
    {
        Err("el repositorio en memoria no lee archivos".to_string())
    }

    /// Forgets the collection stored under `name`, if any.
    pub fn delete(&mut self, name: &str) -> (r: Result<(), String>)
        requires
            old(self).wf(),
        ensures
            final(self).wf(),
            r is Ok,
            deleted_from(old(self)@, final(self)@, name@),
    {
        let ghost before = self.collections@;
        let ghost m = self.contents@;
        match self.find(name) {
            Some(k) => {
                self.collections.remove(k);
                self.contents = Ghost(m.remove(name@));
                proof {
                    let cs = self.collections@;
                    assert forall|a: int, b: int|
                        0 <= a < b < cs.len() implies (#[trigger] cs[a]).name@ != (
                        #[trigger] cs[b]).name@ by {
                        let a0 = if a < k { a } else { a + 1 };
                        let b0 = if b < k { b } else { b + 1 };
                        assert(cs[a] == before[a0] && cs[b] == before[b0]);
                    }
                    assert forall|j: int| 0 <= j < cs.len() implies self.contents@.contains_key(
                        (#[trigger] cs[j]).name@,
                    ) && self.contents@[cs[j].name@] == cs[j] by {
                        let j0 = if j < k { j } else { j + 1 };
                        assert(cs[j] == before[j0]);
                    }
                    assert forall|n: Seq<char>| #[trigger]
                        self.contents@.contains_key(n) implies exists|j: int|
                        0 <= j < cs.len() && (#[trigger] cs[j]).name@ == n by {
                        let j0 = choose|j0: int|
                            0 <= j0 < before.len() && (#[trigger] before[j0]).name@ == n;
                        if j0 < k {
                            assert(cs[j0] == before[j0]);
                        } else {
                            assert(cs[j0 - 1] == before[j0]);
                        }
                    }
                }
            },
            None => {
                assert(m.remove(name@) =~= m);
            },
        }
        Ok(())
    }

    /// A summary per stored collection, sorted by name; `size_of` gives the
    /// size of each collection (its serialized length).
    pub fn list<F: Fn(&Collection) -> u64>(&self, size_of: F) -> (r: Result<
        Vec<CollectionSummary>,
        String,
    >)
        requires
            self.wf(),
            forall|c: &Collection| #[trigger] size_of.requires((c,)),
        ensures
            r matches Ok(v) && {
                &&& names_increasing(v@)
                &&& forall|j: int|
                    0 <= j < v@.len() ==> self@.contains_key((#[trigger] v@[j]).name@)
                        && size_of.ensures((&self@[v@[j].name@],), v@[j].size)
                &&& forall|n: Seq<char>| #[trigger]
                    self@.contains_key(n) ==> exists|j: int|
                        0 <= j < v@.len() && (#[trigger] v@[j]).name@ == n
            },
    {
        broadcast use vstd::seq_lib::group_to_multiset_ensures;

        let cs = &self.collections;
        let mut raw: Vec<CollectionSummary> = Vec::new();
        let mut i: usize = 0;
        while i < cs.len()
            invariant
                i <= cs@.len(),
                cs@ == self.collections@,
                forall|c: &Collection| #[trigger] size_of.requires((c,)),
                raw@.len() == i,
                forall|j: int|
                    0 <= j < i ==> (#[trigger] raw@[j]).name@ == cs@[j].name@ && size_of.ensures(
                        (&cs@[j],),
                        raw@[j].size,
                    ),
            decreases cs.len() - i,
        {
            let size = size_of(&cs[i]);
            raw.push(CollectionSummary { name: cs[i].name.clone(), size });
            i = i + 1;
        }
        proof {
            assert forall|a: int, b: int| 0 <= a < b < raw@.len() implies (#[trigger] raw@[a]).name@
                != (#[trigger] raw@[b]).name@ by {
                assert(cs@[a].name@ != cs@[b].name@);
            }
        }
        let ghost r0 = raw@;
        let v = sort_summaries(raw);
        proof {
            assert forall|j: int| 0 <= j < v@.len() implies self@.contains_key(
                (#[trigger] v@[j]).name@,
            ) && size_of.ensures((&self@[v@[j].name@],), v@[j].size) by {
                assert(v@.contains(v@[j]));
                vstd::seq_lib::to_multiset_contains(v@, v@[j]);
                vstd::seq_lib::to_multiset_contains(r0, v@[j]);
                let k = choose|k: int| 0 <= k < r0.len() && r0[k] == v@[j];
                assert(r0[k].name@ == cs@[k].name@);
            }
            assert forall|n: Seq<char>| #[trigger] self@.contains_key(n) implies exists|j: int|
                0 <= j < v@.len() && (#[trigger] v@[j]).name@ == n by {
                let k = choose|k: int| 0 <= k < cs@.len() && (#[trigger] cs@[k]).name@ == n;
                assert(r0[k].name@ == n);
                assert(r0.contains(r0[k]));
                vstd::seq_lib::to_multiset_contains(r0, r0[k]);
                vstd::seq_lib::to_multiset_contains(v@, r0[k]);
                let j = choose|j: int| 0 <= j < v@.len() && v@[j] == r0[k];
                assert(v@[j].name@ == n);
            }
        }
        Ok(v)
    }
}

impl Default for InMemoryCollectionRepository {
    fn default() -> (r: Self)
        ensures
            r.wf(),
            r@ == Map::<Seq<char>, Collection>::empty(),
    {
        InMemoryCollectionRepository::new()
    }
}

/// After a save, a load of the saved name gives back what was saved.
pub proof fn law_read_after_write(
    before: Map<Seq<char>, Collection>,
    after: Map<Seq<char>, Collection>,
    c: Collection,
)
    requires
        saved_into(before, after, c),
    ensures
        lookup(after, c.name@) matches Some(x) && collection_same(x, c),
{
}

/// A save leaves every other name as it was.
pub proof fn law_save_keeps_others(
    before: Map<Seq<char>, Collection>,
    after: Map<Seq<char>, Collection>,
    c: Collection,
    n: Seq<char>,
)
    requires
        saved_into(before, after, c),
        n != c.name@,
    ensures
        lookup(after, n) == lookup(before, n),
{
}

/// After a delete, the deleted name is not found.
pub proof fn law_delete_forgets(
    before: Map<Seq<char>, Collection>,
    after: Map<Seq<char>, Collection>,
    n: Seq<char>,
)
    requires
        deleted_from(before, after, n),
    ensures
        lookup(after, n) is None,
{
}

/// A delete leaves every other name as it was.
pub proof fn law_delete_keeps_others(
    before: Map<Seq<char>, Collection>,
    after: Map<Seq<char>, Collection>,
    n: Seq<char>,
    m: Seq<char>,
)
    requires
        deleted_from(before, after, n),
        m != n,
    ensures
        lookup(after, m) == lookup(before, m),
{
}

} // verus!
