//! The results table: a mapping from file path to per-file outcome.
//!
//! The table is a list of entries with pairwise-distinct keys; its view is
//! the finite map from each path, as a sequence of characters, to the view
//! of the outcome stored under it. Inserting under an existing key replaces
//! the outcome, as a map insertion does.

use vstd::prelude::*;

use crate::types::FileProcessingResult;

verus! {

/// No two entries share a key.
spec fn unique_keys(entries: Seq<(String, FileProcessingResult)>) -> bool {
    forall|a: int, b: int| 0 <= a < b < entries.len() ==> entries[a].0@ != entries[b].0@
}

/// The map an entry list stands for; a later entry wins over an earlier one
/// with the same key.
spec fn map_of(entries: Seq<(String, FileProcessingResult)>) -> Map<
    Seq<char>,
    (Seq<usize>, usize),
>
    decreases entries.len(),
{
    if entries.len() == 0 {
        Map::empty()
    } else {
        map_of(entries.drop_last()).insert(entries.last().0@, entries.last().1@)
    }
}

/// A mapping from file path to the result of processing that file.
#[derive(Debug)]
pub struct ResultsTable {
    entries: Vec<(String, FileProcessingResult)>,
}

impl View for ResultsTable {
    type V = Map<Seq<char>, (Seq<usize>, usize)>;

    closed spec fn view(&self) -> Map<Seq<char>, (Seq<usize>, usize)> {
        map_of(self.entries@)
    }
}

impl ResultsTable {
    /// The table's invariant: keys are pairwise distinct and every stored
    /// outcome satisfies its own invariant.
    pub closed spec fn wf(self) -> bool {
        &&& unique_keys(self.entries@)
        &&& forall|i: int| 0 <= i < self.entries@.len() ==> self.entries@[i].1.wf()
    }

    /// An empty table.
    pub fn new() -> (r: Self)
        ensures
            r.wf(),
            r@ == Map::<Seq<char>, (Seq<usize>, usize)>::empty(),
    {
        ResultsTable { entries: Vec::new() }
    }

    /// The index of the entry keyed by `path`, if there is one.
    fn find_index(&self, path: &String) -> (r: Option<usize>)
        ensures
            match r {
                Some(i) => i < self.entries@.len() && self.entries@[i as int].0@ == path@,
                None => forall|k: int|
                    0 <= k < self.entries@.len() ==> self.entries@[k].0@ != path@,
            },
    {
        let mut i: usize = 0;
        while i < self.entries.len()
            invariant
                i <= self.entries@.len(),
                forall|k: int| 0 <= k < i ==> self.entries@[k].0@ != path@,
            decreases self.entries@.len() - i,
        {
            if self.entries[i].0 == *path {
                return Some(i);
            }
            i = i + 1;
        }
        None
    }

    /// Stores `result` under `path`, replacing any outcome already stored
    /// under that path.
    pub fn insert(&mut self, path: String, result: FileProcessingResult)
        requires
            old(self).wf(),
            result.wf(),
        ensures
            final(self).wf(),
            final(self)@ == old(self)@.insert(path@, result@),
    {
        let ghost es0 = self.entries@;
        match self.find_index(&path) {
            Some(i) => {
                proof {
                    lemma_map_of_remove(es0, i as int);
                    assert(forall|j: int|
                        0 <= j < es0.len() && j != i ==> es0[j].0@ != path@);
                }
                let _ = self.entries.remove(i);
                let ghost es1 = self.entries@;
                proof {
                    es0.remove_ensures(i as int);
                    assert(forall|k: int|
                        0 <= k < es1.len() ==> es1[k].0@ != path@);
                }
                self.entries.push((path, result));
                proof {
                    lemma_map_of_push(es1, (path, result));
                    assert(map_of(self.entries@) =~= map_of(es0).insert(path@, result@));
                    assert(forall|k: int|
                        0 <= k < self.entries@.len() ==> self.entries@[k]
                            == (if k < es1.len() {
                            es1[k]
                        } else {
                            (path, result)
                        }));
                }
            },
            None => {
                self.entries.push((path, result));
                proof {
                    lemma_map_of_push(es0, (path, result));
                    assert(forall|k: int|
                        0 <= k < self.entries@.len() ==> self.entries@[k]
                            == (if k < es0.len() {
                            es0[k]
                        } else {
                            (path, result)
                        }));
                }
            },
        }
    }

    /// The outcome stored under `path`, if there is one.
    pub fn get<'a>(&'a self, path: &String) -> (r: Option<&'a FileProcessingResult>)
        requires
            self.wf(),
        ensures
            match r {
                Some(res) => self@.contains_key(path@) && self@[path@] == res@ && res.wf(),
                None => !self@.contains_key(path@),
            },
    {
        proof {
            lemma_map_of_contains(self.entries@, path@);
        }
        match self.find_index(path) {
            Some(i) => {
                proof {
                    lemma_map_of_value(self.entries@, i as int);
                }
                Some(&self.entries[i].1)
            },
            None => None,
        }
    }

    /// The number of files in the table.
    pub fn len(&self) -> (n: usize)
        requires
            self.wf(),
        ensures
            self@.dom().finite(),
            n == self@.len(),
    {
        proof {
            lemma_map_of_len(self.entries@);
        }
        self.entries.len()
    }

    /// Whether the table has no entries.
    pub fn is_empty(&self) -> (b: bool)
        requires
            self.wf(),
        ensures
            b == (self@.len() == 0),
    {
        self.len() == 0
    }

    /// The `i`-th entry of the table, for walking all of it: the path and
    /// the outcome stored under it.
    pub fn entry_at<'a>(&'a self, i: usize) -> (e: (&'a String, &'a FileProcessingResult))
        requires
            self.wf(),
            i < self@.len(),
        ensures
            self@.contains_key(e.0@),
            self@[e.0@] == e.1@,
            e.1.wf(),
    {
        proof {
            lemma_map_of_len(self.entries@);
            lemma_map_of_value(self.entries@, i as int);
        }
        let entry = &self.entries[i];
        (&entry.0, &entry.1)
    }
}

/// Appending an entry inserts its key-value pair into the view.
proof fn lemma_map_of_push(es: Seq<(String, FileProcessingResult)>, e: (String, FileProcessingResult))
    ensures
        map_of(es.push(e)) == map_of(es).insert(e.0@, e.1@),
{
    assert(es.push(e).drop_last() =~= es);
    assert(es.push(e).last() == e);
}

/// A key is in the view exactly when some entry holds it.
proof fn lemma_map_of_contains(es: Seq<(String, FileProcessingResult)>, k: Seq<char>)
    ensures
        map_of(es).contains_key(k) <==> exists|i: int| 0 <= i < es.len() && es[i].0@ == k,
    decreases es.len(),
{
    if es.len() == 0 {
    } else {
        let dl = es.drop_last();
        lemma_map_of_contains(dl, k);
        if es.last().0@ == k {
            assert(es[es.len() - 1].0@ == k);
        } else {
            if map_of(es).contains_key(k) {
                let i = choose|i: int| 0 <= i < dl.len() && dl[i].0@ == k;
                assert(es[i].0@ == k);
            }
            if exists|i: int| 0 <= i < es.len() && es[i].0@ == k {
                let i = choose|i: int| 0 <= i < es.len() && es[i].0@ == k;
                assert(i < es.len() - 1);
                assert(dl[i].0@ == k);
            }
        }
    }
}

/// With distinct keys, the view maps each entry's key to that entry's value.
proof fn lemma_map_of_value(es: Seq<(String, FileProcessingResult)>, i: int)
    requires
        unique_keys(es),
        0 <= i < es.len(),
    ensures
        map_of(es).contains_key(es[i].0@),
        map_of(es)[es[i].0@] == es[i].1@,
    decreases es.len(),
{
    let dl = es.drop_last();
    if i == es.len() - 1 {
    } else {
        assert(unique_keys(dl));
        assert(dl[i] == es[i]);
        lemma_map_of_value(dl, i);
        assert(es[i].0@ != es.last().0@);
    }
}

/// With distinct keys, the view is a finite map with one entry per list
/// entry.
proof fn lemma_map_of_len(es: Seq<(String, FileProcessingResult)>)
    requires
        unique_keys(es),
    ensures
        map_of(es).dom().finite(),
        map_of(es).len() == es.len(),
    decreases es.len(),
{
    if es.len() == 0 {
        assert(map_of(es).dom() =~= Set::<Seq<char>>::empty());
    } else {
        let dl = es.drop_last();
        assert(unique_keys(dl));
        lemma_map_of_len(dl);
        lemma_map_of_contains(dl, es.last().0@);
        assert(!map_of(dl).contains_key(es.last().0@));
    }
}

/// With distinct keys, removing an entry removes exactly its key from the
/// view, and keeps the remaining keys distinct.
proof fn lemma_map_of_remove(es: Seq<(String, FileProcessingResult)>, i: int)
    requires
        unique_keys(es),
        0 <= i < es.len(),
    ensures
        unique_keys(es.remove(i)),
        map_of(es.remove(i)) == map_of(es).remove(es[i].0@),
    decreases es.len(),
{
    es.remove_ensures(i);
    let rem = es.remove(i);
    let k = es[i].0@;
    assert(unique_keys(rem)) by {
        assert(forall|a: int, b: int|
            0 <= a < b < rem.len() ==> rem[a].0@ != rem[b].0@) by {
            assert(forall|j: int|
                0 <= j < rem.len() ==> rem[j] == (if j < i {
                    es[j]
                } else {
                    es[j + 1]
                }));
        }
    }
    if i == es.len() - 1 {
        assert(rem =~= es.drop_last());
        lemma_map_of_contains(es.drop_last(), k);
        assert(!map_of(es.drop_last()).contains_key(k));
        assert(map_of(es).remove(k) =~= map_of(es.drop_last()));
    } else {
        let dl = es.drop_last();
        assert(unique_keys(dl));
        dl.remove_ensures(i);
        lemma_map_of_remove(dl, i);
        assert(rem.drop_last() =~= dl.remove(i));
        assert(rem.last() == es.last());
        let lk = es.last().0@;
        let lv = es.last().1@;
        assert(lk != k);
        assert(map_of(rem) == map_of(dl).remove(k).insert(lk, lv));
        assert(map_of(dl).remove(k).insert(lk, lv) =~= map_of(dl).insert(lk, lv).remove(k));
        assert(map_of(es).remove(k) == map_of(dl).insert(lk, lv).remove(k));
    }
}

} // verus!
