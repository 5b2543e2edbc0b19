//! Association maps from label vectors to values.
//!
//! Every long-lived structure of the registry — gauge families, the active
//! identity set, the per-command label index — is a mapping keyed by a
//! vector of label texts.  `StrMap` keeps such a mapping as a vector of
//! entries with pairwise distinct keys and is specified against a
//! mathematical `Map` from key views to value views.

use vstd::prelude::*;
use crate::text::views;

verus! {

/// One binding of a label-vector key to a value.
pub struct Entry<V> {
    pub key: Vec<String>,
    pub val: V,
}

/// The key view of an entry.
pub open spec fn entry_key<V>(e: Entry<V>) -> Seq<Seq<char>> {
    views(e.key@)
}

/// The mathematical mapping an entry vector stands for.
pub open spec fn entries_map<V: View>(es: Seq<Entry<V>>) -> Map<Seq<Seq<char>>, V::V>
    decreases es.len(),
{
    if es.len() == 0 {
        Map::empty()
    } else {
        entries_map(es.drop_last()).insert(entry_key(es.last()), es.last().val@)
    }
}

/// No two entries share a key.
pub open spec fn keys_unique<V>(es: Seq<Entry<V>>) -> bool {
    forall|i: int, j: int|
        0 <= i < j < es.len() ==> entry_key(#[trigger] es[i]) != entry_key(#[trigger] es[j])
}

/// A key is in the mapping exactly when some entry carries it.
pub proof fn lemma_entries_map_contains<V: View>(es: Seq<Entry<V>>, k: Seq<Seq<char>>)
    ensures
        entries_map(es).dom().contains(k) <==> exists|i: int|
            0 <= i < es.len() && entry_key(#[trigger] es[i]) == k,
    decreases es.len(),
{
    if es.len() > 0 {
        lemma_entries_map_contains(es.drop_last(), k);
        if entry_key(es.last()) == k {
            assert(entry_key(es[es.len() - 1]) == k);
        } else if entries_map(es.drop_last()).dom().contains(k) {
            let i = choose|i: int|
                0 <= i < es.drop_last().len() && entry_key(#[trigger] es.drop_last()[i]) == k;
            assert(entry_key(es[i]) == k);
        } else {
            if exists|i: int| 0 <= i < es.len() && entry_key(#[trigger] es[i]) == k {
                let i = choose|i: int| 0 <= i < es.len() && entry_key(#[trigger] es[i]) == k;
                assert(i < es.len() - 1);
                assert(entry_key(es.drop_last()[i]) == k);
                assert(false);
            }
        }
    }
}

/// With unique keys, each entry's key maps to its own value.
pub proof fn lemma_entries_map_index<V: View>(es: Seq<Entry<V>>, i: int)
    requires
        keys_unique(es),
        0 <= i < es.len(),
    ensures
        entries_map(es).dom().contains(entry_key(es[i])),
        entries_map(es)[entry_key(es[i])] == es[i].val@,
    decreases es.len(),
{
    lemma_entries_map_contains(es, entry_key(es[i]));
    if i == es.len() - 1 {
    } else {
        assert(keys_unique(es.drop_last()));
        assert(es.drop_last()[i] == es[i]);
        lemma_entries_map_index(es.drop_last(), i);
        assert(entry_key(es[i]) != entry_key(es[es.len() - 1]));
    }
}

/// Removing the entry at `i` removes exactly its key from the mapping.
pub proof fn lemma_entries_map_remove<V: View>(es: Seq<Entry<V>>, i: int)
    requires
        keys_unique(es),
        0 <= i < es.len(),
    ensures
        keys_unique(es.remove(i)),
        entries_map(es.remove(i)) == entries_map(es).remove(entry_key(es[i])),
    decreases es.len(),
{
    let k = entry_key(es[i]);
    assert forall|a: int, b: int| 0 <= a < b < es.remove(i).len() implies entry_key(
        #[trigger] es.remove(i)[a],
    ) != entry_key(#[trigger] es.remove(i)[b]) by {
        let a0 = if a < i {
            a
        } else {
            a + 1
        };
        let b0 = if b < i {
            b
        } else {
            b + 1
        };
        assert(es.remove(i)[a] == es[a0]);
        assert(es.remove(i)[b] == es[b0]);
    }
    if i == es.len() - 1 {
        assert(es.remove(i) =~= es.drop_last());
        lemma_entries_map_contains(es.drop_last(), k);
        assert(!entries_map(es.drop_last()).dom().contains(k)) by {
            if entries_map(es.drop_last()).dom().contains(k) {
                let j = choose|j: int|
                    0 <= j < es.drop_last().len() && entry_key(#[trigger] es.drop_last()[j]) == k;
                assert(entry_key(es[j]) == entry_key(es[i]));
                assert(false);
            }
        }
        assert(entries_map(es.drop_last()) =~= entries_map(es).remove(k));
    } else {
        let dl = es.drop_last();
        assert(keys_unique(dl));
        lemma_entries_map_remove(dl, i);
        assert(es.remove(i).drop_last() =~= dl.remove(i));
        assert(es.remove(i).last() == es.last());
        let klast = entry_key(es.last());
        assert(klast != k) by {
            assert(entry_key(es[i]) != entry_key(es[es.len() - 1]));
        }
        assert(entries_map(es.remove(i)) == entries_map(dl.remove(i)).insert(
            klast,
            es.last().val@,
        ));
        assert(entries_map(dl).remove(k).insert(klast, es.last().val@) =~= entries_map(dl).insert(
            klast,
            es.last().val@,
        ).remove(k));
    }
}

/// Whether two label vectors read the same.
pub fn label_vec_eq(a: &Vec<String>, b: &Vec<String>) -> (r: bool)
    ensures
        r == (views(a@) == views(b@)),
{
    if a.len() != b.len() {
        proof {
            assert(views(a@).len() != views(b@).len());
        }
        return false;
    }
    let n = a.len();
    let mut i: usize = 0;
    while i < n
        invariant
            n == a@.len() == b@.len(),
            0 <= i <= n,
            forall|j: int| 0 <= j < i ==> #[trigger] a@[j]@ == b@[j]@,
        decreases n - i,
    {
        if !(a[i] == b[i]) {
            proof {
                assert(views(a@)[i as int] != views(b@)[i as int]);
            }
            return false;
        }
        i += 1;
    }
    proof {
        assert(views(a@) =~~= views(b@));
    }
    true
}

/// Association map from label vectors to values, with pairwise distinct keys.
pub struct StrMap<V> {
    pub entries: Vec<Entry<V>>,
}

impl<V: View> StrMap<V> {
    /// The mathematical mapping this map stands for.
    pub open spec fn map_view(self) -> Map<Seq<Seq<char>>, V::V> {
        entries_map(self.entries@)
    }

    /// Well-formed: keys are pairwise distinct.
    pub open spec fn wf(self) -> bool {
        keys_unique(self.entries@)
    }

    /// The empty map.
    pub fn new() -> (r: StrMap<V>)
        ensures
            r.wf(),
            r.map_view() == Map::<Seq<Seq<char>>, V::V>::empty(),
    {
        StrMap { entries: Vec::new() }
    }

    /// How many bindings the map holds.
    pub fn len(&self) -> (r: usize)
        requires
            self.wf(),
        ensures
            r == self.entries@.len(),
    {
        self.entries.len()
    }

    /// Index of the entry with this key, if any.
    fn find(&self, key: &Vec<String>) -> (r: Option<usize>)
        ensures
            match r {
                Some(i) => 0 <= i < self.entries@.len() && entry_key(self.entries@[i as int])
                    == views(key@),
                None => forall|i: int|
                    0 <= i < self.entries@.len() ==> entry_key(#[trigger] self.entries@[i])
                        != views(key@),
            },
    {
        let n = self.entries.len();
        let mut i: usize = 0;
        while i < n
            invariant
                n == self.entries@.len(),
                0 <= i <= n,
                forall|j: int|
                    0 <= j < i ==> entry_key(#[trigger] self.entries@[j]) != views(key@),
            decreases n - i,
        {
            if label_vec_eq(&self.entries[i].key, key) {
                return Some(i);
            }
            i += 1;
        }
        None
    }

    /// Whether the map binds this key.
    pub fn contains(&self, key: &Vec<String>) -> (r: bool)
        ensures
            r == self.map_view().dom().contains(views(key@)),
    {
        proof {
            lemma_entries_map_contains(self.entries@, views(key@));
        }
        self.find(key).is_some()
    }

    /// The value bound to this key, if any.
    pub fn get<'a>(&'a self, key: &Vec<String>) -> (r: Option<&'a V>)
        requires
            self.wf(),
        ensures
            match r {
                Some(v) => self.map_view().dom().contains(views(key@)) && v@ == self.map_view()[
                    views(key@)
                ],
                None => !self.map_view().dom().contains(views(key@)),
            },
    {
        proof {
            lemma_entries_map_contains(self.entries@, views(key@));
        }
        match self.find(key) {
            Some(i) => {
                proof {
                    lemma_entries_map_index(self.entries@, i as int);
                }
                Some(&self.entries[i].val)
            },
            None => None,
        }
    }

    /// Bind `key` to `val`, replacing any previous binding.
    pub fn set(&mut self, key: Vec<String>, val: V)
        requires
            old(self).wf(),
        ensures
            final(self).wf(),
            final(self).map_view() == old(self).map_view().insert(views(key@), val@),
    {
        let ghost k = views(key@);
        match self.find(&key) {
            Some(i) => {
                proof {
                    lemma_entries_map_remove(self.entries@, i as int);
                }
                let _ = self.entries.remove(i);
                proof {
                    lemma_entries_map_contains(self.entries@, k);
                }
                let e = Entry { key, val };
                proof {
                    assert(self.entries@.push(e).drop_last() =~= self.entries@);
                    assert(forall|j: int|
                        0 <= j < self.entries@.len() ==> entry_key(#[trigger] self.entries@[j])
                            != k);
                }
                self.entries.push(e);
                proof {
                    assert(self.map_view() =~= old(self).map_view().insert(k, val@));
                }
            },
            None => {
                proof {
                    lemma_entries_map_contains(self.entries@, k);
                }
                let e = Entry { key, val };
                proof {
                    assert(self.entries@.push(e).drop_last() =~= self.entries@);
                }
                self.entries.push(e);
            },
        }
    }

    /// Drop any binding of `key`; absent keys are a silent no-op.
    pub fn remove(&mut self, key: &Vec<String>)
        requires
            old(self).wf(),
        ensures
            final(self).wf(),
            final(self).map_view() == old(self).map_view().remove(views(key@)),
    {
        let ghost k = views(key@);
        match self.find(key) {
            Some(i) => {
                proof {
                    lemma_entries_map_remove(self.entries@, i as int);
                }
                let _ = self.entries.remove(i);
            },
            None => {
                proof {
                    lemma_entries_map_contains(self.entries@, k);
                    assert(self.map_view() =~= self.map_view().remove(k));
                }
            },
        }
    }
}

} // verus!
