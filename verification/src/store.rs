//! An in-memory key-value store with string keys.
//!
//! Entries keep their insertion order, so the oldest entries of an undo ring
//! can be pruned from the front; the abstract view is a map from key
//! characters to values.

use vstd::prelude::*;

verus! {

/// A store of unique string keys, kept in insertion order.
pub struct KvStore<V> {
    pub entries: Vec<(String, V)>,
}

/// The map described by a sequence of key-value entries; a later entry for
/// the same key wins.
pub open spec fn entries_map<V: View>(s: Seq<(String, V)>) -> Map<Seq<char>, V::V>
    decreases s.len(),
{
    if s.len() == 0 {
        Map::<Seq<char>, V::V>::empty()
    } else {
        entries_map(s.drop_last()).insert(s.last().0@, s.last().1@)
    }
}

impl<V: View> KvStore<V> {
    /// All keys are distinct.
    pub open spec fn wf(&self) -> bool {
        forall|i: int, j: int|
            0 <= i < j < self.entries@.len() ==> self.entries@[i].0@ != self.entries@[j].0@
    }

    /// The store as a map from key characters to abstract values.
    pub open spec fn view(&self) -> Map<Seq<char>, V::V> {
        entries_map(self.entries@)
    }

    /// The keys in insertion order.
    pub open spec fn key_seq(&self) -> Seq<Seq<char>> {
        self.entries@.map_values(|e: (String, V)| e.0@)
    }

    pub fn new() -> (r: KvStore<V>)
        ensures
            r.wf(),
            r@ == Map::<Seq<char>, V::V>::empty(),
            r.entries@.len() == 0,
    {
        KvStore { entries: Vec::new() }
    }

    pub fn len(&self) -> (r: usize)
        ensures
            r == self.entries@.len(),
    {
        self.entries.len()
    }

    /// Look a key up.
    pub fn get(&self, k: &String) -> (r: Option<&V>)
        requires
            self.wf(),
        ensures
            match r {
                Some(v) => self@.contains_key(k@) && v@ == self@[k@],
                None => !self@.contains_key(k@),
            },
    {
        let n = self.entries.len();
        let mut i: usize = 0;
        while i < n
            invariant
                n == self.entries@.len(),
                self.wf(),
                forall|j: int| 0 <= j < i ==> self.entries@[j].0@ != k@,
            decreases n - i,
        {
            let e = &self.entries[i];
            if e.0 == *k {
                proof {
                    lemma_entries_map_index(self.entries@, i as int);
                }
                return Some(&e.1);
            }
            i += 1;
        }
        proof {
            lemma_entries_map_dom(self.entries@, k@);
        }
        None
    }

    /// Whether a key is present.
    pub fn contains(&self, k: &String) -> (r: bool)
        requires
            self.wf(),
        ensures
            r == self@.contains_key(k@),
    {
        self.get(k).is_some()
    }

    /// Insert a pair; an existing entry for the key is overwritten in place,
    /// a fresh key is appended at the back.
    pub fn insert(&mut self, k: String, v: V)
        requires
            old(self).wf(),
        ensures
            final(self).wf(),
            final(self)@ == old(self)@.insert(k@, v@),
            old(self)@.contains_key(k@) ==> final(self).key_seq() == old(self).key_seq(),
            !old(self)@.contains_key(k@) ==> final(self).key_seq() == old(self).key_seq()
                + seq![k@],
            final(self).entries@.len() == if old(self)@.contains_key(k@) {
                old(self).entries@.len() as int
            } else {
                old(self).entries@.len() + 1int
            },
    {
        let n = self.entries.len();
        let mut i: usize = 0;
        while i < n
            invariant
                n == self.entries@.len(),
                self.entries@ == old(self).entries@,
                self.wf(),
                forall|j: int| 0 <= j < i ==> self.entries@[j].0@ != k@,
            decreases n - i,
        {
            let e = &self.entries[i];
            if e.0 == k {
                proof {
                    lemma_entries_map_index(self.entries@, i as int);
                    lemma_entries_map_overwrite(self.entries@, i as int, v);
                }
                let ghost old_entries = self.entries@;
                self.entries[i].1 = v;
                proof {
                    assert(self.entries@ =~= old_entries.update(
                        i as int,
                        (old_entries[i as int].0, v),
                    ));
                    assert(self.key_seq() =~= old(self).key_seq());
                }
                return ;
            }
            i += 1;
        }
        proof {
            lemma_entries_map_dom(self.entries@, k@);
        }
        let ghost old_entries = self.entries@;
        self.entries.push((k, v));
        proof {
            assert(self.entries@.drop_last() =~= old_entries);
            assert(self.key_seq() =~= old(self).key_seq() + seq![k@]);
        }
    }

    /// Remove a key; absent keys are left alone.
    pub fn remove(&mut self, k: &String)
        requires
            old(self).wf(),
        ensures
            final(self).wf(),
            final(self)@ == old(self)@.remove(k@),
            final(self).key_seq() == old(self).key_seq().remove_value(k@),
    {
        let n = self.entries.len();
        let mut i: usize = 0;
        while i < n
            invariant
                n == self.entries@.len(),
                self.entries@ == old(self).entries@,
                self.wf(),
                forall|j: int| 0 <= j < i ==> self.entries@[j].0@ != k@,
            decreases n - i,
        {
            let e = &self.entries[i];
            if e.0 == *k {
                proof {
                    lemma_entries_map_index(self.entries@, i as int);
                    lemma_entries_map_erase(self.entries@, i as int);
                    assert(self.key_seq()[i as int] == k@);
                    lemma_first_index(self.key_seq(), k@, i as int);
                }
                self.entries.remove(i);
                proof {
                    assert(self.key_seq() =~= old(self).key_seq().remove(i as int));
                }
                return ;
            }
            i += 1;
        }
        proof {
            lemma_entries_map_dom(self.entries@, k@);
            assert(old(self)@.remove(k@) =~= old(self)@);
            assert(!self.key_seq().contains(k@)) by {
                assert(forall|j: int|
                    0 <= j < self.key_seq().len() ==> self.key_seq()[j]
                        == self.entries@[j].0@);
            }
            self.key_seq().index_of_first_ensures(k@);
        }
    }

    /// Drop the `n` oldest entries (or all of them, if fewer remain).
    pub fn prune_oldest(&mut self, n: usize)
        requires
            old(self).wf(),
        ensures
            final(self).wf(),
            final(self).entries@ == old(self).entries@.skip(
                if n <= old(self).entries@.len() {
                    n as int
                } else {
                    old(self).entries@.len() as int
                },
            ),
    {
        let mut dropped: usize = 0;
        while dropped < n && self.entries.len() > 0
            invariant
                self.wf(),
                dropped <= n,
                dropped <= old(self).entries@.len(),
                self.entries@ == old(self).entries@.skip(dropped as int),
            decreases n - dropped,
        {
            let ghost before = self.entries@;
            self.entries.remove(0);
            proof {
                assert(self.entries@ =~= before.skip(1));
                assert(self.entries@ =~= old(self).entries@.skip(dropped + 1));
            }
            dropped += 1;
        }
        proof {
            if dropped < n {
                assert(self.entries@.len() == 0);
                assert(dropped == old(self).entries@.len());
            }
        }
    }
}

/// An entry's key maps to its value.
pub proof fn lemma_entries_map_index<V: View>(s: Seq<(String, V)>, i: int)
    requires
        0 <= i < s.len(),
        forall|a: int, b: int| 0 <= a < b < s.len() ==> s[a].0@ != s[b].0@,
    ensures
        entries_map(s).contains_key(s[i].0@),
        entries_map(s)[s[i].0@] == s[i].1@,
    decreases s.len(),
{
    if i < s.len() - 1 {
        lemma_entries_map_index(s.drop_last(), i);
    }
}

/// A key is in the map's domain exactly when some entry holds it.
pub proof fn lemma_entries_map_dom<V: View>(s: Seq<(String, V)>, k: Seq<char>)
    ensures
        entries_map(s).contains_key(k) <==> exists|i: int| 0 <= i < s.len() && s[i].0@ == k,
    decreases s.len(),
{
    if s.len() > 0 {
        lemma_entries_map_dom(s.drop_last(), k);
        if entries_map(s).contains_key(k) && s.last().0@ != k {
            let i = choose|i: int| 0 <= i < s.len() - 1 && s.drop_last()[i].0@ == k;
            assert(s[i].0@ == k);
        }
        if exists|i: int| 0 <= i < s.len() && s[i].0@ == k {
            let i = choose|i: int| 0 <= i < s.len() && s[i].0@ == k;
            if i < s.len() - 1 {
                assert(s.drop_last()[i].0@ == k);
            }
        }
    }
}

/// Overwriting an entry's value in place is the map's insert.
pub proof fn lemma_entries_map_overwrite<V: View>(s: Seq<(String, V)>, i: int, v: V)
    requires
        0 <= i < s.len(),
        forall|a: int, b: int| 0 <= a < b < s.len() ==> s[a].0@ != s[b].0@,
    ensures
        entries_map(s.update(i, (s[i].0, v))) == entries_map(s).insert(s[i].0@, v@),
    decreases s.len(),
{
    let t = s.update(i, (s[i].0, v));
    if i == s.len() - 1 {
        assert(t.drop_last() =~= s.drop_last());
        assert(entries_map(t) =~= entries_map(s).insert(s[i].0@, v@));
    } else {
        lemma_entries_map_overwrite(s.drop_last(), i, v);
        assert(t.drop_last() =~= s.drop_last().update(i, (s[i].0, v)));
        assert(t.last() == s.last());
        assert(entries_map(t) =~= entries_map(s).insert(s[i].0@, v@));
    }
}

/// Removing an entry is the map's remove.
pub proof fn lemma_entries_map_erase<V: View>(s: Seq<(String, V)>, i: int)
    requires
        0 <= i < s.len(),
        forall|a: int, b: int| 0 <= a < b < s.len() ==> s[a].0@ != s[b].0@,
    ensures
        entries_map(s.remove(i)) == entries_map(s).remove(s[i].0@),
    decreases s.len(),
{
    if i == s.len() - 1 {
        assert(s.remove(i) =~= s.drop_last());
        lemma_entries_map_absent(s.drop_last(), s[i].0@);
        assert(entries_map(s.remove(i)) =~= entries_map(s).remove(s[i].0@));
    } else {
        lemma_entries_map_erase(s.drop_last(), i);
        assert(s.remove(i).drop_last() =~= s.drop_last().remove(i));
        assert(s.remove(i).last() == s.last());
        assert(entries_map(s.remove(i)) =~= entries_map(s).remove(s[i].0@));
    }
}

/// A key held by no entry is outside the map's domain, so removing it
/// changes nothing.
pub proof fn lemma_entries_map_absent<V: View>(s: Seq<(String, V)>, k: Seq<char>)
    requires
        forall|i: int| 0 <= i < s.len() ==> s[i].0@ != k,
    ensures
        !entries_map(s).contains_key(k),
        entries_map(s).remove(k) == entries_map(s),
    decreases s.len(),
{
    lemma_entries_map_dom(s, k);
    assert(entries_map(s).remove(k) =~= entries_map(s));
}

/// When a value's first occurrence is at `i`, removing the value removes
/// that position.
pub proof fn lemma_first_index<A>(s: Seq<A>, x: A, i: int)
    requires
        0 <= i < s.len(),
        s[i] == x,
        forall|j: int| 0 <= j < i ==> s[j] != x,
    ensures
        s.remove_value(x) == s.remove(i),
{
    s.index_of_first_ensures(x);
    assert(s.contains(x));
    let j = s.index_of_first(x).unwrap();
    assert(s[j] == x);
    assert(j == i);
}

} // verus!
