//! The retention index primitive: a string-keyed store with point get, put
//! and delete, abstracted as a `Map` from key characters to records.
//!
//! Every record family of the engine (media references, event references,
//! deletion queue, pending uploads, preferences, blob catalogue) lives in one
//! of these stores.  Keys are unique; the view is the finite map the entries
//! denote.

use vstd::prelude::*;
use crate::strutil::str_eq;

verus! {

/// The map denoted by a sequence of entries; a later entry for the same key
/// would win, though well-formed stores never hold two.
pub closed spec fn entries_map<V: View>(s: Seq<(String, V)>) -> Map<Seq<char>, V::V>
    decreases s.len(),
{
    if s.len() == 0 {
        Map::empty()
    } else {
        entries_map(s.drop_last()).insert(s.last().0@, s.last().1@)
    }
}

proof fn lemma_entries_map_dom<V: View>(s: Seq<(String, V)>, k: Seq<char>)
    ensures
        entries_map(s).contains_key(k) <==> exists|i: int| 0 <= i < s.len() && s[i].0@ == k,
    decreases s.len(),
{
    if s.len() > 0 {
        lemma_entries_map_dom(s.drop_last(), k);
        if s.last().0@ == k {
            assert(s[s.len() - 1].0@ == k);
        } else if entries_map(s).contains_key(k) {
            let i = choose|i: int| 0 <= i < s.drop_last().len() && s.drop_last()[i].0@ == k;
            assert(s[i].0@ == k);
        } else {
            assert(forall|i: int|
                0 <= i < s.len() - 1 && s.drop_last()[i].0@ == s[i].0@ ==> true);
            assert(!(exists|i: int| 0 <= i < s.len() && s[i].0@ == k)) by {
                if exists|i: int| 0 <= i < s.len() && s[i].0@ == k {
                    let i = choose|i: int| 0 <= i < s.len() && s[i].0@ == k;
                    if i < s.len() - 1 {
                        assert(s.drop_last()[i].0@ == k);
                    }
                }
            }
        }
    }
}

proof fn lemma_entries_map_index<V: View>(s: Seq<(String, V)>, i: int)
    requires
        0 <= i < s.len(),
        forall|j: int| i < j < s.len() ==> s[j].0@ != s[i].0@,
    ensures
        entries_map(s).contains_key(s[i].0@),
        entries_map(s)[s[i].0@] == s[i].1@,
    decreases s.len(),
{
    if i == s.len() - 1 {
    } else {
        assert(s.drop_last()[i] == s[i]);
        lemma_entries_map_index(s.drop_last(), i);
    }
}

proof fn lemma_entries_map_remove_at<V: View>(s: Seq<(String, V)>, i: int)
    requires
        0 <= i < s.len(),
        forall|p: int, q: int| 0 <= p < q < s.len() ==> s[p].0@ != s[q].0@,
    ensures
        entries_map(s.remove(i)) =~= entries_map(s).remove(s[i].0@),
    decreases s.len(),
{
    lemma_entries_map_dom(s.drop_last(), s[i].0@);
    if i == s.len() - 1 {
        assert(s.remove(i) =~= s.drop_last());
        assert(!entries_map(s.drop_last()).contains_key(s[i].0@));
        assert(entries_map(s.drop_last()).insert(s.last().0@, s.last().1@).remove(s[i].0@)
            =~= entries_map(s.drop_last()));
    } else {
        assert(s.remove(i).drop_last() =~= s.drop_last().remove(i));
        assert(s.remove(i).last() == s.last());
        lemma_entries_map_remove_at(s.drop_last(), i);
        assert(entries_map(s.remove(i)) == entries_map(s.drop_last().remove(i)).insert(
            s.last().0@,
            s.last().1@,
        ));
    }
}

/// A string-keyed store with unique keys.
pub struct KvStore<V: View> {
    entries: Vec<(String, V)>,
}

impl<V: View> View for KvStore<V> {
    type V = Map<Seq<char>, V::V>;

    closed spec fn view(&self) -> Map<Seq<char>, V::V> {
        entries_map(self.entries@)
    }
}

impl<V: View> KvStore<V> {
    /// Keys are pairwise distinct.
    pub closed spec fn wf(&self) -> bool {
        forall|p: int, q: int|
            0 <= p < q < self.entries@.len() ==> self.entries@[p].0@ != self.entries@[q].0@
    }

    /// How many records the store holds.
    pub closed spec fn num_entries(&self) -> nat {
        self.entries@.len()
    }

    /// The key of the record at a position.
    pub closed spec fn key_at_spec(&self, i: int) -> Seq<char> {
        self.entries@[i].0@
    }

    /// The record at a position, abstracted.
    pub closed spec fn val_at_spec(&self, i: int) -> V::V {
        self.entries@[i].1@
    }

    /// Every position holds a record of the map.
    pub proof fn lemma_entry_in_view(&self, i: int)
        requires
            self.wf(),
            0 <= i < self.num_entries(),
        ensures
            self@.contains_key(self.key_at_spec(i)),
            self@[self.key_at_spec(i)] == self.val_at_spec(i),
    {
        lemma_entries_map_index(self.entries@, i);
    }

    /// Distinct positions hold distinct keys.
    pub proof fn lemma_keys_distinct(&self, p: int, q: int)
        requires
            self.wf(),
            0 <= p < self.num_entries(),
            0 <= q < self.num_entries(),
            p != q,
        ensures
            self.key_at_spec(p) != self.key_at_spec(q),
    {
    }

    /// Every key of the map stands at some position.
    pub proof fn lemma_view_covered(&self, k: Seq<char>)
        requires
            self@.contains_key(k),
        ensures
            exists|i: int| 0 <= i < self.num_entries() && self.key_at_spec(i) == k,
    {
        lemma_entries_map_dom(self.entries@, k);
        let i = choose|i: int| 0 <= i < self.entries@.len() && self.entries@[i].0@ == k;
        assert(self.key_at_spec(i) == k);
    }

    /// An empty store.
    pub fn new() -> (r: Self)
        ensures
            r.wf(),
            r@ == Map::<Seq<char>, V::V>::empty(),
            r.num_entries() == 0,
    {
        KvStore { entries: Vec::new() }
    }

    pub fn len(&self) -> (r: usize)
        ensures
            r == self.num_entries(),
    {
        self.entries.len()
    }

    pub fn key_at(&self, i: usize) -> (r: &String)
        requires
            i < self.num_entries(),
        ensures
            r@ == self.key_at_spec(i as int),
    {
        &self.entries[i].0
    }

    pub fn val_at(&self, i: usize) -> (r: &V)
        requires
            i < self.num_entries(),
        ensures
            r@ == self.val_at_spec(i as int),
    {
        &self.entries[i].1
    }

    /// Point get.
    pub fn get(&self, key: &str) -> (r: Option<&V>)
        requires
            self.wf(),
        ensures
            match r {
                Some(v) => self@.contains_key(key@) && v@ == self@[key@],
                None => !self@.contains_key(key@),
            },
    {
        let n = self.entries.len();
        let mut i: usize = 0;
        while i < n
            invariant
                self.wf(),
                n == self.num_entries(),
                0 <= i <= n,
                forall|j: int| 0 <= j < i ==> self.key_at_spec(j) != key@,
            decreases n - i,
        {
            if str_eq(self.entries[i].0.as_str(), key) {
                proof {
                    self.lemma_entry_in_view(i as int);
                }
                return Some(&self.entries[i].1);
            }
            i += 1;
        }
        proof {
            if self@.contains_key(key@) {
                self.lemma_view_covered(key@);
            }
        }
        None
    }

    /// Point delete; returns the removed record.
    pub fn remove(&mut self, key: &str) -> (r: Option<V>)
        requires
            old(self).wf(),
        ensures
            final(self).wf(),
            final(self)@ == old(self)@.remove(key@),
            match r {
                Some(v) => old(self)@.contains_key(key@) && v@ == old(self)@[key@],
                None => !old(self)@.contains_key(key@) && final(self)@ == old(self)@,
            },
    {
        let n = self.entries.len();
        let mut i: usize = 0;
        while i < n
            invariant
                *self == *old(self),
                self.wf(),
                n == self.num_entries(),
                0 <= i <= n,
                forall|j: int| 0 <= j < i ==> self.key_at_spec(j) != key@,
            decreases n - i,
        {
            if str_eq(self.entries[i].0.as_str(), key) {
                proof {
                    self.lemma_entry_in_view(i as int);
                    lemma_entries_map_remove_at(self.entries@, i as int);
                }
                let (_, v) = self.entries.remove(i);
                return Some(v);
            }
            i += 1;
        }
        proof {
            if self@.contains_key(key@) {
                self.lemma_view_covered(key@);
            }
            assert(self@.remove(key@) =~= self@);
        }
        None
    }

    /// Point put; replaces any record under the same key.
    pub fn insert(&mut self, key: String, val: V)
        requires
            old(self).wf(),
        ensures
            final(self).wf(),
            final(self)@ == old(self)@.insert(key@, val@),
    {
        let _ = self.remove(key.as_str());
        proof {
            lemma_entries_map_dom(self.entries@, key@);
            assert(self.entries@.push((key, val)).drop_last() =~= self.entries@);
        }
        let ghost before = self.entries@;
        let ghost beforemap = self@;
        self.entries.push((key, val));
        proof {
            assert(self.entries@ =~= before.push((key, val)));
            assert(self.entries@.drop_last() =~= before);
            assert(self@ == beforemap.insert(key@, val@));
            assert(self@ =~= old(self)@.insert(key@, val@));
            assert forall|p: int, q: int|
                0 <= p < q < self.entries@.len() implies self.entries@[p].0@
                != self.entries@[q].0@ by {
                if q == self.entries@.len() - 1 {
                    assert(self.entries@[p] == before[p]);
                    assert(!beforemap.contains_key(key@));
                    lemma_entries_map_dom(before, before[p].0@);
                }
            }
        }
    }
}

} // verus!
