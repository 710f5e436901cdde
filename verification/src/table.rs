//! An association table from stream name to a value, read as a `Map`.
//!
//! The relay keys all of its state by stream name. A table is a vector of
//! entries with pairwise-distinct keys; every contract speaks of the map
//! those entries denote, so callers never see the representation.

use vstd::prelude::*;
use crate::bytes::bytes_eq;

verus! {

/// One table entry: a stream name and the value recorded for it.
pub(crate) struct Entry<V> {
    pub key: Vec<u8>,
    pub val: V,
}

/// The map a sequence of entries denotes; with pairwise-distinct keys the
/// order of the entries does not matter.
pub(crate) open spec fn map_of<V: View>(s: Seq<Entry<V>>) -> Map<Seq<u8>, V::V>
    decreases s.len(),
{
    if s.len() == 0 {
        Map::empty()
    } else {
        map_of(s.drop_last()).insert(s.last().key@, s.last().val@)
    }
}

/// Pairwise-distinct keys.
pub(crate) open spec fn distinct_keys<V>(s: Seq<Entry<V>>) -> bool {
    forall|i: int, j: int| 0 <= i < j < s.len() ==> s[i].key@ != s[j].key@
}

proof fn lemma_distinct_drop_last<V>(s: Seq<Entry<V>>)
    requires
        distinct_keys(s),
        s.len() > 0,
    ensures
        distinct_keys(s.drop_last()),
{
    assert forall|a: int, b: int| 0 <= a < b < s.drop_last().len()
        implies s.drop_last()[a].key@ != s.drop_last()[b].key@ by {
        assert(s.drop_last()[a] == s[a]);
        assert(s.drop_last()[b] == s[b]);
    }
}

/// A key is in the denoted map exactly when some entry carries it.
proof fn lemma_map_of_contains<V: View>(s: Seq<Entry<V>>, k: Seq<u8>)
    ensures
        map_of(s).contains_key(k) <==> exists|i: int| 0 <= i < s.len() && s[i].key@ == k,
    decreases s.len(),
{
    if s.len() > 0 {
        lemma_map_of_contains(s.drop_last(), k);
        if s.last().key@ == k {
            assert(s[s.len() - 1].key@ == k);
        } else {
            if exists|i: int| 0 <= i < s.len() && s[i].key@ == k {
                let i = choose|i: int| 0 <= i < s.len() && s[i].key@ == k;
                assert(s.drop_last()[i].key@ == k);
            }
            if exists|i: int| 0 <= i < s.drop_last().len() && s.drop_last()[i].key@ == k {
                let i = choose|i: int| 0 <= i < s.drop_last().len() && s.drop_last()[i].key@ == k;
                assert(s[i].key@ == k);
            }
        }
    }
}

/// With distinct keys, the entry carrying a key gives the map's value at it.
proof fn lemma_map_of_lookup<V: View>(s: Seq<Entry<V>>, i: int)
    requires
        distinct_keys(s),
        0 <= i < s.len(),
    ensures
        map_of(s).contains_key(s[i].key@),
        map_of(s)[s[i].key@] == s[i].val@,
    decreases s.len(),
{
    if i == s.len() - 1 {
    } else {
        assert(s[i].key@ != s[s.len() - 1].key@);
        lemma_distinct_drop_last(s);
        lemma_map_of_lookup(s.drop_last(), i);
        assert(s.drop_last()[i] == s[i]);
    }
}

/// Replacing the entry that carries a key updates the denoted map at that
/// key alone.
proof fn lemma_map_of_update<V: View>(s: Seq<Entry<V>>, i: int, e: Entry<V>)
    requires
        distinct_keys(s),
        0 <= i < s.len(),
        e.key@ == s[i].key@,
    ensures
        map_of(s.update(i, e)) == map_of(s).insert(e.key@, e.val@),
        distinct_keys(s.update(i, e)),
    decreases s.len(),
{
    let t = s.update(i, e);
    assert forall|a: int, b: int| 0 <= a < b < t.len()
        implies t[a].key@ != t[b].key@ by {
        assert(s[a].key@ != s[b].key@);
    }
    if i == s.len() - 1 {
        assert(t.drop_last() =~= s.drop_last());
        assert(t.last() == e);
        assert(map_of(s.drop_last()).insert(s.last().key@, s.last().val@).insert(e.key@, e.val@)
            =~= map_of(s.drop_last()).insert(e.key@, e.val@));
    } else {
        assert(t.drop_last() =~= s.drop_last().update(i, e));
        assert(t.last() == s.last());
        lemma_distinct_drop_last(s);
        assert(s.drop_last()[i] == s[i]);
        lemma_map_of_update(s.drop_last(), i, e);
        assert(s[i].key@ != s[s.len() - 1].key@);
        assert(map_of(s.drop_last()).insert(e.key@, e.val@).insert(s.last().key@, s.last().val@)
            =~= map_of(s.drop_last()).insert(s.last().key@, s.last().val@).insert(e.key@, e.val@));
    }
}

/// Appending an entry with a fresh key inserts it into the denoted map.
proof fn lemma_map_of_push<V: View>(s: Seq<Entry<V>>, e: Entry<V>)
    requires
        distinct_keys(s),
        forall|i: int| 0 <= i < s.len() ==> s[i].key@ != e.key@,
    ensures
        map_of(s.push(e)) == map_of(s).insert(e.key@, e.val@),
        distinct_keys(s.push(e)),
{
    assert(s.push(e).drop_last() =~= s);
    assert(s.push(e).last() == e);
    assert forall|a: int, b: int| 0 <= a < b < s.push(e).len()
        implies s.push(e)[a].key@ != s.push(e)[b].key@ by {
        if b < s.len() {
            assert(s[a].key@ != s[b].key@);
        } else {
            assert(s[a].key@ != e.key@);
        }
    }
}

/// An association table from stream name to `V`, read as a `Map` from the
/// name's bytes to the value's view.
pub struct Table<V> {
    entries: Vec<Entry<V>>,
}

impl<V: View> View for Table<V> {
    type V = Map<Seq<u8>, V::V>;

    closed spec fn view(&self) -> Map<Seq<u8>, V::V> {
        map_of(self.entries@)
    }
}

impl<V: View> Table<V> {
    /// The entries hold pairwise-distinct keys, so the vector and the map
    /// agree entry by entry.
    pub closed spec fn wf(&self) -> bool {
        distinct_keys(self.entries@)
    }

    /// An empty table: no key has a value.
    pub fn new() -> (r: Table<V>)
        ensures
            r.wf(),
            r@ == Map::<Seq<u8>, V::V>::empty(),
    {
        Table { entries: Vec::new() }
    }

    /// The value recorded for `key`, or `None` if `key` was never recorded.
    pub fn lookup(&self, key: &Vec<u8>) -> (r: Option<&V>)
        requires
            self.wf(),
        ensures
            (match r {
                Some(v) => self@.contains_key(key@) && v@ == self@[key@],
                None => !self@.contains_key(key@),
            }),
    {
        let mut i: usize = 0;
        while i < self.entries.len()
            invariant
                i <= self.entries@.len(),
                self.wf(),
                forall|j: int| 0 <= j < i ==> self.entries@[j].key@ != key@,
            decreases self.entries@.len() - i,
        {
            if bytes_eq(&self.entries[i].key, key) {
                proof {
                    lemma_map_of_lookup(self.entries@, i as int);
                }
                return Some(&self.entries[i].val);
            }
            i += 1;
        }
        proof {
            lemma_map_of_contains(self.entries@, key@);
        }
        None
    }

    /// Records `val` for `key`, fully replacing any earlier value.
    pub fn insert(&mut self, key: Vec<u8>, val: V)
        requires
            old(self).wf(),
        ensures
            final(self).wf(),
            final(self)@ == old(self)@.insert(key@, val@),
    {
        let mut i: usize = 0;
        while i < self.entries.len()
            invariant
                i <= self.entries@.len(),
                self == old(self),
                self.wf(),
                forall|j: int| 0 <= j < i ==> self.entries@[j].key@ != key@,
            decreases self.entries@.len() - i,
        {
            if bytes_eq(&self.entries[i].key, &key) {
                let ghost s0 = self.entries@;
                self.entries[i] = Entry { key, val };
                proof {
                    lemma_map_of_update(s0, i as int, self.entries@[i as int]);
                    assert(self.entries@ =~= s0.update(i as int, self.entries@[i as int]));
                }
                return;
            }
            i += 1;
        }
        let ghost s0 = self.entries@;
        self.entries.push(Entry { key, val });
        proof {
            lemma_map_of_push(s0, self.entries@[s0.len() as int]);
            assert(self.entries@ =~= s0.push(self.entries@[s0.len() as int]));
        }
    }
}

} // verus!
