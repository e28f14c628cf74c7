//! A map keyed by byte strings, kept as a list of distinct keys.

use vstd::prelude::*;
use crate::domain::transaction::input::copy_bytes;
use crate::domain::transaction::output::bytes_equal;

verus! {

/// Values that can be copied with their view kept.
pub trait CopyView: View + Sized {
    fn copy(&self) -> (r: Self)
        ensures
            r@ == self@;
}

impl CopyView for Vec<u8> {
    fn copy(&self) -> (r: Self) {
        copy_bytes(self)
    }
}

/// The map of a list of (key, value) entries: each key of an entry, with
/// the value of an entry that holds it.
pub open spec fn entries_map<K, V>(e: Seq<(K, V)>) -> Map<K, V> {
    Map::new(
        |k: K| exists|i: int| 0 <= i < e.len() && #[trigger] e[i].0 == k,
        |k: K| e[choose|i: int| 0 <= i < e.len() && #[trigger] e[i].0 == k].1,
    )
}

/// No key occurs twice among the entries.
pub open spec fn distinct_keys<K, V>(e: Seq<(K, V)>) -> bool {
    forall|i: int, j: int| 0 <= i < j < e.len() ==> #[trigger] e[i].0 != #[trigger] e[j].0
}

/// With distinct keys, an entry's value is the map's value of its key.
pub proof fn lemma_entries_map_entry<K, V>(e: Seq<(K, V)>, i: int)
    requires
        distinct_keys(e),
        0 <= i < e.len(),
    ensures
        entries_map(e).dom().contains(e[i].0),
        entries_map(e)[e[i].0] == e[i].1,
{
    let a = e[i].0;
    assert(entries_map(e).dom().contains(a));
    let j = choose|j: int| 0 <= j < e.len() && #[trigger] e[j].0 == a;
    if j < i {
        assert(e[j].0 != e[i].0);
    } else if i < j {
        assert(e[i].0 != e[j].0);
    }
}

/// Replacing the value of an entry sets the key's value in the map.
pub proof fn lemma_entries_map_update<K, V>(e: Seq<(K, V)>, i: int, v: V)
    requires
        distinct_keys(e),
        0 <= i < e.len(),
    ensures
        distinct_keys(e.update(i, (e[i].0, v))),
        entries_map(e.update(i, (e[i].0, v))) == entries_map(e).insert(e[i].0, v),
{
    let a = e[i].0;
    let f = e.update(i, (a, v));
    assert forall|x: int, y: int| 0 <= x < y < f.len() implies #[trigger] f[x].0 != #[trigger] f[y].0 by {
        assert(e[x].0 != e[y].0);
    }
    assert forall|k: K| #![auto] entries_map(f).dom().contains(k) <==> entries_map(e).insert(a, v).dom().contains(k) by {
        if k != a && entries_map(e).dom().contains(k) {
            let j = choose|j: int| 0 <= j < e.len() && #[trigger] e[j].0 == k;
            assert(f[j].0 == k);
        }
        if entries_map(f).dom().contains(k) && k != a {
            let j = choose|j: int| 0 <= j < f.len() && #[trigger] f[j].0 == k;
            assert(e[j].0 == k);
        }
        if k == a {
            assert(f[i].0 == a);
        }
    }
    assert forall|k: K| #![auto] entries_map(f).dom().contains(k) implies entries_map(f)[k] == entries_map(e).insert(a, v)[k] by {
        let j = choose|j: int| 0 <= j < f.len() && #[trigger] f[j].0 == k;
        lemma_entries_map_entry(f, j);
        if k != a {
            lemma_entries_map_entry(e, j);
        }
    }
    assert(entries_map(f) =~= entries_map(e).insert(a, v));
}

/// Adding an entry with a new key inserts the key into the map.
pub proof fn lemma_entries_map_push<K, V>(e: Seq<(K, V)>, a: K, v: V)
    requires
        distinct_keys(e),
        !entries_map(e).dom().contains(a),
    ensures
        distinct_keys(e.push((a, v))),
        entries_map(e.push((a, v))) == entries_map(e).insert(a, v),
{
    let f = e.push((a, v));
    let n = e.len() as int;
    assert forall|x: int, y: int| 0 <= x < y < f.len() implies #[trigger] f[x].0 != #[trigger] f[y].0 by {
        if y == n {
            if f[x].0 == a {
                assert(e[x].0 == a);
            }
        } else {
            assert(e[x].0 != e[y].0);
        }
    }
    assert forall|k: K| #![auto] entries_map(f).dom().contains(k) <==> entries_map(e).insert(a, v).dom().contains(k) by {
        if k != a && entries_map(e).dom().contains(k) {
            let j = choose|j: int| 0 <= j < e.len() && #[trigger] e[j].0 == k;
            assert(f[j].0 == k);
        }
        if entries_map(f).dom().contains(k) && k != a {
            let j = choose|j: int| 0 <= j < f.len() && #[trigger] f[j].0 == k;
            assert(e[j].0 == k);
        }
        if k == a {
            assert(f[n].0 == a);
        }
    }
    assert forall|k: K| #![auto] entries_map(f).dom().contains(k) implies entries_map(f)[k] == entries_map(e).insert(a, v)[k] by {
        let j = choose|j: int| 0 <= j < f.len() && #[trigger] f[j].0 == k;
        lemma_entries_map_entry(f, j);
        if k != a {
            lemma_entries_map_entry(e, j);
        }
    }
    assert(entries_map(f) =~= entries_map(e).insert(a, v));
}

/// Removing an entry removes its key from the map.
pub proof fn lemma_entries_map_remove<K, V>(e: Seq<(K, V)>, i: int)
    requires
        distinct_keys(e),
        0 <= i < e.len(),
    ensures
        distinct_keys(e.remove(i)),
        entries_map(e.remove(i)) == entries_map(e).remove(e[i].0),
{
    let a = e[i].0;
    let f = e.remove(i);
    assert forall|x: int, y: int| 0 <= x < y < f.len() implies #[trigger] f[x].0 != #[trigger] f[y].0 by {
        let x0 = if x < i { x } else { x + 1 };
        let y0 = if y < i { y } else { y + 1 };
        assert(e[x0].0 != e[y0].0);
    }
    assert forall|k: K| #![auto] entries_map(f).dom().contains(k) <==> entries_map(e).remove(a).dom().contains(k) by {
        if k != a && entries_map(e).dom().contains(k) {
            let j = choose|j: int| 0 <= j < e.len() && #[trigger] e[j].0 == k;
            if j < i {
                assert(f[j].0 == k);
            } else {
                assert(j != i);
                assert(f[j - 1].0 == k);
            }
        }
        if entries_map(f).dom().contains(k) {
            let j = choose|j: int| 0 <= j < f.len() && #[trigger] f[j].0 == k;
            if j < i {
                assert(e[j].0 == k);
                assert(e[j].0 != e[i].0);
            } else {
                assert(e[j + 1].0 == k);
                assert(e[i].0 != e[j + 1].0);
            }
        }
    }
    assert forall|k: K| #![auto] entries_map(f).dom().contains(k) implies entries_map(f)[k] == entries_map(e).remove(a)[k] by {
        let j = choose|j: int| 0 <= j < f.len() && #[trigger] f[j].0 == k;
        lemma_entries_map_entry(f, j);
        if j < i {
            lemma_entries_map_entry(e, j);
        } else {
            lemma_entries_map_entry(e, j + 1);
        }
    }
    assert(entries_map(f) =~= entries_map(e).remove(a));
}

/// A map from byte strings to values, in the order keys were first added.
pub struct ByteMap<V: CopyView> {
    entries: Vec<(Vec<u8>, V)>,
}

impl<V: CopyView> ByteMap<V> {
    /// The entries' keys and values.
    pub closed spec fn entries(&self) -> Seq<(Seq<u8>, V::V)> {
        self.entries@.map_values(|e: (Vec<u8>, V)| (e.0@, e.1@))
    }

    /// The map's contents.
    pub open spec fn view(&self) -> Map<Seq<u8>, V::V> {
        entries_map(self.entries())
    }

    /// No key occurs twice.
    pub closed spec fn wf(&self) -> bool {
        distinct_keys(self.entries())
    }

    /// The keys in the order they were first added.
    pub closed spec fn key_order(&self) -> Seq<Seq<u8>> {
        self.entries().map_values(|e: (Seq<u8>, V::V)| e.0)
    }

    /// An empty map.
    pub fn new() -> (m: Self)
        ensures
            m.wf(),
            m.view() == Map::<Seq<u8>, V::V>::empty(),
            m.key_order() == Seq::<Seq<u8>>::empty(),
    {
        let m = ByteMap { entries: Vec::new() };
        assert(m.view() =~= Map::<Seq<u8>, V::V>::empty());
        assert(m.key_order() =~= Seq::<Seq<u8>>::empty());
        m
    }

    /// The number of keys.
    pub fn len(&self) -> (n: usize)
        requires
            self.wf(),
        ensures
            n == self.key_order().len(),
    {
        self.entries.len()
    }

    /// The keys in order are exactly the map's keys, each once.
    pub proof fn lemma_key_order(&self)
        requires
            self.wf(),
        ensures
            forall|i: int| 0 <= i < self.key_order().len() ==> self.view().dom().contains(#[trigger] self.key_order()[i]),
            forall|k: Seq<u8>| self.view().dom().contains(k) ==> self.key_order().contains(k),
            forall|i: int, j: int| 0 <= i < j < self.key_order().len() ==> #[trigger] self.key_order()[i] != #[trigger] self.key_order()[j],
    {
        assert forall|i: int| 0 <= i < self.key_order().len() implies self.view().dom().contains(#[trigger] self.key_order()[i]) by {
            lemma_entries_map_entry(self.entries(), i);
        }
        assert forall|k: Seq<u8>| self.view().dom().contains(k) implies self.key_order().contains(k) by {
            let j = choose|j: int| 0 <= j < self.entries().len() && #[trigger] self.entries()[j].0 == k;
            assert(self.key_order()[j] == k);
        }
    }

    fn find_index(&self, key: &[u8]) -> (idx: Option<usize>)
        ensures
            match idx {
                Some(i) => i < self.entries().len() && self.entries()[i as int].0 == key@,
                None => forall|i: int| 0 <= i < self.entries().len() ==> #[trigger] self.entries()[i].0 != key@,
            },
    {
        let mut i: usize = 0;
        while i < self.entries.len()
            invariant
                i <= self.entries@.len(),
                forall|j: int| 0 <= j < i ==> #[trigger] self.entries()[j].0 != key@,
            decreases self.entries@.len() - i,
        {
            if bytes_equal(self.entries[i].0.as_slice(), key) {
                return Some(i);
            }
            i = i + 1;
        }
        None
    }

    /// A copy of the value of `key`, if there is one.
    pub fn get(&self, key: &[u8]) -> (v: Option<V>)
        requires
            self.wf(),
        ensures
            match v {
                Some(v) => self.view().dom().contains(key@) && v@ == self.view()[key@],
                None => !self.view().dom().contains(key@),
            },
    {
        match self.find_index(key) {
            Some(i) => {
                proof {
                    lemma_entries_map_entry(self.entries(), i as int);
                }
                Some(self.entries[i].1.copy())
            },
            None => None,
        }
    }

    /// The key and a copy of the value at position `i` of the key order.
    pub fn entry_at(&self, i: usize) -> (e: (Vec<u8>, V))
        requires
            self.wf(),
            i < self.key_order().len(),
        ensures
            e.0@ == self.key_order()[i as int],
            e.1@ == self.view()[e.0@],
    {
        proof {
            lemma_entries_map_entry(self.entries(), i as int);
        }
        (copy_bytes(&self.entries[i].0), self.entries[i].1.copy())
    }

    /// Sets the value of `key`, replacing any value it had; a new key goes last.
    pub fn insert(&mut self, key: Vec<u8>, value: V)
        requires
            old(self).wf(),
        ensures
            final(self).wf(),
            final(self).view() == old(self).view().insert(key@, value@),
            old(self).view().dom().contains(key@) ==> final(self).key_order() == old(self).key_order(),
            !old(self).view().dom().contains(key@) ==> final(self).key_order() == old(self).key_order().push(key@),
    {
        let ghost a = key@;
        let ghost w = value@;
        let ghost old_e = self.entries();
        match self.find_index(key.as_slice()) {
            Some(i) => {
                self.entries.set(i, (key, value));
                assert(self.entries() =~= old_e.update(i as int, (a, w)));
                proof {
                    lemma_entries_map_update(old_e, i as int, w);
                    lemma_entries_map_entry(old_e, i as int);
                    assert(self.key_order() =~= old_e.map_values(|e: (Seq<u8>, V::V)| e.0));
                }
            },
            None => {
                self.entries.push((key, value));
                assert(self.entries() =~= old_e.push((a, w)));
                proof {
                    if entries_map(old_e).dom().contains(a) {
                        let j = choose|j: int| 0 <= j < old_e.len() && #[trigger] old_e[j].0 == a;
                    }
                    lemma_entries_map_push(old_e, a, w);
                    assert(self.key_order() =~= old_e.map_values(|e: (Seq<u8>, V::V)| e.0).push(a));
                }
            },
        }
    }

    /// Removes `key` and its value, if present.
    pub fn remove(&mut self, key: &[u8])
        requires
            old(self).wf(),
        ensures
            final(self).wf(),
            final(self).view() == old(self).view().remove(key@),
    {
        let ghost a = key@;
        let ghost old_e = self.entries();
        match self.find_index(key) {
            Some(i) => {
                self.entries.remove(i);
                assert(self.entries() =~= old_e.remove(i as int));
                proof {
                    lemma_entries_map_remove(old_e, i as int);
                }
            },
            None => {
                assert(!entries_map(old_e).dom().contains(a));
                assert(self.view() =~= entries_map(old_e).remove(a));
            },
        }
    }
}

} // verus!
