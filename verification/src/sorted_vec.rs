//! Vectors and maps kept sorted by a strictly increasing integer key, as the
//! store's value encodings keep per-height histories and per-index output
//! sets.

use vstd::prelude::*;

verus! {

/// One keyed entry of a sorted collection.
#[derive(Clone, Debug)]
pub struct SortedEntry<V> {
    pub key: u64,
    pub value: V,
}

/// Entries in strictly increasing key order.
pub open spec fn spec_entries_sorted<V>(s: Seq<SortedEntry<V>>) -> bool {
    forall|i: int, j: int| 0 <= i < j < s.len() ==> (#[trigger] s[i]).key < (#[trigger] s[j]).key
}

/// A vector of entries in strictly increasing key order.
#[derive(Clone, Debug)]
pub struct SortedVec<V> {
    vec: Vec<SortedEntry<V>>,
}

impl<V> SortedVec<V> {
    /// The entries, in order.
    pub closed spec fn spec_entries(&self) -> Seq<SortedEntry<V>> {
        self.vec@
    }

    pub open spec fn wf(&self) -> bool {
        spec_entries_sorted(self.spec_entries())
    }

    pub fn empty() -> (r: SortedVec<V>)
        ensures
            r.wf(),
            r.spec_entries().len() == 0,
    {
        SortedVec { vec: Vec::new() }
    }

    /// Adopt a vector whose entries are already in strictly increasing key
    /// order.
    pub fn ingest(items: Vec<SortedEntry<V>>) -> (r: SortedVec<V>)
        requires
            spec_entries_sorted(items@),
        ensures
            r.wf(),
            r.spec_entries() == items@,
    {
        SortedVec { vec: items }
    }

    /// Append an entry whose key lies above every present key.
    pub fn append(&mut self, item: SortedEntry<V>)
        requires
            old(self).wf(),
            forall|i: int|
                0 <= i < old(self).spec_entries().len() ==> (#[trigger] old(
                    self,
                ).spec_entries()[i]).key < item.key,
        ensures
            final(self).wf(),
            final(self).spec_entries() == old(self).spec_entries().push(item),
    {
        self.vec.push(item);
    }

    pub fn is_empty(&self) -> (r: bool)
        ensures
            r == (self.spec_entries().len() == 0),
    {
        self.vec.len() == 0
    }

    pub fn len(&self) -> (r: usize)
        ensures
            r == self.spec_entries().len(),
    {
        self.vec.len()
    }

    /// The entry at a position.
    pub fn entry_at(&self, i: usize) -> (r: &SortedEntry<V>)
        requires
            i < self.spec_entries().len(),
        ensures
            *r == self.spec_entries()[i as int],
    {
        &self.vec[i]
    }

    /// The position of `key`, found by binary search.
    pub fn find(&self, key: u64) -> (r: Option<usize>)
        requires
            self.wf(),
        ensures
            match r {
                Some(i) => i < self.spec_entries().len() && self.spec_entries()[i as int].key
                    == key,
                None => forall|i: int|
                    0 <= i < self.spec_entries().len() ==> (#[trigger] self.spec_entries()[i]).key
                        != key,
            },
    {
        let mut lo: usize = 0;
        let mut hi: usize = self.vec.len();
        while lo < hi
            invariant
                0 <= lo <= hi <= self.spec_entries().len(),
                self.wf(),
                forall|i: int|
                    0 <= i < self.spec_entries().len() && (#[trigger] self.spec_entries()[i]).key
                        == key ==> lo <= i < hi,
            decreases hi - lo,
        {
            let mid = lo + (hi - lo) / 2;
            let k = self.vec[mid].key;
            if k == key {
                return Some(mid);
            } else if k < key {
                lo = mid + 1;
            } else {
                hi = mid;
            }
        }
        None
    }
}

/// A map from integer keys to values, kept as a sorted vector of entries.
#[derive(Clone, Debug)]
pub struct SortedMap<V> {
    sorted_vec: SortedVec<V>,
}

impl<V> SortedMap<V> {
    /// The entries, in strictly increasing key order.
    pub closed spec fn spec_entries(&self) -> Seq<SortedEntry<V>> {
        self.sorted_vec.spec_entries()
    }

    pub open spec fn wf(&self) -> bool {
        spec_entries_sorted(self.spec_entries())
    }

    pub fn empty() -> (r: SortedMap<V>)
        ensures
            r.wf(),
            r.spec_entries().len() == 0,
    {
        SortedMap { sorted_vec: SortedVec::empty() }
    }

    /// Adopt entries already in strictly increasing key order.
    pub fn ingest(entries: Vec<SortedEntry<V>>) -> (r: SortedMap<V>)
        requires
            spec_entries_sorted(entries@),
        ensures
            r.wf(),
            r.spec_entries() == entries@,
    {
        SortedMap { sorted_vec: SortedVec::ingest(entries) }
    }

    /// Append a binding whose key lies above every present key.
    pub fn append(&mut self, key: u64, value: V)
        requires
            old(self).wf(),
            forall|i: int|
                0 <= i < old(self).spec_entries().len() ==> (#[trigger] old(
                    self,
                ).spec_entries()[i]).key < key,
        ensures
            final(self).wf(),
            final(self).spec_entries() == old(self).spec_entries().push(
                SortedEntry { key, value },
            ),
    {
        self.sorted_vec.append(SortedEntry { key, value });
    }

    /// The value bound to `key`, if any.
    pub fn get(&self, key: u64) -> (r: Option<&V>)
        requires
            self.wf(),
        ensures
            match r {
                Some(v) => exists|i: int|
                    0 <= i < self.spec_entries().len() && (#[trigger] self.spec_entries()[i]).key
                        == key && *v == self.spec_entries()[i].value,
                None => forall|i: int|
                    0 <= i < self.spec_entries().len() ==> (#[trigger] self.spec_entries()[i]).key
                        != key,
            },
    {
        match self.sorted_vec.find(key) {
            Some(i) => Some(&self.sorted_vec.entry_at(i).value),
            None => None,
        }
    }

    /// Remove the binding of `key`, handing its value back.
    pub fn remove(&mut self, key: u64) -> (r: Option<V>)
        requires
            old(self).wf(),
        ensures
            final(self).wf(),
            match r {
                Some(_) => exists|i: int|
                    0 <= i < old(self).spec_entries().len() && (#[trigger] old(
                        self,
                    ).spec_entries()[i]).key == key && final(self).spec_entries() == old(
                        self,
                    ).spec_entries().remove(i),
                None => {
                    &&& *final(self) == *old(self)
                    &&& forall|i: int|
                        0 <= i < old(self).spec_entries().len() ==> (#[trigger] old(
                            self,
                        ).spec_entries()[i]).key != key
                },
            },
    {
        match self.sorted_vec.find(key) {
            Some(i) => {
                let entry = self.sorted_vec.vec.remove(i);
                proof {
                    let s = old(self).spec_entries().remove(i as int);
                    assert(self.spec_entries() =~= s);
                    assert forall|a: int, b: int|
                        0 <= a < b < s.len() implies (#[trigger] s[a]).key < (
                    #[trigger] s[b]).key by {
                        if b < i {
                        } else if a < i {
                            assert(s[b] == old(self).spec_entries()[b + 1]);
                        } else {
                            assert(s[a] == old(self).spec_entries()[a + 1]);
                            assert(s[b] == old(self).spec_entries()[b + 1]);
                        }
                    }
                }
                Some(entry.value)
            },
            None => None,
        }
    }

    pub fn is_empty(&self) -> (r: bool)
        ensures
            r == (self.spec_entries().len() == 0),
    {
        self.sorted_vec.is_empty()
    }

    pub fn len(&self) -> (r: usize)
        ensures
            r == self.spec_entries().len(),
    {
        self.sorted_vec.len()
    }

    /// The entry at a position, in key order.
    pub fn entry_at(&self, i: usize) -> (r: &SortedEntry<V>)
        requires
            i < self.spec_entries().len(),
        ensures
            *r == self.spec_entries()[i as int],
    {
        self.sorted_vec.entry_at(i)
    }
}

} // verus!
