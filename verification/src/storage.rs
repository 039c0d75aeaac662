//! The persisted state the migration engine works on: a key-value
//! collection of encoded records, in the backend's iteration order, and the
//! schema version marker.
//!
//! Keys are stable: a migration pass rewrites values and never keys, so the
//! collection stays a mapping.

use vstd::prelude::*;

verus! {

/// Mathematical content of the persisted state: the stored entries as byte
/// sequences, in iteration order, and the persisted schema version.
pub ghost struct StorageModel {
    pub entries: Seq<(u64, Seq<u8>)>,
    pub version: u16,
}

/// The stored entries with their values as byte sequences.
pub open spec fn bytes_view(s: Seq<(u64, Vec<u8>)>) -> Seq<(u64, Seq<u8>)> {
    s.map_values(|e: (u64, Vec<u8>)| (e.0, e.1@))
}

/// Whether a key occurs among the entries.
pub open spec fn has_key(s: Seq<(u64, Seq<u8>)>, k: u64) -> bool {
    exists|i: int| 0 <= i < s.len() && s[i].0 == k
}

/// Whether no key occurs twice: the collection is a mapping.
pub open spec fn unique_keys(s: Seq<(u64, Seq<u8>)>) -> bool {
    forall|i: int, j: int| 0 <= i < j < s.len() ==> s[i].0 != s[j].0
}

/// Persisted state visible to the migration engine.
pub struct AssetStorage {
    pub entries: Vec<(u64, Vec<u8>)>,
    pub version: u16,
}

impl View for AssetStorage {
    type V = StorageModel;

    open spec fn view(&self) -> StorageModel {
        StorageModel { entries: bytes_view(self.entries@), version: self.version }
    }
}

impl AssetStorage {
    /// The collection is a mapping: no key is stored twice.
    pub open spec fn wf(&self) -> bool {
        unique_keys(self@.entries)
    }

    /// An empty collection whose marker holds the given persisted version.
    pub fn new(version: u16) -> (s: AssetStorage)
        ensures
            s.wf(),
            s@.entries.len() == 0,
            s@.version == version,
    {
        let s = AssetStorage { entries: Vec::new(), version };
        proof {
            assert(bytes_view(s.entries@) =~= Seq::<(u64, Seq<u8>)>::empty());
        }
        s
    }

    /// Stores a value under a key not yet present.
    pub fn insert(&mut self, key: u64, value: Vec<u8>)
        requires
            old(self).wf(),
            !has_key(old(self)@.entries, key),
        ensures
            final(self).wf(),
            final(self)@.entries == old(self)@.entries.push((key, value@)),
            final(self)@.version == old(self)@.version,
    {
        self.entries.push((key, value));
        proof {
            assert(bytes_view(self.entries@) =~= bytes_view(old(self).entries@).push(
                (key, value@),
            ));
            let s = old(self)@.entries;
            assert forall|i: int| 0 <= i < s.len() implies s[i].0 != key by {
                if s[i].0 == key {
                    assert(has_key(s, key));
                }
            }
        }
    }

    /// Number of stored records.
    pub fn len(&self) -> (n: usize)
        ensures
            n == self@.entries.len(),
    {
        self.entries.len()
    }

    /// The persisted schema version marker.
    pub fn version(&self) -> (v: u16)
        ensures
            v == self@.version,
    {
        self.version
    }

    /// The key of the record at a position of the iteration order.
    pub fn key_at(&self, i: usize) -> (k: u64)
        requires
            i < self@.entries.len(),
        ensures
            k == self@.entries[i as int].0,
    {
        self.entries[i].0
    }

    /// The stored value of the record at a position of the iteration order.
    pub fn value_at(&self, i: usize) -> (v: &Vec<u8>)
        requires
            i < self@.entries.len(),
        ensures
            v@ == self@.entries[i as int].1,
    {
        &self.entries[i].1
    }
}

} // verus!
