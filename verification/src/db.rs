//! The in-memory storage backend.
//!
//! `MockDB` is a reference backend: one flat, sorted byte-keyed store that
//! holds block state under the schema of [`crate::schema`] and application
//! state under the `subspace/` namespace. It retains no version history, so
//! reads at an explicit past height are declined rather than answered with
//! the latest value.

use vstd::prelude::*;

use crate::key::{key_bytes, Key};
use crate::kv::{contains_k, len_ok, map_of, sorted, SortedKvs};
use crate::schema::{subspace_key, subspace_key_vec};
use crate::state::Error;

verus! {

/// An in-memory storage backend.
pub struct MockDB {
    kvs: SortedKvs,
}

/// An in-memory write batch. The in-memory backend applies batched
/// mutations directly, so the batch itself carries nothing; it exists to
/// give batched writes the same shape as for a durable backend.
#[derive(Debug, Default)]
pub struct MockDBWriteBatch;

impl MockDBWriteBatch {
    /// Staging a raw put is a no-op: the in-memory backend applies batched
    /// writes directly.
    pub fn put(&mut self, _key: &[u8], _value: &[u8]) {
    }

    /// Staging a raw delete is a no-op: the in-memory backend applies
    /// batched deletes directly.
    pub fn delete(&mut self, _key: &[u8]) {
    }
}

impl MockDB {
    /// The stored entries, in ascending key order.
    pub closed spec fn entries(&self) -> Seq<(Seq<u8>, Seq<u8>)> {
        self.kvs@
    }

    /// The stored content as a map from physical key to value.
    pub open spec fn as_map(&self) -> Map<Seq<u8>, Seq<u8>> {
        map_of(self.entries())
    }

    /// Well-formed: entries sorted strictly, lengths within bounds.
    pub open spec fn wf(&self) -> bool {
        &&& sorted(self.entries())
        &&& forall|i: int|
            0 <= i < self.entries().len() ==> len_ok(#[trigger] self.entries()[i].0) && len_ok(
                self.entries()[i].1,
            )
    }

    /// The full physical key of one application entry.
    pub open spec fn subspace_key_of(key: &Key) -> Seq<u8> {
        subspace_key(key_bytes(key@))
    }

    /// Open a backend. The in-memory backend attaches to nothing: it starts
    /// empty whatever the path says.
    pub fn open(_db_path: &str) -> (r: MockDB)
        ensures
            r.wf(),
            r.entries() == Seq::<(Seq<u8>, Seq<u8>)>::empty(),
            r.as_map() == Map::<Seq<u8>, Seq<u8>>::empty(),
    {
        MockDB { kvs: SortedKvs::new() }
    }

    /// Ask the backend to persist. The in-memory backend has no durable
    /// form, so there is nothing to do.
    pub fn flush(&self, _wait: bool) -> (r: Result<(), Error>)
        ensures
            r == Ok::<(), Error>(()),
    {
        Ok(())
    }

    /// Store a value under a raw physical key, bypassing the schema. A
    /// maintenance hatch: it can put the store into states the write path
    /// never produces, which is what corruption-handling tests need.
    pub fn insert_raw(&mut self, key: Vec<u8>, value: Vec<u8>) -> (r: Option<Vec<u8>>)
        requires
            old(self).wf(),
            len_ok(key@),
            len_ok(value@),
        ensures
            final(self).wf(),
            final(self).as_map() == old(self).as_map().insert(key@, value@),
            match r {
                Some(p) => old(self).as_map().contains_key(key@) && p@ == old(self).as_map()[key@],
                None => !old(self).as_map().contains_key(key@),
            },
    {
        self.kvs.insert(key, value)
    }

    /// The number of stored entries.
    pub(crate) fn entry_count(&self) -> (r: usize)
        ensures
            r == self.entries().len(),
    {
        self.kvs.len()
    }

    /// The key of the entry at position `i`.
    pub(crate) fn entry_key(&self, i: usize) -> (r: &Vec<u8>)
        requires
            i < self.entries().len(),
        ensures
            r@ == self.entries()[i as int].0,
    {
        self.kvs.key_at(i)
    }

    /// A copy of all stored entries, in order.
    pub(crate) fn clone_all_entries(&self) -> (r: Vec<(Vec<u8>, Vec<u8>)>)
        ensures
            r@.len() == self.entries().len(),
            forall|i: int|
                0 <= i < self.entries().len() ==> ((#[trigger] r@[i]).0@, r@[i].1@)
                    == self.entries()[i],
    {
        self.kvs.clone_entries()
    }

    /// Store a value under a schema key, discarding the replaced value.
    pub(crate) fn raw_put(&mut self, key: Vec<u8>, value: Vec<u8>)
        requires
            old(self).wf(),
            len_ok(key@),
            len_ok(value@),
        ensures
            final(self).wf(),
            final(self).as_map() == old(self).as_map().insert(key@, value@),
    {
        let _ = self.kvs.insert(key, value);
    }

    /// Remove a raw physical key, bypassing the schema.
    pub fn remove_raw(&mut self, key: &[u8]) -> (r: Option<Vec<u8>>)
        requires
            old(self).wf(),
        ensures
            final(self).wf(),
            final(self).as_map() == old(self).as_map().remove(key@),
            match r {
                Some(p) => old(self).as_map().contains_key(key@) && p@ == old(self).as_map()[key@],
                None => !old(self).as_map().contains_key(key@),
            },
    {
        self.kvs.remove(key)
    }

    /// Read the value under a raw physical key.
    pub fn read_raw(&self, key: &[u8]) -> (r: Option<&Vec<u8>>)
        requires
            self.wf(),
        ensures
            match r {
                Some(v) => self.as_map().contains_key(key@) && v@ == self.as_map()[key@],
                None => !self.as_map().contains_key(key@),
            },
    {
        self.kvs.get(key)
    }

    /// Read the latest value of an application key; `None` when the key was
    /// never written or has been deleted.
    pub fn read_subspace_val(&self, key: &Key) -> (r: Result<Option<Vec<u8>>, Error>)
        requires
            self.wf(),
            key.wf(),
        ensures
            match r {
                Ok(Some(v)) => self.as_map().contains_key(Self::subspace_key_of(key)) && v@
                    == self.as_map()[Self::subspace_key_of(key)],
                Ok(None) => !self.as_map().contains_key(Self::subspace_key_of(key)),
                Err(_) => false,
            },
    {
        let kb = key.to_db_bytes();
        let full = subspace_key_vec(kb.as_slice());
        match self.kvs.get(full.as_slice()) {
            Some(v) => Ok(Some(crate::order::copy_bytes(v.as_slice()))),
            None => Ok(None),
        }
    }

    /// Read the value of an application key as of a past height. This
    /// backend retains no version history, so it declines the call; it must
    /// not silently answer with the latest value.
    pub fn read_subspace_val_with_height(
        &self,
        _key: &Key,
        _height: u64,
        _last_height: u64,
    ) -> (r: Result<Option<Vec<u8>>, Error>)
        ensures
            r == Err::<Option<Vec<u8>>, Error>(Error::Temporary),
    {
        Err(Error::Temporary)
    }

    /// Write or overwrite an application key and report the signed byte
    /// delta against the value it replaces, absence counting as zero
    /// length.
    pub fn write_subspace_val(&mut self, _height: u64, key: &Key, value: &[u8]) -> (r: Result<
        i64,
        Error,
    >)
        requires
            old(self).wf(),
            key.wf(),
            len_ok(Self::subspace_key_of(key)),
            len_ok(value@),
        ensures
            final(self).wf(),
            final(self).as_map() == old(self).as_map().insert(Self::subspace_key_of(key), value@),
            ({
                let sk = Self::subspace_key_of(key);
                match r {
                    Ok(d) => if old(self).as_map().contains_key(sk) {
                        d == value@.len() - old(self).as_map()[sk].len()
                    } else {
                        d == value@.len()
                    },
                    Err(_) => false,
                }
            }),
    {
        let kb = key.to_db_bytes();
        let full = subspace_key_vec(kb.as_slice());
        let current_len = value.len() as i64;
        proof {
            if contains_k(old(self).entries(), full@) {
                crate::kv::lemma_map_value_len(old(self).entries(), full@);
            }
        }
        match self.kvs.insert(full, crate::order::copy_bytes(value)) {
            Some(prev) => Ok(current_len - (prev.len() as i64)),
            None => Ok(current_len),
        }
    }

    /// Delete an application key and report how many value bytes were
    /// freed; deleting an absent key frees zero bytes and changes nothing.
    pub fn delete_subspace_val(&mut self, _height: u64, key: &Key) -> (r: Result<i64, Error>)
        requires
            old(self).wf(),
            key.wf(),
        ensures
            final(self).wf(),
            final(self).as_map() == old(self).as_map().remove(Self::subspace_key_of(key)),
            ({
                let sk = Self::subspace_key_of(key);
                match r {
                    Ok(d) => if old(self).as_map().contains_key(sk) {
                        d == old(self).as_map()[sk].len()
                    } else {
                        d == 0 && final(self).entries() == old(self).entries()
                    },
                    Err(_) => false,
                }
            }),
    {
        let kb = key.to_db_bytes();
        let full = subspace_key_vec(kb.as_slice());
        proof {
            if contains_k(old(self).entries(), full@) {
                crate::kv::lemma_map_value_len(old(self).entries(), full@);
            }
        }
        match self.kvs.remove(full.as_slice()) {
            Some(prev) => Ok(prev.len() as i64),
            None => Ok(0),
        }
    }

    /// A fresh, empty write batch.
    pub fn batch() -> MockDBWriteBatch {
        MockDBWriteBatch
    }

    /// Commit a batch. The in-memory backend applied the staged mutations
    /// when they were batched, so the store is already in its committed
    /// state.
    pub fn exec_batch(&mut self, _batch: MockDBWriteBatch) -> (r: Result<(), Error>)
        requires
            old(self).wf(),
        ensures
            final(self).wf(),
            final(self).entries() == old(self).entries(),
            r == Ok::<(), Error>(()),
    {
        Ok(())
    }

    /// The batched form of [`Self::write_subspace_val`]: the in-memory
    /// backend applies it directly, with the same contract.
    pub fn batch_write_subspace_val(
        &mut self,
        _batch: &mut MockDBWriteBatch,
        height: u64,
        key: &Key,
        value: &[u8],
    ) -> (r: Result<i64, Error>)
        requires
            old(self).wf(),
            key.wf(),
            len_ok(Self::subspace_key_of(key)),
            len_ok(value@),
        ensures
            final(self).wf(),
            final(self).as_map() == old(self).as_map().insert(Self::subspace_key_of(key), value@),
            ({
                let sk = Self::subspace_key_of(key);
                match r {
                    Ok(d) => if old(self).as_map().contains_key(sk) {
                        d == value@.len() - old(self).as_map()[sk].len()
                    } else {
                        d == value@.len()
                    },
                    Err(_) => false,
                }
            }),
    {
        self.write_subspace_val(height, key, value)
    }

    /// The batched form of [`Self::delete_subspace_val`]: the in-memory
    /// backend applies it directly, with the same contract.
    pub fn batch_delete_subspace_val(
        &mut self,
        _batch: &mut MockDBWriteBatch,
        height: u64,
        key: &Key,
    ) -> (r: Result<i64, Error>)
        requires
            old(self).wf(),
            key.wf(),
        ensures
            final(self).wf(),
            final(self).as_map() == old(self).as_map().remove(Self::subspace_key_of(key)),
            ({
                let sk = Self::subspace_key_of(key);
                match r {
                    Ok(d) => if old(self).as_map().contains_key(sk) {
                        d == old(self).as_map()[sk].len()
                    } else {
                        d == 0 && final(self).entries() == old(self).entries()
                    },
                    Err(_) => false,
                }
            }),
    {
        self.delete_subspace_val(height, key)
    }
}

/// The error for a stored key that violates the height-scoped schema.
pub fn unknown_key_error(key: &[u8]) -> (r: Result<(), Error>)
    ensures
        r matches Err(e) && e matches Error::UnknownKey { key: k } && k@ == key@,
{
    Err(Error::UnknownKey { key: crate::order::copy_bytes(key) })
}

} // verus!
