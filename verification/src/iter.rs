//! Gas-metered prefix iteration.
//!
//! An iterator takes a snapshot of the store and walks it in ascending key
//! order, yielding the entries whose physical key starts with a requested
//! prefix. The outer iterator strips the namespace prefix off each yielded
//! key and charges a cost equal to the byte length of the logical key plus
//! the byte length of the value.

use vstd::prelude::*;

use crate::db::MockDB;
use crate::key::{key_bytes, Key};
use crate::kv::{len_ok, sorted};
use crate::order::{copy_bytes, is_prefix, starts_with, tail_copy};
use crate::schema::{results_prefix, results_prefix_vec, subspace_key, subspace_prefix,
    subspace_prefix_vec};

verus! {

/// No entry of `e` in positions `[a, b)` has a key starting with `p`.
pub open spec fn no_match_between(e: Seq<(Seq<u8>, Seq<u8>)>, p: Seq<u8>, a: int, b: int) -> bool {
    forall|l: int| a <= l < b ==> !is_prefix(p, (#[trigger] e[l]).0)
}

/// A walk over a snapshot of the store, yielding the entries whose
/// physical key starts with a fixed prefix.
pub struct MockIterator {
    entries: Vec<(Vec<u8>, Vec<u8>)>,
    pos: usize,
    prefix: Vec<u8>,
}

impl MockIterator {
    /// The snapshot walked, in ascending key order.
    pub closed spec fn entries_view(&self) -> Seq<(Seq<u8>, Seq<u8>)> {
        Seq::new(self.entries@.len(), |i: int| (self.entries@[i].0@, self.entries@[i].1@))
    }

    /// The next snapshot position to look at.
    pub closed spec fn pos_view(&self) -> int {
        self.pos as int
    }

    /// The physical prefix that yielded keys must start with.
    pub closed spec fn prefix_view(&self) -> Seq<u8> {
        self.prefix@
    }

    /// Sorted snapshot, bounded lengths, position within range.
    pub open spec fn wf(&self) -> bool {
        &&& sorted(self.entries_view())
        &&& forall|i: int|
            0 <= i < self.entries_view().len() ==> len_ok(#[trigger] self.entries_view()[i].0)
                && len_ok(self.entries_view()[i].1)
        &&& 0 <= self.pos_view() <= self.entries_view().len()
    }

    /// The next entry whose key starts with the prefix, in snapshot order,
    /// or `None` once none is left.
    pub fn next(&mut self) -> (r: Option<(Vec<u8>, Vec<u8>)>)
        requires
            old(self).wf(),
        ensures
            final(self).wf(),
            final(self).entries_view() == old(self).entries_view(),
            final(self).prefix_view() == old(self).prefix_view(),
            ({
                let e = old(self).entries_view();
                let p = old(self).prefix_view();
                match r {
                    Some(kv) => {
                        let j = final(self).pos_view() - 1;
                        &&& old(self).pos_view() <= j < e.len()
                        &&& e[j] == (kv.0@, kv.1@)
                        &&& is_prefix(p, kv.0@)
                        &&& no_match_between(e, p, old(self).pos_view(), j)
                    },
                    None => {
                        &&& final(self).pos_view() == e.len()
                        &&& no_match_between(e, p, old(self).pos_view(), e.len() as int)
                    },
                }
            }),
    {
        while self.pos < self.entries.len()
            invariant
                self.wf(),
                self.entries_view() == old(self).entries_view(),
                self.prefix_view() == old(self).prefix_view(),
                old(self).pos_view() <= self.pos_view(),
                no_match_between(
                    self.entries_view(),
                    self.prefix_view(),
                    old(self).pos_view(),
                    self.pos_view(),
                ),
            decreases self.entries@.len() - self.pos,
        {
            let hit = {
                let e = &self.entries[self.pos];
                starts_with(e.0.as_slice(), self.prefix.as_slice())
            };
            if hit {
                let k = copy_bytes(self.entries[self.pos].0.as_slice());
                let v = copy_bytes(self.entries[self.pos].1.as_slice());
                self.pos = self.pos + 1;
                proof {
                    assert(self.wf());
                    assert(self.entries_view() == old(self).entries_view());
                    assert(self.entries_view()[self.pos_view() - 1] == (k@, v@));
                }
                return Some((k, v));
            }
            self.pos = self.pos + 1;
        }
        None
    }
}

/// A gas-metered prefix iterator: strips the namespace prefix off each
/// yielded key and reports a cost of logical-key bytes plus value bytes.
pub struct PrefixIterator {
    iter: MockIterator,
    db_prefix: Vec<u8>,
}

/// The prefix iterator of the in-memory backend.
pub type MockPrefixIterator = PrefixIterator;

impl PrefixIterator {
    /// The snapshot walked.
    pub closed spec fn entries_view(&self) -> Seq<(Seq<u8>, Seq<u8>)> {
        self.iter.entries_view()
    }

    /// The next snapshot position to look at.
    pub closed spec fn pos_view(&self) -> int {
        self.iter.pos_view()
    }

    /// The physical prefix that yielded keys must start with.
    pub closed spec fn prefix_view(&self) -> Seq<u8> {
        self.iter.prefix_view()
    }

    /// The namespace prefix stripped off yielded keys.
    pub closed spec fn db_prefix_view(&self) -> Seq<u8> {
        self.db_prefix@
    }

    /// The inner walk is well-formed and the stripped namespace is part of
    /// the match prefix, so every yielded key strips cleanly.
    pub closed spec fn wf(&self) -> bool {
        &&& self.iter.wf()
        &&& is_prefix(self.db_prefix_view(), self.prefix_view())
    }

    /// The next matching entry as a logical key, a value, and the cost
    /// charged for touching them: logical-key bytes plus value bytes.
    pub fn next(&mut self) -> (r: Option<(Vec<u8>, Vec<u8>, u64)>)
        requires
            old(self).wf(),
        ensures
            final(self).wf(),
            final(self).entries_view() == old(self).entries_view(),
            final(self).prefix_view() == old(self).prefix_view(),
            final(self).db_prefix_view() == old(self).db_prefix_view(),
            ({
                let e = old(self).entries_view();
                let p = old(self).prefix_view();
                let d = old(self).db_prefix_view();
                match r {
                    Some(kvg) => {
                        let j = final(self).pos_view() - 1;
                        &&& old(self).pos_view() <= j < e.len()
                        &&& is_prefix(p, e[j].0)
                        &&& kvg.0@ == e[j].0.skip(d.len() as int)
                        &&& kvg.1@ == e[j].1
                        &&& kvg.2 == kvg.0@.len() + kvg.1@.len()
                        &&& no_match_between(e, p, old(self).pos_view(), j)
                    },
                    None => {
                        &&& final(self).pos_view() == e.len()
                        &&& no_match_between(e, p, old(self).pos_view(), e.len() as int)
                    },
                }
            }),
    {
        match self.iter.next() {
            Some((k, v)) => {
                proof {
                    let e = old(self).entries_view();
                    let j = self.iter.pos_view() - 1;
                    assert(is_prefix(self.db_prefix@, e[j].0)) by {
                        crate::order::lemma_prefix_trans(
                            self.db_prefix@,
                            old(self).prefix_view(),
                            e[j].0,
                        );
                    }
                }
                let stripped = tail_copy(k.as_slice(), self.db_prefix.len());
                let gas = (stripped.len() as u64) + (v.len() as u64);
                Some((stripped, v, gas))
            },
            None => None,
        }
    }
}

impl MockDB {
    /// A fresh iteration over the application entries whose key starts
    /// with `prefix`, in ascending key order.
    pub fn iter_prefix(&self, prefix: &Key) -> (r: MockPrefixIterator)
        requires
            self.wf(),
            prefix.wf(),
        ensures
            r.wf(),
            r.entries_view() == self.entries(),
            r.pos_view() == 0,
            r.prefix_view() == subspace_key(key_bytes(prefix@)),
            r.db_prefix_view() == subspace_prefix(),
    {
        let db_prefix = subspace_prefix_vec();
        let kb = prefix.to_db_bytes();
        let p = crate::schema::subspace_key_vec(kb.as_slice());
        let it = self.snapshot_iter(p);
        let r = PrefixIterator { iter: it, db_prefix };
        proof {
            assert(subspace_prefix().len() <= subspace_key(key_bytes(prefix@)).len());
            assert(subspace_key(key_bytes(prefix@)).take(subspace_prefix().len() as int)
                =~= subspace_prefix());
        }
        r
    }

    /// A fresh iteration over all stored block results, in ascending key
    /// order.
    pub fn iter_results(&self) -> (r: MockPrefixIterator)
        requires
            self.wf(),
        ensures
            r.wf(),
            r.entries_view() == self.entries(),
            r.pos_view() == 0,
            r.prefix_view() == results_prefix(),
            r.db_prefix_view() == results_prefix(),
    {
        let db_prefix = results_prefix_vec();
        let p = results_prefix_vec();
        let it = self.snapshot_iter(p);
        let r = PrefixIterator { iter: it, db_prefix };
        proof {
            assert(results_prefix().take(results_prefix().len() as int) =~= results_prefix());
        }
        r
    }

    /// A snapshot walk of the whole store with a match prefix.
    fn snapshot_iter(&self, prefix: Vec<u8>) -> (r: MockIterator)
        requires
            self.wf(),
        ensures
            r.wf(),
            r.entries_view() == self.entries(),
            r.pos_view() == 0,
            r.prefix_view() == prefix@,
    {
        let entries = self.clone_all_entries();
        let r = MockIterator { entries, pos: 0, prefix };
        proof {
            assert(r.entries_view() =~= self.entries());
        }
        r
    }
}

} // verus!
