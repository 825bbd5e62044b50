//! A key-value store held as a vector of entries in strictly ascending
//! lexicographic key order.
//!
//! The abstract content is a map from byte-string keys to byte-string
//! values; the ordering makes prefix scans yield entries in ascending key
//! order.

use vstd::prelude::*;

use crate::order::{
    bytes_eq, lemma_lex_le_antisym, lemma_lex_le_total, lex_le, lex_le_bytes, lex_lt,
};

verus! {

/// Keys and values are kept no longer than this, so that byte deltas and
/// iteration costs fit the integer types that report them.
pub open spec fn len_ok(b: Seq<u8>) -> bool {
    b.len() <= 0x7fff_ffff_ffff_ffff
}

/// Entry keys are strictly ascending.
pub open spec fn sorted(s: Seq<(Seq<u8>, Seq<u8>)>) -> bool {
    forall|i: int, j: int| 0 <= i < j < s.len() ==> lex_lt(#[trigger] s[i].0, #[trigger] s[j].0)
}

/// Some entry has key `k`.
pub open spec fn contains_k(s: Seq<(Seq<u8>, Seq<u8>)>, k: Seq<u8>) -> bool {
    exists|i: int| 0 <= i < s.len() && (#[trigger] s[i]).0 == k
}

/// The index of the entry with key `k`.
pub open spec fn index_of(s: Seq<(Seq<u8>, Seq<u8>)>, k: Seq<u8>) -> int {
    choose|i: int| 0 <= i < s.len() && (#[trigger] s[i]).0 == k
}

/// The map an entry sequence denotes.
pub open spec fn map_of(s: Seq<(Seq<u8>, Seq<u8>)>) -> Map<Seq<u8>, Seq<u8>> {
    Map::new(|k: Seq<u8>| contains_k(s, k), |k: Seq<u8>| s[index_of(s, k)].1)
}

pub proof fn lemma_lex_le_refl(a: Seq<u8>)
    ensures
        lex_le(a, a),
    decreases a.len(),
{
    if a.len() > 0 {
        lemma_lex_le_refl(a.skip(1));
    }
}

/// In a sorted sequence the entry with a given key is unique.
pub proof fn lemma_sorted_key_unique(s: Seq<(Seq<u8>, Seq<u8>)>, i: int, j: int)
    requires
        sorted(s),
        0 <= i < s.len(),
        0 <= j < s.len(),
        s[i].0 == s[j].0,
    ensures
        i == j,
{
    if i < j || j < i {
        assert(lex_lt(s[i].0, s[j].0) || lex_lt(s[j].0, s[i].0));
    }
}

/// In a sorted sequence, the map value at an entry's key is that entry's
/// value.
pub proof fn lemma_map_of_entry(s: Seq<(Seq<u8>, Seq<u8>)>, i: int)
    requires
        sorted(s),
        0 <= i < s.len(),
    ensures
        map_of(s).contains_key(s[i].0),
        map_of(s)[s[i].0] == s[i].1,
{
    let k = s[i].0;
    assert(contains_k(s, k));
    let j = index_of(s, k);
    lemma_sorted_key_unique(s, i, j);
}

/// A pair is in the map exactly when it stands in the sequence.
pub proof fn lemma_map_of_contains_pair(s: Seq<(Seq<u8>, Seq<u8>)>, k: Seq<u8>, v: Seq<u8>)
    requires
        sorted(s),
    ensures
        map_of(s).contains_pair(k, v) <==> exists|i: int|
            0 <= i < s.len() && #[trigger] s[i] == (k, v),
{
    if map_of(s).contains_pair(k, v) {
        let i = index_of(s, k);
        assert(s[i] == (k, v));
    }
    if exists|i: int| 0 <= i < s.len() && #[trigger] s[i] == (k, v) {
        let i = choose|i: int| 0 <= i < s.len() && #[trigger] s[i] == (k, v);
        lemma_map_of_entry(s, i);
    }
}

/// In a sorted sequence with bounded entries, every map value is bounded.
pub proof fn lemma_map_value_len(s: Seq<(Seq<u8>, Seq<u8>)>, k: Seq<u8>)
    requires
        sorted(s),
        forall|i: int| 0 <= i < s.len() ==> len_ok(#[trigger] s[i].0) && len_ok(s[i].1),
        contains_k(s, k),
    ensures
        map_of(s).contains_key(k),
        len_ok(map_of(s)[k]),
{
    let i = index_of(s, k);
    lemma_map_of_entry(s, i);
}

/// The store: entries in strictly ascending key order.
pub struct SortedKvs {
    entries: Vec<(Vec<u8>, Vec<u8>)>,
}

impl View for SortedKvs {
    type V = Seq<(Seq<u8>, Seq<u8>)>;

    closed spec fn view(&self) -> Seq<(Seq<u8>, Seq<u8>)> {
        Seq::new(self.entries@.len(), |i: int| (self.entries@[i].0@, self.entries@[i].1@))
    }
}

impl SortedKvs {
    /// The denoted map.
    pub open spec fn as_map(&self) -> Map<Seq<u8>, Seq<u8>> {
        map_of(self@)
    }

    /// Well-formed: sorted, with every key and value within the length
    /// bound.
    pub open spec fn wf(&self) -> bool {
        &&& sorted(self@)
        &&& forall|i: int|
            0 <= i < self@.len() ==> len_ok(#[trigger] self@[i].0) && len_ok(self@[i].1)
    }

    pub fn new() -> (r: SortedKvs)
        ensures
            r.wf(),
            r@ == Seq::<(Seq<u8>, Seq<u8>)>::empty(),
            r.as_map() == Map::<Seq<u8>, Seq<u8>>::empty(),
    {
        let r = SortedKvs { entries: Vec::new() };
        proof {
            assert(r@ =~= Seq::<(Seq<u8>, Seq<u8>)>::empty());
            assert(r.as_map() =~= Map::<Seq<u8>, Seq<u8>>::empty());
        }
        r
    }

    pub fn len(&self) -> (r: usize)
        ensures
            r == self@.len(),
    {
        self.entries.len()
    }

    pub fn key_at(&self, i: usize) -> (r: &Vec<u8>)
        requires
            i < self@.len(),
        ensures
            r@ == self@[i as int].0,
    {
        &self.entries[i].0
    }

    pub fn val_at(&self, i: usize) -> (r: &Vec<u8>)
        requires
            i < self@.len(),
        ensures
            r@ == self@[i as int].1,
    {
        &self.entries[i].1
    }

    /// Find the entry with key `k`, if any.
    fn find(&self, k: &[u8]) -> (r: Option<usize>)
        ensures
            match r {
                Some(i) => i < self@.len() && self@[i as int].0 == k@,
                None => !contains_k(self@, k@),
            },
    {
        let mut i: usize = 0;
        while i < self.entries.len()
            invariant
                i <= self@.len(),
                self@.len() == self.entries@.len(),
                forall|j: int| 0 <= j < i ==> (#[trigger] self@[j]).0 != k@,
            decreases self@.len() - i,
        {
            if bytes_eq(self.entries[i].0.as_slice(), k) {
                return Some(i);
            }
            i = i + 1;
        }
        None
    }

    /// Read the value stored at `k`.
    pub fn get(&self, k: &[u8]) -> (r: Option<&Vec<u8>>)
        requires
            self.wf(),
        ensures
            match r {
                Some(v) => self.as_map().contains_key(k@) && v@ == self.as_map()[k@],
                None => !self.as_map().contains_key(k@),
            },
    {
        match self.find(k) {
            Some(i) => {
                proof {
                    lemma_map_of_entry(self@, i as int);
                }
                Some(&self.entries[i].1)
            },
            None => None,
        }
    }

    /// Store `v` at `k`, returning the value previously stored there, if
    /// any.
    pub fn insert(&mut self, k: Vec<u8>, v: Vec<u8>) -> (r: Option<Vec<u8>>)
        requires
            old(self).wf(),
            len_ok(k@),
            len_ok(v@),
        ensures
            final(self).wf(),
            final(self).as_map() == old(self).as_map().insert(k@, v@),
            match r {
                Some(p) => old(self).as_map().contains_key(k@) && p@ == old(self).as_map()[k@],
                None => !old(self).as_map().contains_key(k@),
            },
    {
        let ghost s0 = self@;
        // Position of the first key not below `k`.
        let mut pos: usize = 0;
        while pos < self.entries.len() && !lex_le_bytes(k.as_slice(), self.entries[pos].0.as_slice())
            invariant
                pos <= self@.len(),
                self@.len() == self.entries@.len(),
                self@ == s0,
                forall|j: int| 0 <= j < pos ==> !lex_le(k@, (#[trigger] self@[j]).0),
            decreases self@.len() - pos,
        {
            pos = pos + 1;
        }
        proof {
            assert forall|j: int| 0 <= j < pos implies lex_lt((#[trigger] s0[j]).0, k@) by {
                lemma_lex_le_total(k@, s0[j].0);
                lemma_lex_le_refl(k@);
            }
        }
        if pos < self.entries.len() && bytes_eq(self.entries[pos].0.as_slice(), k.as_slice()) {
            // Overwrite in place.
            let old_entry = self.entries.remove(pos);
            self.entries.insert(pos, (k, v));
            proof {
                let s1 = self@;
                assert(s1 =~= s0.update(pos as int, (k@, v@)));
                assert forall|i: int, j: int| 0 <= i < j < s1.len() implies lex_lt(
                    (#[trigger] s1[i]).0,
                    (#[trigger] s1[j]).0,
                ) by {
                    assert(s1[i].0 == s0[i].0 && s1[j].0 == s0[j].0);
                }
                lemma_map_of_entry(s0, pos as int);
                assert forall|x: Seq<u8>| true implies #[trigger] contains_k(s1, x) == contains_k(
                    s0,
                    x,
                ) by {
                    if contains_k(s1, x) {
                        let i = choose|i: int| 0 <= i < s1.len() && (#[trigger] s1[i]).0 == x;
                        assert(s0[i].0 == x);
                    }
                    if contains_k(s0, x) {
                        let i = choose|i: int| 0 <= i < s0.len() && (#[trigger] s0[i]).0 == x;
                        assert(s1[i].0 == x);
                    }
                }
                assert forall|x: Seq<u8>| contains_k(s1, x) implies map_of(s1)[x] == map_of(
                    s0,
                ).insert(k@, v@)[x] by {
                    let i = index_of(s1, x);
                    lemma_map_of_entry(s1, i);
                    if x == k@ {
                        lemma_sorted_key_unique(s1, i, pos as int);
                    } else {
                        assert(s0[i].0 == x);
                        lemma_map_of_entry(s0, i);
                    }
                }
                assert(map_of(s1) =~= map_of(s0).insert(k@, v@));
            }
            Some(old_entry.1)
        } else {
            proof {
                assert forall|j: int| pos <= j < s0.len() implies lex_lt(
                    k@,
                    (#[trigger] s0[j]).0,
                ) by {
                    if j == pos {
                        assert(lex_le(k@, s0[j].0));
                        assert(s0[j].0 != k@);
                    } else {
                        assert(lex_le(k@, s0[pos as int].0));
                        assert(lex_lt(s0[pos as int].0, s0[j].0));
                        crate::order::lemma_lex_le_trans(k@, s0[pos as int].0, s0[j].0);
                        if k@ == s0[j].0 {
                            lemma_lex_le_antisym(k@, s0[pos as int].0);
                        }
                    }
                }
            }
            self.entries.insert(pos, (k, v));
            proof {
                let s1 = self@;
                assert(s1 =~= s0.insert(pos as int, (k@, v@)));
                assert forall|i: int, j: int| 0 <= i < j < s1.len() implies lex_lt(
                    (#[trigger] s1[i]).0,
                    (#[trigger] s1[j]).0,
                ) by {
                    let i0 = if i < pos {
                        i
                    } else {
                        i - 1
                    };
                    let j0 = if j < pos {
                        j
                    } else {
                        j - 1
                    };
                    if i == pos {
                        assert(s1[j].0 == s0[j0].0);
                    } else if j == pos {
                        assert(s1[i].0 == s0[i0].0);
                    } else {
                        assert(s1[i].0 == s0[i0].0 && s1[j].0 == s0[j0].0);
                    }
                }
                assert(!contains_k(s0, k@));
                assert forall|x: Seq<u8>| true implies #[trigger] contains_k(s1, x) == (contains_k(
                    s0,
                    x,
                ) || x == k@) by {
                    if contains_k(s1, x) {
                        let i = choose|i: int| 0 <= i < s1.len() && (#[trigger] s1[i]).0 == x;
                        if i < pos {
                            assert(s0[i].0 == x);
                        } else if i > pos {
                            assert(s0[i - 1].0 == x);
                        }
                    }
                    if contains_k(s0, x) {
                        let i = choose|i: int| 0 <= i < s0.len() && (#[trigger] s0[i]).0 == x;
                        if i < pos {
                            assert(s1[i].0 == x);
                        } else {
                            assert(s1[i + 1].0 == x);
                        }
                    }
                    if x == k@ {
                        assert(s1[pos as int].0 == x);
                    }
                }
                assert forall|x: Seq<u8>| contains_k(s1, x) implies map_of(s1)[x] == map_of(
                    s0,
                ).insert(k@, v@)[x] by {
                    let i = index_of(s1, x);
                    lemma_map_of_entry(s1, i);
                    if x == k@ {
                        lemma_sorted_key_unique(s1, i, pos as int);
                    } else {
                        let i0 = if i < pos {
                            i
                        } else {
                            i - 1
                        };
                        assert(s0[i0].0 == x && s0[i0].1 == s1[i].1);
                        lemma_map_of_entry(s0, i0);
                    }
                }
                assert(map_of(s1) =~= map_of(s0).insert(k@, v@));
            }
            None
        }
    }

    /// A copy of all entries, in order.
    pub fn clone_entries(&self) -> (r: Vec<(Vec<u8>, Vec<u8>)>)
        ensures
            r@.len() == self@.len(),
            forall|i: int|
                0 <= i < self@.len() ==> ((#[trigger] r@[i]).0@, r@[i].1@) == self@[i],
    {
        let mut r: Vec<(Vec<u8>, Vec<u8>)> = Vec::new();
        let mut i: usize = 0;
        while i < self.entries.len()
            invariant
                i <= self.entries@.len(),
                self@.len() == self.entries@.len(),
                r@.len() == i,
                forall|j: int|
                    0 <= j < i ==> ((#[trigger] r@[j]).0@, r@[j].1@) == self@[j],
            decreases self.entries@.len() - i,
        {
            let k = crate::order::copy_bytes(self.entries[i].0.as_slice());
            let v = crate::order::copy_bytes(self.entries[i].1.as_slice());
            r.push((k, v));
            i = i + 1;
        }
        r
    }

    /// Remove the entry at `k`, returning the value stored there, if any.
    pub fn remove(&mut self, k: &[u8]) -> (r: Option<Vec<u8>>)
        requires
            old(self).wf(),
        ensures
            final(self).wf(),
            final(self).as_map() == old(self).as_map().remove(k@),
            match r {
                Some(p) => old(self).as_map().contains_key(k@) && p@ == old(self).as_map()[k@],
                None => !old(self).as_map().contains_key(k@) && final(self)@ == old(self)@,
            },
    {
        let ghost s0 = self@;
        match self.find(k) {
            Some(i) => {
                proof {
                    lemma_map_of_entry(s0, i as int);
                }
                let e = self.entries.remove(i);
                proof {
                    let s1 = self@;
                    assert(s1 =~= s0.remove(i as int));
                    assert forall|x: int, y: int| 0 <= x < y < s1.len() implies lex_lt(
                        (#[trigger] s1[x]).0,
                        (#[trigger] s1[y]).0,
                    ) by {
                        let x0 = if x < i {
                            x
                        } else {
                            x + 1
                        };
                        let y0 = if y < i {
                            y
                        } else {
                            y + 1
                        };
                        assert(s1[x].0 == s0[x0].0 && s1[y].0 == s0[y0].0);
                    }
                    assert forall|x: Seq<u8>| true implies #[trigger] contains_k(s1, x) == (
                    contains_k(s0, x) && x != k@) by {
                        if contains_k(s1, x) {
                            let j = choose|j: int| 0 <= j < s1.len() && (#[trigger] s1[j]).0 == x;
                            let j0 = if j < i {
                                j
                            } else {
                                j + 1
                            };
                            assert(s0[j0].0 == x);
                            if x == k@ {
                                lemma_sorted_key_unique(s0, j0, i as int);
                            }
                        }
                        if contains_k(s0, x) && x != k@ {
                            let j = choose|j: int| 0 <= j < s0.len() && (#[trigger] s0[j]).0 == x;
                            if j < i {
                                assert(s1[j].0 == x);
                            } else {
                                assert(j != i);
                                assert(s1[j - 1].0 == x);
                            }
                        }
                    }
                    assert forall|x: Seq<u8>| contains_k(s1, x) implies map_of(s1)[x] == map_of(
                        s0,
                    ).remove(k@)[x] by {
                        let j = index_of(s1, x);
                        lemma_map_of_entry(s1, j);
                        let j0 = if j < i {
                            j
                        } else {
                            j + 1
                        };
                        assert(s0[j0].0 == x && s0[j0].1 == s1[j].1);
                        lemma_map_of_entry(s0, j0);
                    }
                    assert(map_of(s1) =~= map_of(s0).remove(k@));
                }
                Some(e.1)
            },
            None => {
                proof {
                    assert(map_of(s0) =~= map_of(s0).remove(k@));
                }
                None
            },
        }
    }
}

} // verus!
