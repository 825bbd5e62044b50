//! Block-level read and write of committed state.
//!
//! `write_block` persists one committed block's full snapshot under the
//! schema keys; `read_last_block` reconstructs the most recent snapshot or
//! reports exactly how the stored state falls short of one.

use vstd::prelude::*;

use crate::codec::{
    bytes_enc, bytes_of_enc, decode_bytes, decode_u64, decode_u64_list, encode_bytes, encode_u64,
    encode_u64_list, u64_of_le, u64_le, u64s_enc, u64s_of_enc, valid_bytes_enc, valid_u64_enc,
    valid_u64s_enc,
};
use crate::db::MockDB;
use crate::order::{copy_bytes, lex_le, starts_with, suffix_eq};
use crate::schema::{
    account_root_sfx, account_root_sfx_vec, account_store_sfx, account_store_sfx_vec,
    address_gen_sfx, address_gen_sfx_vec, base_root_sfx, base_root_sfx_vec, base_store_sfx,
    base_store_sfx_vec, block_key, block_key_vec, epoch_sfx, epoch_sfx_vec, hash_sfx,
    hash_sfx_vec, header_sfx, header_sfx_vec, height_key, height_key_vec, height_prefix,
    height_prefix_vec, ibc_root_sfx, ibc_root_sfx_vec, ibc_store_sfx, ibc_store_sfx_vec,
    in_range, lemma_dec_seq_len_u64, next_height_key, next_height_key_vec,
    next_time_key, next_time_key_vec, pos_root_sfx, pos_root_sfx_vec, pos_store_sfx,
    pos_store_sfx_vec, pred_epochs_sfx, pred_epochs_sfx_vec, recognized, recognized_sfx,
    results_key, results_key_vec,
};
use crate::state::{BlockStateRead, BlockStateWrite, Error, MerkleTreeStores};

verus! {

/// How a lookup of one required stored value went.
#[derive(PartialEq, Eq, Structural)]
pub enum TriCase {
    /// The key is not stored.
    Absent,
    /// The key is stored but its value does not decode.
    Undecodable,
    /// The key is stored and its value decodes.
    Present,
}

/// The outcome `read_last_block` owes for a given store content.
#[derive(PartialEq, Eq, Structural)]
pub enum LastBlockCase {
    /// No height marker: nothing was ever committed.
    NoBlock,
    /// Some required stored value does not decode.
    Undecodable,
    /// A height marker exists but some required field is missing.
    Incomplete,
    /// A stored key under the height's namespace has an unrecognized form.
    Violation,
    /// Every required field is present and decodes.
    Good,
}

/// Case of a stored `u64` at `k`.
pub open spec fn u64_case(m: Map<Seq<u8>, Seq<u8>>, k: Seq<u8>) -> TriCase {
    if !m.dom().contains(k) {
        TriCase::Absent
    } else if !valid_u64_enc(m[k]) {
        TriCase::Undecodable
    } else {
        TriCase::Present
    }
}

/// Case of a stored byte string at `k`.
pub open spec fn bytes_case(m: Map<Seq<u8>, Seq<u8>>, k: Seq<u8>) -> TriCase {
    if !m.dom().contains(k) {
        TriCase::Absent
    } else if !valid_bytes_enc(m[k]) {
        TriCase::Undecodable
    } else {
        TriCase::Present
    }
}

/// Case of a stored `u64` list at `k`.
pub open spec fn u64s_case(m: Map<Seq<u8>, Seq<u8>>, k: Seq<u8>) -> TriCase {
    if !m.dom().contains(k) {
        TriCase::Absent
    } else if !valid_u64s_enc(m[k]) {
        TriCase::Undecodable
    } else {
        TriCase::Present
    }
}

/// Some stored key lies in the height range of `h` but has an unrecognized
/// form.
pub open spec fn has_unknown_key(m: Map<Seq<u8>, Seq<u8>>, h: u64) -> bool {
    exists|k: Seq<u8>| #[trigger] m.dom().contains(k) && in_range(k, h) && !recognized(k, h)
}

/// How reading the Merkle tree data of height `h` goes: store types in a
/// fixed order, root before store; the first missing or undecodable part
/// decides.
pub open spec fn merkle_case(m: Map<Seq<u8>, Seq<u8>>, h: u64) -> TriCase {
    if bytes_case(m, block_key(h, base_root_sfx())) != TriCase::Present {
        bytes_case(m, block_key(h, base_root_sfx()))
    } else if !m.dom().contains(block_key(h, base_store_sfx())) {
        TriCase::Absent
    } else if bytes_case(m, block_key(h, account_root_sfx())) != TriCase::Present {
        bytes_case(m, block_key(h, account_root_sfx()))
    } else if !m.dom().contains(block_key(h, account_store_sfx())) {
        TriCase::Absent
    } else if bytes_case(m, block_key(h, ibc_root_sfx())) != TriCase::Present {
        bytes_case(m, block_key(h, ibc_root_sfx()))
    } else if !m.dom().contains(block_key(h, ibc_store_sfx())) {
        TriCase::Absent
    } else if bytes_case(m, block_key(h, pos_root_sfx())) != TriCase::Present {
        bytes_case(m, block_key(h, pos_root_sfx()))
    } else if !m.dom().contains(block_key(h, pos_store_sfx())) {
        TriCase::Absent
    } else {
        TriCase::Present
    }
}

/// The Merkle tree data of height `h`, when `merkle_case` is `Present`.
pub open spec fn merkle_of(m: Map<Seq<u8>, Seq<u8>>, h: u64, t: MerkleTreeStores) -> bool {
    &&& t.base_root@ == bytes_of_enc(m[block_key(h, base_root_sfx())])
    &&& t.base_store@ == m[block_key(h, base_store_sfx())]
    &&& t.account_root@ == bytes_of_enc(m[block_key(h, account_root_sfx())])
    &&& t.account_store@ == m[block_key(h, account_store_sfx())]
    &&& t.ibc_root@ == bytes_of_enc(m[block_key(h, ibc_root_sfx())])
    &&& t.ibc_store@ == m[block_key(h, ibc_store_sfx())]
    &&& t.pos_root@ == bytes_of_enc(m[block_key(h, pos_root_sfx())])
    &&& t.pos_store@ == m[block_key(h, pos_store_sfx())]
}

/// The height stored under the latest-height marker.
pub open spec fn stored_height(m: Map<Seq<u8>, Seq<u8>>) -> u64 {
    u64_of_le(m[height_key()])
}

/// The outcome `read_last_block` owes: the checks run in a fixed order and
/// the first that fails decides.
pub open spec fn last_block_case(m: Map<Seq<u8>, Seq<u8>>) -> LastBlockCase {
    if !m.dom().contains(height_key()) {
        LastBlockCase::NoBlock
    } else if !valid_u64_enc(m[height_key()]) {
        LastBlockCase::Undecodable
    } else {
        let h = stored_height(m);
        if bytes_case(m, results_key(h)) == TriCase::Absent {
            LastBlockCase::Incomplete
        } else if bytes_case(m, results_key(h)) == TriCase::Undecodable {
            LastBlockCase::Undecodable
        } else if u64_case(m, next_height_key()) == TriCase::Absent {
            LastBlockCase::Incomplete
        } else if u64_case(m, next_height_key()) == TriCase::Undecodable {
            LastBlockCase::Undecodable
        } else if u64_case(m, next_time_key()) == TriCase::Absent {
            LastBlockCase::Incomplete
        } else if u64_case(m, next_time_key()) == TriCase::Undecodable {
            LastBlockCase::Undecodable
        } else if has_unknown_key(m, h) {
            LastBlockCase::Violation
        } else if bytes_case(m, block_key(h, hash_sfx())) == TriCase::Absent {
            LastBlockCase::Incomplete
        } else if bytes_case(m, block_key(h, hash_sfx())) == TriCase::Undecodable {
            LastBlockCase::Undecodable
        } else if u64_case(m, block_key(h, epoch_sfx())) == TriCase::Absent {
            LastBlockCase::Incomplete
        } else if u64_case(m, block_key(h, epoch_sfx())) == TriCase::Undecodable {
            LastBlockCase::Undecodable
        } else if u64s_case(m, block_key(h, pred_epochs_sfx())) == TriCase::Absent {
            LastBlockCase::Incomplete
        } else if u64s_case(m, block_key(h, pred_epochs_sfx())) == TriCase::Undecodable {
            LastBlockCase::Undecodable
        } else if u64_case(m, block_key(h, address_gen_sfx())) == TriCase::Absent {
            LastBlockCase::Incomplete
        } else if u64_case(m, block_key(h, address_gen_sfx())) == TriCase::Undecodable {
            LastBlockCase::Undecodable
        } else if merkle_case(m, h) == TriCase::Absent {
            LastBlockCase::Incomplete
        } else if merkle_case(m, h) == TriCase::Undecodable {
            LastBlockCase::Undecodable
        } else {
            LastBlockCase::Good
        }
    }
}

/// The fields `read_last_block` owes when `last_block_case` is `Good`.
pub open spec fn good_block_state(m: Map<Seq<u8>, Seq<u8>>, b: BlockStateRead) -> bool {
    let h = stored_height(m);
    &&& b.height == h
    &&& b.results@ == bytes_of_enc(m[results_key(h)])
    &&& b.next_epoch_min_start_height == u64_of_le(m[next_height_key()])
    &&& b.next_epoch_min_start_time == u64_of_le(m[next_time_key()])
    &&& b.hash@ == bytes_of_enc(m[block_key(h, hash_sfx())])
    &&& b.epoch == u64_of_le(m[block_key(h, epoch_sfx())])
    &&& b.pred_epochs@ == u64s_of_enc(m[block_key(h, pred_epochs_sfx())])
    &&& b.address_gen == u64_of_le(m[block_key(h, address_gen_sfx())])
    &&& merkle_of(m, stored_height(m), b.merkle_tree_stores)
}

/// The store content after committing `w`: the schema keys of `w.height`
/// and the global singletons, overwritten in a fixed order.
pub open spec fn write_block_map(m: Map<Seq<u8>, Seq<u8>>, w: BlockStateWrite) -> Map<
    Seq<u8>,
    Seq<u8>,
> {
    let h = w.height;
    let m1 = m.insert(next_height_key(), u64_le(w.next_epoch_min_start_height)).insert(
        next_time_key(),
        u64_le(w.next_epoch_min_start_time),
    );
    let m2 = m1.insert(block_key(h, base_root_sfx()), bytes_enc(w.merkle_tree_stores.base_root@))
        .insert(block_key(h, base_store_sfx()), w.merkle_tree_stores.base_store@)
        .insert(block_key(h, account_root_sfx()), bytes_enc(w.merkle_tree_stores.account_root@))
        .insert(block_key(h, account_store_sfx()), w.merkle_tree_stores.account_store@)
        .insert(block_key(h, ibc_root_sfx()), bytes_enc(w.merkle_tree_stores.ibc_root@))
        .insert(block_key(h, ibc_store_sfx()), w.merkle_tree_stores.ibc_store@)
        .insert(block_key(h, pos_root_sfx()), bytes_enc(w.merkle_tree_stores.pos_root@))
        .insert(block_key(h, pos_store_sfx()), w.merkle_tree_stores.pos_store@);
    let m3 = match w.header {
        Some(hd) => m2.insert(block_key(h, header_sfx()), bytes_enc(hd@)),
        None => m2,
    };
    m3.insert(block_key(h, hash_sfx()), bytes_enc(w.hash@)).insert(
        block_key(h, epoch_sfx()),
        u64_le(w.epoch),
    ).insert(block_key(h, pred_epochs_sfx()), u64s_enc(w.pred_epochs@)).insert(
        block_key(h, address_gen_sfx()),
        u64_le(w.address_gen),
    ).insert(height_key(), u64_le(w.height)).insert(results_key(h), bytes_enc(w.results@))
}

impl MockDB {
    /// Persist one committed block: the epoch-start thresholds, the full
    /// Merkle snapshot, the header when present, hash, epoch, predecessor
    /// epochs, address generator, the latest-height marker, and the block
    /// results.
    pub fn write_block(&mut self, state: BlockStateWrite) -> (r: Result<(), Error>)
        requires
            old(self).wf(),
            state.wf(),
        ensures
            final(self).wf(),
            final(self).as_map() == write_block_map(old(self).as_map(), state),
            r == Ok::<(), Error>(()),
    {
        let h = state.height;
        proof {
            lemma_dec_seq_len_u64(h);
        }
        let v = encode_u64(state.next_epoch_min_start_height);
        self.raw_put(next_height_key_vec(), v);
        let v = encode_u64(state.next_epoch_min_start_time);
        self.raw_put(next_time_key_vec(), v);
        let sfx = base_root_sfx_vec();
        let v = encode_bytes(state.merkle_tree_stores.base_root.as_slice());
        self.raw_put(block_key_vec(h, sfx.as_slice()), v);
        let sfx = base_store_sfx_vec();
        let v = copy_bytes(state.merkle_tree_stores.base_store.as_slice());
        self.raw_put(block_key_vec(h, sfx.as_slice()), v);
        let sfx = account_root_sfx_vec();
        let v = encode_bytes(state.merkle_tree_stores.account_root.as_slice());
        self.raw_put(block_key_vec(h, sfx.as_slice()), v);
        let sfx = account_store_sfx_vec();
        let v = copy_bytes(state.merkle_tree_stores.account_store.as_slice());
        self.raw_put(block_key_vec(h, sfx.as_slice()), v);
        let sfx = ibc_root_sfx_vec();
        let v = encode_bytes(state.merkle_tree_stores.ibc_root.as_slice());
        self.raw_put(block_key_vec(h, sfx.as_slice()), v);
        let sfx = ibc_store_sfx_vec();
        let v = copy_bytes(state.merkle_tree_stores.ibc_store.as_slice());
        self.raw_put(block_key_vec(h, sfx.as_slice()), v);
        let sfx = pos_root_sfx_vec();
        let v = encode_bytes(state.merkle_tree_stores.pos_root.as_slice());
        self.raw_put(block_key_vec(h, sfx.as_slice()), v);
        let sfx = pos_store_sfx_vec();
        let v = copy_bytes(state.merkle_tree_stores.pos_store.as_slice());
        self.raw_put(block_key_vec(h, sfx.as_slice()), v);
        match &state.header {
            Some(hd) => {
                let sfx = header_sfx_vec();
                let v = encode_bytes(hd.as_slice());
                self.raw_put(block_key_vec(h, sfx.as_slice()), v);
            },
            None => {},
        }
        let sfx = hash_sfx_vec();
        let v = encode_bytes(state.hash.as_slice());
        self.raw_put(block_key_vec(h, sfx.as_slice()), v);
        let sfx = epoch_sfx_vec();
        let v = encode_u64(state.epoch);
        self.raw_put(block_key_vec(h, sfx.as_slice()), v);
        let sfx = pred_epochs_sfx_vec();
        let v = encode_u64_list(&state.pred_epochs);
        proof {
            crate::codec::lemma_u64s_payload(state.pred_epochs@);
        }
        self.raw_put(block_key_vec(h, sfx.as_slice()), v);
        let sfx = address_gen_sfx_vec();
        let v = encode_u64(state.address_gen);
        self.raw_put(block_key_vec(h, sfx.as_slice()), v);
        let v = encode_u64(state.height);
        self.raw_put(height_key_vec(), v);
        let v = encode_bytes(state.results.as_slice());
        self.raw_put(results_key_vec(h), v);
        Ok(())
    }

    /// Read the header stored for `height`; `None` when no header was
    /// stored for it, which is not an error.
    pub fn read_block_header(&self, height: u64) -> (r: Result<Option<Vec<u8>>, Error>)
        requires
            self.wf(),
        ensures
            ({
                let m = self.as_map();
                let k = block_key(height, header_sfx());
                match bytes_case(m, k) {
                    TriCase::Absent => r == Ok::<Option<Vec<u8>>, Error>(None),
                    TriCase::Undecodable => r matches Err(Error::CodingError),
                    TriCase::Present => r matches Ok(Some(v)) && v@ == bytes_of_enc(m[k]),
                }
            }),
    {
        let sfx = header_sfx_vec();
        let k = block_key_vec(height, sfx.as_slice());
        match self.read_raw(k.as_slice()) {
            None => Ok(None),
            Some(b) => match decode_bytes(b.as_slice()) {
                None => Err(Error::CodingError),
                Some(v) => Ok(Some(v)),
            },
        }
    }

    /// Read every store type's root and store for `height`; `None` when any
    /// single part is absent, per the all-or-nothing invariant.
    pub fn read_merkle_tree_stores(&self, height: u64) -> (r: Result<
        Option<MerkleTreeStores>,
        Error,
    >)
        requires
            self.wf(),
        ensures
            ({
                let m = self.as_map();
                match merkle_case(m, height) {
                    TriCase::Absent => r == Ok::<Option<MerkleTreeStores>, Error>(None),
                    TriCase::Undecodable => r matches Err(Error::CodingError),
                    TriCase::Present => r matches Ok(Some(t)) && merkle_of(m, height, t),
                }
            }),
    {
        let sfx = base_root_sfx_vec();
        let k = block_key_vec(height, sfx.as_slice());
        let base_root = match self.read_raw(k.as_slice()) {
            None => {
                return Ok(None);
            },
            Some(b) => match decode_bytes(b.as_slice()) {
                None => {
                    return Err(Error::CodingError);
                },
                Some(v) => v,
            },
        };
        let sfx = base_store_sfx_vec();
        let k = block_key_vec(height, sfx.as_slice());
        let base_store = match self.read_raw(k.as_slice()) {
            None => {
                return Ok(None);
            },
            Some(b) => copy_bytes(b.as_slice()),
        };
        let sfx = account_root_sfx_vec();
        let k = block_key_vec(height, sfx.as_slice());
        let account_root = match self.read_raw(k.as_slice()) {
            None => {
                return Ok(None);
            },
            Some(b) => match decode_bytes(b.as_slice()) {
                None => {
                    return Err(Error::CodingError);
                },
                Some(v) => v,
            },
        };
        let sfx = account_store_sfx_vec();
        let k = block_key_vec(height, sfx.as_slice());
        let account_store = match self.read_raw(k.as_slice()) {
            None => {
                return Ok(None);
            },
            Some(b) => copy_bytes(b.as_slice()),
        };
        let sfx = ibc_root_sfx_vec();
        let k = block_key_vec(height, sfx.as_slice());
        let ibc_root = match self.read_raw(k.as_slice()) {
            None => {
                return Ok(None);
            },
            Some(b) => match decode_bytes(b.as_slice()) {
                None => {
                    return Err(Error::CodingError);
                },
                Some(v) => v,
            },
        };
        let sfx = ibc_store_sfx_vec();
        let k = block_key_vec(height, sfx.as_slice());
        let ibc_store = match self.read_raw(k.as_slice()) {
            None => {
                return Ok(None);
            },
            Some(b) => copy_bytes(b.as_slice()),
        };
        let sfx = pos_root_sfx_vec();
        let k = block_key_vec(height, sfx.as_slice());
        let pos_root = match self.read_raw(k.as_slice()) {
            None => {
                return Ok(None);
            },
            Some(b) => match decode_bytes(b.as_slice()) {
                None => {
                    return Err(Error::CodingError);
                },
                Some(v) => v,
            },
        };
        let sfx = pos_store_sfx_vec();
        let k = block_key_vec(height, sfx.as_slice());
        let pos_store = match self.read_raw(k.as_slice()) {
            None => {
                return Ok(None);
            },
            Some(b) => copy_bytes(b.as_slice()),
        };
        Ok(
            Some(
                MerkleTreeStores {
                    base_root,
                    base_store,
                    account_root,
                    account_store,
                    ibc_root,
                    ibc_store,
                    pos_root,
                    pos_store,
                },
            ),
        )
    }

    /// Reconstruct the most recently committed block state.
    ///
    /// `Ok(None)` means no block was ever committed. A height marker with
    /// any required field missing is inconsistent partial state and fails
    /// with [`Error::Temporary`]; a stored key under the height's namespace
    /// with an unrecognized form fails with [`Error::UnknownKey`], naming
    /// the first such key in key order; a required value that does not
    /// decode fails with [`Error::CodingError`].
    pub fn read_last_block(&mut self) -> (r: Result<Option<BlockStateRead>, Error>)
        requires
            old(self).wf(),
        ensures
            final(self).entries() == old(self).entries(),
            ({
                let m = old(self).as_map();
                let h = stored_height(m);
                match last_block_case(m) {
                    LastBlockCase::NoBlock => r == Ok::<Option<BlockStateRead>, Error>(None),
                    LastBlockCase::Undecodable => r matches Err(Error::CodingError),
                    LastBlockCase::Incomplete => r matches Err(Error::Temporary),
                    LastBlockCase::Violation => r matches Err(Error::UnknownKey { key: bk })
                        && m.dom().contains(bk@) && in_range(bk@, h) && !recognized(bk@, h) && (
                    forall|k2: Seq<u8>|
                        #[trigger] m.dom().contains(k2) && in_range(k2, h) && !recognized(k2, h)
                            ==> lex_le(bk@, k2)),
                    LastBlockCase::Good => r matches Ok(Some(b)) && good_block_state(m, b),
                }
            }),
    {
        let ghost m = old(self).as_map();
        // Latest committed height.
        let hk = height_key_vec();
        let height: u64 = match self.read_raw(hk.as_slice()) {
            None => {
                return Ok(None);
            },
            Some(b) => match decode_u64(b.as_slice()) {
                None => {
                    return Err(Error::CodingError);
                },
                Some(x) => x,
            },
        };
        // Block results.
        let rk = results_key_vec(height);
        let results = match self.read_raw(rk.as_slice()) {
            None => {
                return Err(Error::Temporary);
            },
            Some(b) => match decode_bytes(b.as_slice()) {
                None => {
                    return Err(Error::CodingError);
                },
                Some(v) => v,
            },
        };
        // Epoch start height and time.
        let k = next_height_key_vec();
        let next_epoch_min_start_height = match self.read_raw(k.as_slice()) {
            None => {
                return Err(Error::Temporary);
            },
            Some(b) => match decode_u64(b.as_slice()) {
                None => {
                    return Err(Error::CodingError);
                },
                Some(x) => x,
            },
        };
        let k = next_time_key_vec();
        let next_epoch_min_start_time = match self.read_raw(k.as_slice()) {
            None => {
                return Err(Error::Temporary);
            },
            Some(b) => match decode_u64(b.as_slice()) {
                None => {
                    return Err(Error::CodingError);
                },
                Some(x) => x,
            },
        };
        // Every stored key under this height must have a recognized form.
        let hp = height_prefix_vec(height);
        let n = self.entry_count();
        let mut i: usize = 0;
        while i < n
            invariant
                old(self).wf(),
                self.wf(),
                self.entries() == old(self).entries(),
                m == old(self).as_map(),
                m.dom().contains(height_key()),
                valid_u64_enc(m[height_key()]),
                stored_height(m) == height,
                bytes_case(m, results_key(height)) == TriCase::Present,
                u64_case(m, next_height_key()) == TriCase::Present,
                u64_case(m, next_time_key()) == TriCase::Present,
                n == self.entries().len(),
                i <= n,
                hp@ == height_prefix(height),
                forall|j: int|
                    0 <= j < i ==> (in_range((#[trigger] self.entries()[j]).0, height)
                        ==> recognized(self.entries()[j].0, height)),
            decreases n - i,
        {
            let bad = {
                let key = self.entry_key(i);
                starts_with(key.as_slice(), hp.as_slice()) && !recognized_sfx_at(
                    key.as_slice(),
                    hp.len(),
                )
            };
            if bad {
                let bk = copy_bytes(self.entry_key(i).as_slice());
                proof {
                    let es = self.entries();
                    crate::kv::lemma_map_of_entry(es, i as int);
                    assert(m.dom().contains(bk@));
                    assert(has_unknown_key(m, height));
                    assert(last_block_case(m) == LastBlockCase::Violation);
                    assert forall|k2: Seq<u8>|
                        #[trigger] m.dom().contains(k2) && in_range(k2, height) && !recognized(
                            k2,
                            height,
                        ) implies lex_le(bk@, k2) by {
                        let j = choose|j: int|
                            0 <= j < es.len() && (#[trigger] es[j]).0 == k2;
                        if j < i {
                            assert(recognized(es[j].0, height));
                        } else if j == i {
                            crate::kv::lemma_lex_le_refl(bk@);
                        } else {
                            assert(crate::order::lex_lt(es[i as int].0, es[j].0));
                        }
                    }
                }
                return Err(Error::UnknownKey { key: bk });
            }
            i = i + 1;
        }
        proof {
            let es = self.entries();
            assert forall|k2: Seq<u8>| #[trigger] m.dom().contains(k2) && in_range(
                k2,
                height,
            ) implies recognized(k2, height) by {
                let j = choose|j: int| 0 <= j < es.len() && (#[trigger] es[j]).0 == k2;
                assert(in_range(es[j].0, height) ==> recognized(es[j].0, height));
            }
            assert(!has_unknown_key(m, height));
        }
        // Per-height scalars.
        let sfx = hash_sfx_vec();
        let k = block_key_vec(height, sfx.as_slice());
        let hash = match self.read_raw(k.as_slice()) {
            None => {
                return Err(Error::Temporary);
            },
            Some(b) => match decode_bytes(b.as_slice()) {
                None => {
                    return Err(Error::CodingError);
                },
                Some(v) => v,
            },
        };
        let sfx = epoch_sfx_vec();
        let k = block_key_vec(height, sfx.as_slice());
        let epoch = match self.read_raw(k.as_slice()) {
            None => {
                return Err(Error::Temporary);
            },
            Some(b) => match decode_u64(b.as_slice()) {
                None => {
                    return Err(Error::CodingError);
                },
                Some(x) => x,
            },
        };
        let sfx = pred_epochs_sfx_vec();
        let k = block_key_vec(height, sfx.as_slice());
        let pred_epochs = match self.read_raw(k.as_slice()) {
            None => {
                return Err(Error::Temporary);
            },
            Some(b) => match decode_u64_list(b.as_slice()) {
                None => {
                    return Err(Error::CodingError);
                },
                Some(v) => v,
            },
        };
        let sfx = address_gen_sfx_vec();
        let k = block_key_vec(height, sfx.as_slice());
        let address_gen = match self.read_raw(k.as_slice()) {
            None => {
                return Err(Error::Temporary);
            },
            Some(b) => match decode_u64(b.as_slice()) {
                None => {
                    return Err(Error::CodingError);
                },
                Some(x) => x,
            },
        };
        // The Merkle snapshot, all parts or none.
        let merkle_tree_stores = match self.read_merkle_tree_stores(height) {
            Ok(Some(t)) => t,
            Ok(None) => {
                return Err(Error::Temporary);
            },
            Err(e) => {
                return Err(e);
            },
        };
        Ok(
            Some(
                BlockStateRead {
                    merkle_tree_stores,
                    hash,
                    height,
                    epoch,
                    pred_epochs,
                    next_epoch_min_start_height,
                    next_epoch_min_start_time,
                    address_gen,
                    results,
                },
            ),
        )
    }
}

/// True when the bytes of `k` from `off` on form a recognized height-scoped
/// suffix.
fn recognized_sfx_at(k: &[u8], off: usize) -> (r: bool)
    requires
        off <= k@.len(),
    ensures
        r == recognized_sfx(k@.skip(off as int)),
{
    let s = hash_sfx_vec();
    if suffix_eq(k, off, s.as_slice()) {
        return true;
    }
    let s = epoch_sfx_vec();
    if suffix_eq(k, off, s.as_slice()) {
        return true;
    }
    let s = pred_epochs_sfx_vec();
    if suffix_eq(k, off, s.as_slice()) {
        return true;
    }
    let s = address_gen_sfx_vec();
    if suffix_eq(k, off, s.as_slice()) {
        return true;
    }
    let s = header_sfx_vec();
    if suffix_eq(k, off, s.as_slice()) {
        return true;
    }
    let s = base_root_sfx_vec();
    if suffix_eq(k, off, s.as_slice()) {
        return true;
    }
    let s = base_store_sfx_vec();
    if suffix_eq(k, off, s.as_slice()) {
        return true;
    }
    let s = account_root_sfx_vec();
    if suffix_eq(k, off, s.as_slice()) {
        return true;
    }
    let s = account_store_sfx_vec();
    if suffix_eq(k, off, s.as_slice()) {
        return true;
    }
    let s = ibc_root_sfx_vec();
    if suffix_eq(k, off, s.as_slice()) {
        return true;
    }
    let s = ibc_store_sfx_vec();
    if suffix_eq(k, off, s.as_slice()) {
        return true;
    }
    let s = pos_root_sfx_vec();
    if suffix_eq(k, off, s.as_slice()) {
        return true;
    }
    let s = pos_store_sfx_vec();
    if suffix_eq(k, off, s.as_slice()) {
        return true;
    }
    false
}

} // verus!
