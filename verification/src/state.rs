//! The records exchanged with the storage backend, and its error kinds.

use vstd::prelude::*;

verus! {

/// Why a storage operation failed.
///
/// Absence of data is not an error: reads return `None` for keys that were
/// never written. Errors mean a malformed key, an undecodable stored value,
/// a protocol-violating stored key, or inconsistent partial state.
#[derive(Debug, Clone, PartialEq, Eq)]
pub enum Error {
    /// A stored value did not decode as the type the schema gives it.
    CodingError,
    /// A key was built from an invalid segment.
    KeyError,
    /// A stored key under a height-scoped namespace has an unrecognized
    /// form.
    UnknownKey { key: Vec<u8> },
    /// Required multi-field state was found partially present: the store
    /// holds some but not all fields of a committed block.
    Temporary,
}

/// Per store type, the committed root and the opaque serialized store of
/// the authenticated tree: the storage layer persists and reloads both
/// without interpreting them.
#[derive(Debug, Clone, PartialEq, Eq)]
pub struct MerkleTreeStores {
    pub base_root: Vec<u8>,
    pub base_store: Vec<u8>,
    pub account_root: Vec<u8>,
    pub account_store: Vec<u8>,
    pub ibc_root: Vec<u8>,
    pub ibc_store: Vec<u8>,
    pub pos_root: Vec<u8>,
    pub pos_store: Vec<u8>,
}

impl MerkleTreeStores {
    /// Every root fits a length-prefixed encoding and every store fits the
    /// store's value bound.
    pub open spec fn wf(&self) -> bool {
        &&& self.base_root@.len() <= u32::MAX
        &&& self.account_root@.len() <= u32::MAX
        &&& self.ibc_root@.len() <= u32::MAX
        &&& self.pos_root@.len() <= u32::MAX
        &&& crate::kv::len_ok(self.base_store@)
        &&& crate::kv::len_ok(self.account_store@)
        &&& crate::kv::len_ok(self.ibc_store@)
        &&& crate::kv::len_ok(self.pos_store@)
    }
}

/// The complete snapshot the ledger hands to the backend when a block is
/// committed.
#[derive(Debug, Clone, PartialEq, Eq)]
pub struct BlockStateWrite {
    pub merkle_tree_stores: MerkleTreeStores,
    /// Block metadata; optional, and not required for state reconstruction.
    pub header: Option<Vec<u8>>,
    pub hash: Vec<u8>,
    pub height: u64,
    pub epoch: u64,
    pub pred_epochs: Vec<u64>,
    pub next_epoch_min_start_height: u64,
    pub next_epoch_min_start_time: u64,
    pub address_gen: u64,
    pub results: Vec<u8>,
}

impl BlockStateWrite {
    /// Every variable-length field fits its encoding.
    pub open spec fn wf(&self) -> bool {
        &&& self.merkle_tree_stores.wf()
        &&& self.hash@.len() <= u32::MAX
        &&& self.results@.len() <= u32::MAX
        &&& self.pred_epochs@.len() <= u32::MAX
        &&& match self.header {
            Some(h) => h@.len() <= u32::MAX,
            None => true,
        }
    }
}

/// The complete snapshot the ledger reconstructs from the backend on
/// startup. The header is not part of it: headers are read separately and
/// their absence does not invalidate the rest of the state.
#[derive(Debug, Clone, PartialEq, Eq)]
pub struct BlockStateRead {
    pub merkle_tree_stores: MerkleTreeStores,
    pub hash: Vec<u8>,
    pub height: u64,
    pub epoch: u64,
    pub pred_epochs: Vec<u64>,
    pub next_epoch_min_start_height: u64,
    pub next_epoch_min_start_time: u64,
    pub address_gen: u64,
    pub results: Vec<u8>,
}

} // verus!
