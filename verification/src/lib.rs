//! An in-memory key-value storage backend for a block ledger.
//!
//! The store keeps byte-string keys in ascending lexicographic order and
//! persists, per committed block height, a Merkle-tree snapshot, block
//! metadata (hash, epoch, predecessor epochs, address generator), block
//! results, and a flat application "subspace" of key/value data.

pub mod block;
pub mod codec;
pub mod db;
pub mod iter;
pub mod key;
pub mod kv;
pub mod laws;
pub mod order;
pub mod schema;
pub mod state;
