//! The core of a StarkNet follower node, verified: the hashes of
//! transactions, the Patricia-Merkle tries that commit to the state, and the
//! chain of headers with the search for what is missing from it.
//!
//! - [`felt`]: the elements of the field, and [`hash`]: Pedersen, Poseidon
//!   and Keccak over them, with the Pedersen hash chain.
//! - [`common`], [`header`], [`transaction`]: the values that blocks and
//!   transactions are made of.
//! - [`transaction_hash`]: the hash of every kind and version of
//!   transaction, and its check against the hash that a transaction reports.
//! - [`patricia`]: the trie as mathematics, with the laws that its shape
//!   and its root follow from what it holds alone; [`trie_store`],
//!   [`merkle_node`], [`merkle_tree`], [`merkle_proof`]: the trie as a
//!   program; [`contract`]: the storage tries of the contracts and the
//!   global state trie.
//! - [`storage`]: the node store, with insertion, lookup and purge of
//!   blocks; [`tables`]: the rows of its tables.
//! - [`sync`]: the next gap in the stored headers, the continuity check on a
//!   stream of headers, and the storing of a batch.
//! - [`p2p_proto`], [`sync_handlers`]: what peers are sent when they ask
//!   for a run of blocks; [`p2p`]: the limits set on peers.
//! - [`rpc`]: what clients are told about a block, and how the trace of a
//!   transaction is prepared.

pub mod common;
pub mod contract;
pub mod felt;
pub mod hash;
pub mod header;
pub mod merkle_node;
pub mod merkle_proof;
pub mod merkle_tree;
pub mod p2p;
pub mod p2p_proto;
pub mod patricia;
pub mod rpc;
pub mod storage;
pub mod sync;
pub mod sync_handlers;
pub mod tables;
pub mod transaction;
pub mod transaction_hash;
pub mod trie_store;
