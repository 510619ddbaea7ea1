//! Core of a speculative parallel executor for ordered transaction blocks.
//!
//! Given a fully ordered list of transactions and a read-only view of the
//! pre-block world state, the engine produces the same per-transaction
//! receipts and post-block state deltas as strict sequential execution.
//! This crate holds the verified core: the multi-version write log
//! ([`mv_memory`]), the read-intercepting database state that tracks read
//! origins and resolves lazy balance deltas ([`db`]), the translation of
//! evaluator output into write sets ([`vm`]), the laws tying them
//! together ([`laws`]), the receipt wire encodings and their trie root
//! ([`receipt`]), and the chain policies that select hardforks, gas
//! prices and rewards ([`primitives`], [`chain_optimism`]).

use vstd::prelude::*;

pub mod bytes;
pub mod chain_optimism;
pub mod db;
pub mod keccak;
pub mod laws;
pub mod mv_memory;
pub mod primitives;
pub mod receipt;
pub mod rlp;
pub mod storage;
pub mod types;
pub mod uint;
pub mod vm;
pub mod walk;

verus! {

} // verus!
