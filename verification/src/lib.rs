//! State-journaling and bytecode-decommitment core of a zero-knowledge EVM
//! execution engine.
//!
//! The crate provides a rollback-capable history-tracking container
//! ([`history::HistoryRecorder`]), the bytecode decommitment oracle built on
//! top of it ([`decommitter::DecommitterOracle`]), timestamp-indexed log
//! utilities ([`timestamps`]), and the raw memory-page byte-extraction
//! routine ([`extract`]) together with the 256-bit word codec ([`word`]).

pub mod api;
pub mod block;
pub mod bytes_iter;
pub mod decommitter;
pub mod extract;
pub mod history;
pub mod kv;
pub mod memory;
pub mod storage;
pub mod timestamps;
pub mod word;

use vstd::prelude::*;

verus! {

} // verus!
