//! Typed stores and deltas for data-transformation modules.
//!
//! A module computes over a stream of blocks. It writes values to a store
//! that its host keeps, reads the stores of other modules, and is handed the
//! changes, the deltas, that a block made to a store. This library is the
//! module's side of that: the stores, typed by how the host merges what is
//! written and by how a value is written down ([`store`]); the host as the
//! library sees it, with a host in memory and one that only records
//! ([`state`], [`memory_host`]); the decoding of stored bytes and of deltas
//! ([`codec`], [`decimal`], [`scalar`], [`delta`], [`pb`]); and the selection
//! of deltas by their key and operation and of keys by boolean expressions
//! ([`key`], [`operation`], [`expr_parser`], [`parser`]).
//!
//! Each function has a contract that says what it returns or changes, over
//! the mathematical models that the modules define, and the verifier proves
//! that its body keeps it and does not panic. The exceptions are the calls
//! into `num-bigint`, `bigdecimal` and the UTF-8 check of the standard
//! library: they stand in small functions of [`scalar`] and [`text`] whose
//! contracts are taken on trust, each with a comment that names the function
//! called and says what is assumed of it.

pub mod codec;
pub mod decimal;
pub mod delta;
pub mod expr_parser;
pub mod key;
pub mod memory_host;
pub mod operation;
pub mod parser;
pub mod pb;
pub mod scalar;
pub mod state;
pub mod store;
pub mod text;
