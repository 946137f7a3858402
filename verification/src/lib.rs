//! Reconstruction of per-thread call trees from instrumentation guard traces.
//!
//! A fuzzed target emits one text file per thread; each line records one
//! event (function entry or return, branch decision, loop progress, lock
//! state, thread creation).  This crate classifies those lines, replays
//! them into a call tree per thread, assembles the trees of one execution
//! into a forest, and runs analyses (recursion detection, call-frequency
//! and fan-out ranking, common-ancestor queries) over the result.

pub mod action;
pub mod code_query;
pub mod constraints;
pub mod error;
pub mod exec_tree;
pub mod inter;
pub mod loc;
pub mod stmts;
pub mod strutil;
pub mod tree;
