//! A verified session core for an interactive Solidity authoring environment:
//! fragment classification, deterministic source synthesis, session snapshot
//! encoding and decoding, and cache bookkeeping.

pub mod cache;
pub mod dec;
pub mod env;
pub mod fragment;
pub mod laws;
pub mod snapshot;
pub mod synth;
pub mod version;
