//! Bridge between a BFT consensus engine and a node's message bus.
//!
//! The library keeps the per-height state that the bridge needs to answer
//! the engine, derives the authority list from chain status reports, encodes
//! and decodes commit proofs for block headers, assembles blocks once every
//! piece of height state has arrived, and decides what each bus message and
//! each engine request leads to.

pub mod authority;
pub mod proof_codec;
pub mod processor;
pub mod adapter;
