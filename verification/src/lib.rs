//! Batch assembly and decode orchestration for token-by-token inference.
//!
//! The crate packs tokens into bounded batches, drives single-sequence
//! generation and multi-sequence embedding extraction as explicit state
//! machines, assembles streamed token bytes into text, and accounts for the
//! positions of mixed text and media input. The inference engine itself is an
//! outside collaborator: callers perform the decode, sampling and encoder
//! calls and report their outcomes back as plain values.

pub mod token;
pub mod batch;
pub mod text;
pub mod generation;
pub mod embedding;
pub mod cstr;
pub mod decimal;
pub mod multimodal;
pub mod rpc;
