//! A verified implementation of the STIR low-degree test: a hash-based
//! interactive oracle proof, made non-interactive through a Fiat-Shamir
//! transcript, that a committed function is close to a polynomial of
//! bounded degree.
//!
//! The crate is organised around the protocol's phases: parameter
//! derivation ([`parameters`]), the initial commitment ([`committer`]),
//! the multi-round folding prover ([`prover`]) and the mirroring
//! verifier ([`checker`]), with the wire-format proof object in
//! [`stir_proof`]. Field arithmetic lives in [`field`], polynomial
//! evaluation and folding in [`poly_utils`], the Merkle commitment layer
//! in [`merkle`], and the Fiat-Shamir transcript with its proof-of-work
//! in [`transcript`]; the hash primitive itself is supplied by an
//! outside crate and trusted, everything above it is verified.

pub mod checker;
pub mod codec;
pub mod committer;
pub mod field;
pub mod hashing;
pub mod merkle;
pub mod parameters;
pub mod poly_utils;
pub mod prover;
pub mod stir_proof;
pub mod transcript;
