//! An accumulation (folding) scheme for multilinear polynomial-commitment
//! opening claims, together with the cycle-of-curves coprocessor that carries
//! the elliptic-curve side of each fold and the decision procedure that
//! certifies a folded claim.

pub mod accumulator;
pub mod coprocessor;
pub mod eq_tree;
pub mod field;
pub mod kzh3;
pub mod ova;
pub mod pcs;
pub mod polynomial;
pub mod group;
pub mod utils;
pub mod prover;
pub mod scalar;
pub mod transcript;
pub mod step_verifier;

use vstd::prelude::*;

verus! {

/// A recoverable construction error: malformed input reported to the caller.
#[derive(Clone, Copy, Debug, PartialEq, Eq, Structural)]
pub enum FoldError {
    /// Two trees of different depths cannot be combined.
    DepthMismatch,
    /// Two vectors of different lengths cannot be combined.
    LengthMismatch,
}


} // verus!
