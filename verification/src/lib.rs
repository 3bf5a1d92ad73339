//! Genetic-programming tree engine: depth-bounded random generation of
//! expression trees, preorder traversal and subtree surgery, and the
//! crossover and mutation operators built on them.

use vstd::prelude::*;

pub mod tree;

pub mod gen;

pub mod individual;

pub mod crossover;

pub mod mutation;

pub mod snake;

pub mod rng;

verus! {

/// The failures the engine reports. No operation retries: every failure
/// propagates to the caller synchronously.
#[derive(Debug, Clone, Copy, PartialEq, Eq)]
pub enum GpError {
    /// A depth range with the minimum above the maximum: a depth would
    /// have to be picked uniformly from an empty range.
    InvalidDepthBounds,
    /// An operator variant that is declared but intentionally has no
    /// working body; failing explicitly keeps a caller from mistaking
    /// it for a no-op.
    Unsupported,
}

/// Clamp a mathematical count to what a `usize` can hold.
pub open spec fn clamped(n: nat) -> nat {
    if n <= usize::MAX as nat {
        n
    } else {
        usize::MAX as nat
    }
}

} // verus!
