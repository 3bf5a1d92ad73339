//! The randomness boundary: the engine draws all of its randomness from
//! `rand`'s standard generator through the one wrapper below, and every
//! contract in the library states what holds of every outcome.

use vstd::prelude::*;

verus! {

/// `rand`'s standard generator, declared so that values of it can cross
/// the library's signatures. The library sees nothing of its inside.
#[verifier::external_type_specification]
#[verifier::external_body]
pub struct ExStdRng(rand::rngs::StdRng);

/// Relies on rand's `RngExt::random_range` over the inclusive range
/// `lo..=hi`: the sample lies within the range. The call panics only on
/// an empty range, which the precondition rules out.
#[verifier::external_body]
pub(crate) fn rand_inclusive(rng: &mut rand::rngs::StdRng, lo: usize, hi: usize) -> (r: usize)
    requires
        lo <= hi,
    ensures
        lo <= r <= hi,
{
    rand::RngExt::random_range(rng, lo..=hi)
}

} // verus!
