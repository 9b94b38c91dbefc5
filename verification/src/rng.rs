//! Trusted boundary to the random number generator.
//!
//! Every draw of randomness in the simulation goes through the two wrappers
//! below, so the rest of the crate is verified for every possible outcome.

use vstd::prelude::*;

verus! {

/// Relies on fastrand::shuffle: it reorders the slice in place by element
/// swaps, so the new contents are a permutation of the old.
#[verifier::external_body]
pub fn shuffle_vec<T>(v: &mut Vec<T>)
    ensures
        final(v)@.to_multiset() == old(v)@.to_multiset(),
        final(v)@.len() == old(v)@.len(),
{
    fastrand::shuffle(v.as_mut_slice());
}

/// Relies on fastrand::usize: it returns a value inside the given range and
/// panics only when the range is empty, which `n > 0` rules out.
#[verifier::external_body]
pub fn random_below(n: usize) -> (r: usize)
    requires
        n > 0,
    ensures
        r < n,
{
    fastrand::usize(..n)
}

} // verus!
