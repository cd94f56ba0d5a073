//! Entropy for the random-fill operations.

use vstd::prelude::*;

verus! {

/// Relies on `rand::random`: one draw from the thread-local generator.
/// Nothing can be promised of a random value.
pub assume_specification<T>[ rand::random::<T> ]() -> (r: T)
    where
        rand::distr::StandardUniform: rand::distr::Distribution<T>,
;

/// A buffer of `n` bytes drawn from the thread-local generator.
pub(crate) fn random_bytes(n: usize) -> (r: Vec<u8>)
    ensures
        r@.len() == n,
{
    let mut out: Vec<u8> = Vec::new();
    let mut i: usize = 0;
    while i < n
        invariant
            i <= n,
            out@.len() == i,
        decreases n - i,
    {
        let b: u8 = rand::random();
        out.push(b);
        i = i + 1;
    }
    out
}

} // verus!
