//! Trusted wrappers around the `rand` crate.
//!
//! Each wrapper makes one call into `rand` and promises only what the crate
//! documents: the sampled value lies in the requested non-empty range.
//! Nothing else can be said of a random value, so all logic that consumes one
//! takes it as an argument and is verified for every value.

use vstd::prelude::*;

verus! {

/// Relies on rand::random_range sampling uniformly from `0..n`, which is
/// non-empty by the precondition; the result is therefore below `n`.
#[verifier::external_body]
pub(crate) fn random_u8_below(n: u8) -> (r: u8)
    requires
        n > 0,
    ensures
        r < n,
{
    rand::random_range(0..n)
}

/// Relies on rand::random_range sampling uniformly from `0..n`, which is
/// non-empty by the precondition; the result is therefore below `n`.
#[verifier::external_body]
pub(crate) fn random_u16_below(n: u16) -> (r: u16)
    requires
        n > 0,
    ensures
        r < n,
{
    rand::random_range(0..n)
}

/// Relies on rand::random_range sampling uniformly from `0..n`, which is
/// non-empty by the precondition; the result is therefore below `n`.
#[verifier::external_body]
pub(crate) fn random_usize_below(n: usize) -> (r: usize)
    requires
        n > 0,
    ensures
        r < n,
{
    rand::random_range(0..n)
}

/// Relies on rand::random_range sampling uniformly from the inclusive range
/// `lo..=hi`, which is non-empty by the precondition.
#[verifier::external_body]
pub(crate) fn random_i16_in(lo: i16, hi: i16) -> (r: i16)
    requires
        lo <= hi,
    ensures
        lo <= r <= hi,
{
    rand::random_range(lo..=hi)
}

} // verus!
