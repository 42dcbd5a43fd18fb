//! Random choices, made by `fastrand`.

use vstd::prelude::*;

verus! {

/// `fastrand::u64` over the range `low..high`, which it panics on when the
/// range is empty: some number `r` with `low <= r < high`.
#[verifier::external_body]
pub(crate) fn random_u64_in(low: u64, high: u64) -> (r: u64)
    requires
        low < high,
    ensures
        low <= r < high,
{
    fastrand::u64(low..high)
}

/// `fastrand::usize` over the range `0..n`, which it panics on when `n` is
/// zero: some index below `n`.
#[verifier::external_body]
pub(crate) fn random_usize_below(n: usize) -> (r: usize)
    requires
        0 < n,
    ensures
        r < n,
{
    fastrand::usize(0..n)
}

} // verus!
