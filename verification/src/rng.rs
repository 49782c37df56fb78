//! Randomness for the spawn policies, drawn from the `rand` crate.

use vstd::prelude::*;

verus! {

/// Relies on `rand::Rng::gen_range` over an `i64` half-open range: the
/// sample lies in `[lo, hi)`; the call panics on an empty range, which the
/// precondition rules out.
#[verifier::external_body]
pub(crate) fn rand_i64(lo: i64, hi: i64) -> (r: i64)
    requires
        lo < hi,
    ensures
        lo <= r < hi,
{
    rand::Rng::gen_range(&mut rand::thread_rng(), lo..hi)
}

} // verus!
