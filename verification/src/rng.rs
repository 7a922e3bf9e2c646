//! The one randomness primitive the simulation draws on.  Wave placement and
//! rock velocities are sampled through it; everything that is proved about
//! them holds for every value the generator can return.

use vstd::prelude::*;
use rand::Rng;

verus! {

/// Relies on `rand::Rng::gen_range` over an `i64` range: returns a uniformly
/// distributed value in `[lo, hi)`.  It panics only on an empty range, which
/// the precondition rules out.
#[verifier::external_body]
pub(crate) fn rand_in_range(lo: i64, hi: i64) -> (r: i64)
    requires
        lo < hi,
    ensures
        lo <= r < hi,
{
    rand::thread_rng().gen_range(lo..hi)
}

} // verus!
