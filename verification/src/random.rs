//! The one randomness primitive the procedural content needs.

use rand::Rng;
use vstd::prelude::*;

verus! {

/// Relies on rand::rng and rand::Rng::random_range: a draw from the
/// half-open integer range `lo..hi` lies in that range. The call panics
/// only on an empty range, which the precondition rules out.
#[verifier::external_body]
pub(crate) fn random_in_range(lo: i64, hi: i64) -> (r: i64)
    requires
        lo < hi,
    ensures
        lo <= r < hi,
{
    rand::rng().random_range(lo..hi)
}

} // verus!
