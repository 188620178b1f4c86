//! The only place randomness enters the engine: a trusted wrapper around the
//! process random number generator.

use rand::Rng;
use vstd::prelude::*;

verus! {

/// Relies on rand's `Rng::gen_range` over `0..n`: it returns a value drawn
/// uniformly from that range, and panics only when the range is empty, which
/// the precondition rules out. Nothing beyond the bound is assumed of the
/// result; callers must be correct for every value below `n`.
#[verifier::external_body]
pub(crate) fn random_below(n: usize) -> (r: usize)
    requires
        n >= 1,
    ensures
        r < n,
{
    rand::thread_rng().gen_range(0..n)
}

} // verus!
