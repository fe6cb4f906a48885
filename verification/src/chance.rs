//! The one source of chance the world draws on.

use rand::Rng;
use vstd::prelude::*;

verus! {

/// Draws a number below `bound` from the thread's random generator, by
/// `rand::Rng::gen_range` on the range from zero up to, and without, `bound`.
/// Nothing is proved of it: the contract repeats what the generator
/// documents, that the draw lies in the range it was given. An empty range
/// makes the generator panic, so the bound must be positive.
#[verifier::external_body]
pub(crate) fn random_below(bound: usize) -> (draw: usize)
    requires
        bound > 0,
    ensures
        draw < bound,
{
    rand::thread_rng().gen_range(0..bound)
}

} // verus!
