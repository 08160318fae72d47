//! Random choices, drawn from the thread-local generator of the `rand` crate.

use vstd::prelude::*;

verus! {

/// Calls `rand::thread_rng().gen_range(0..len)`. `Rng::gen_range` returns a
/// value of the range it is given and panics on an empty one, so `len > 0`
/// is required and the result is below `len`; which value comes is chance.
#[verifier::external_body]
pub(crate) fn random_index(len: usize) -> (i: usize)
    requires
        len > 0,
    ensures
        i < len,
{
    rand::Rng::gen_range(&mut rand::thread_rng(), 0..len)
}

} // verus!
