use vstd::prelude::*;
use rand::Rng;

verus! {

/// Relies on `rand::Rng::gen_range` over `thread_rng`: for a non-empty
/// inclusive range it returns a value inside the range.
#[verifier::external_body]
pub(crate) fn random_usize(min: usize, max: usize) -> (r: usize)
    requires
        min <= max,
    ensures
        min <= r <= max,
{
    rand::thread_rng().gen_range(min..=max)
}

} // verus!
