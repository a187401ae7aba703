use vstd::prelude::*;

verus! {

/// Calls `rand::Rng::gen_range(0..bound)` on `rand::thread_rng()`.
/// Claimed: the result lies in `0..bound` (the crate panics on an empty
/// range, hence `bound > 0`). Which value comes out is left open.
#[verifier::external_body]
pub(crate) fn random_below(bound: usize) -> (r: usize)
    requires
        bound > 0,
    ensures
        r < bound,
{
    rand::Rng::gen_range(&mut rand::thread_rng(), 0..bound)
}

/// Calls `rand::seq::SliceRandom::choose` on `items` with `rand::thread_rng()`.
/// Claimed: on a non-empty slice it returns one of the slice's elements.
/// Which one is left open.
#[verifier::external_body]
pub(crate) fn choose_one(items: &[u8]) -> (r: u8)
    requires
        items@.len() > 0,
    ensures
        items@.contains(r),
{
    *rand::seq::SliceRandom::choose(items, &mut rand::thread_rng()).unwrap()
}

} // verus!
