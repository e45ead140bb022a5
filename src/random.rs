//! Draws from the thread-local random number generator of `rand`.
use rand::seq::SliceRandom;
use rand::Rng;
use vstd::prelude::*;

verus! {

/// Relies on `rand::thread_rng` and `rand::Rng::gen_range` on `lo..hi`: a
/// value of the half-open range, which must not be empty (`gen_range` panics
/// on an empty range).
#[verifier::external_body]
pub(crate) fn random_in(lo: u32, hi: u32) -> (r: u32)
    requires
        lo < hi,
    ensures
        lo <= r < hi,
{
    rand::thread_rng().gen_range(lo..hi)
}

/// Relies on `rand::seq::SliceRandom::choose` with `rand::thread_rng`: one
/// element of a non-empty slice (`choose` returns `None` only on an empty one).
#[verifier::external_body]
pub(crate) fn choose_band(bands: &Vec<(u32, u32)>) -> (r: (u32, u32))
    requires
        bands@.len() > 0,
    ensures
        bands@.contains(r),
{
    *bands.as_slice().choose(&mut rand::thread_rng()).unwrap()
}

} // verus!
