//! The random sources that generation and combat draw from. Each function
//! here makes one call into the `rand` crate and states what holds of every
//! outcome; the logic that uses a draw takes it as a plain value.

use rand::seq::SliceRandom;
use rand::Rng;
use vstd::prelude::*;

verus! {

/// Relies on `rand::Rng::gen_range` over a half-open range of `u32`: it
/// returns a value inside the range, and panics only when the range is empty.
#[verifier::external_body]
pub(crate) fn random_range(lo: u32, hi: u32) -> (r: u32)
    requires
        lo < hi,
    ensures
        lo <= r < hi,
{
    rand::thread_rng().gen_range(lo..hi)
}

/// Relies on `rand::random::<u32>`: any `u32` may come back.
#[verifier::external_body]
pub(crate) fn random_u32() -> (r: u32) {
    rand::random::<u32>()
}

/// Relies on `rand::seq::SliceRandom::shuffle`: it permutes the items in
/// place by swaps, so the same items remain.
#[verifier::external_body]
pub(crate) fn shuffle_cells(v: &mut Vec<(u32, u32)>)
    ensures
        final(v)@.len() == old(v)@.len(),
        final(v)@.to_multiset() == old(v)@.to_multiset(),
{
    v.shuffle(&mut rand::thread_rng())
}

/// Relies on `rand::seq::SliceRandom::choose`: on a non-empty slice it returns
/// a reference to one of its items.
#[verifier::external_body]
pub(crate) fn choose_one(options: &Vec<usize>) -> (r: usize)
    requires
        options@.len() > 0,
    ensures
        options@.contains(r),
{
    *options.choose(&mut rand::thread_rng()).unwrap()
}

} // verus!
