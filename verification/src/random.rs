//! The draws that the library takes from a random number generator.
//!
//! Nothing is known of a draw beyond the set it is taken from: the functions that
//! call these state what holds whatever was drawn.

use vstd::prelude::*;
use rand::seq::SliceRandom;

verus! {

/// Draws a boolean through `rand::Rng::gen_ratio`, which is true with the chance of
/// `numerator` in `denominator`.  The draw is always true where the two are equal and
/// always false where `numerator` is zero; `gen_ratio` panics where `denominator` is
/// zero or smaller than `numerator`.
#[verifier::external_body]
pub(crate) fn gen_ratio<R: rand::Rng>(rng: &mut R, numerator: u32, denominator: u32) -> (hit:
    bool)
    requires
        denominator > 0,
        numerator <= denominator,
    ensures
        numerator == denominator ==> hit,
        numerator == 0 ==> !hit,
{
    rng.gen_ratio(numerator, denominator)
}

/// Draws an index through `rand::Rng::gen_range` on the half-open range
/// `low..high`.  The draw lies in the range; `gen_range` panics on an empty one.
#[verifier::external_body]
pub(crate) fn gen_index<R: rand::Rng>(rng: &mut R, low: usize, high: usize) -> (drawn: usize)
    requires
        low < high,
    ensures
        low <= drawn < high,
{
    rng.gen_range(low..high)
}

/// Draws a number through `rand::Rng::gen_range` on the closed range `low..=last`.
/// The draw lies in the range; `gen_range` panics on an empty one.
#[verifier::external_body]
pub(crate) fn gen_number<R: rand::Rng>(rng: &mut R, low: i32, last: i32) -> (drawn: i32)
    requires
        low <= last,
    ensures
        low <= drawn <= last,
{
    rng.gen_range(low..=last)
}

/// Draws a number through `rand::Rng::sample` from `rand::distributions::Uniform::new`
/// on the half-open range `low..high`.  The draw lies in the range; `Uniform::new`
/// panics on an empty one.
#[verifier::external_body]
pub(crate) fn sample_uniform<R: rand::Rng>(rng: &mut R, low: i32, high: i32) -> (drawn: i32)
    requires
        low < high,
    ensures
        low <= drawn < high,
{
    rng.sample(rand::distributions::Uniform::new(low, high))
}

/// Picks one item through `rand::seq::SliceRandom::choose`: `None` of an empty list,
/// else one of its items.
#[verifier::external_body]
pub(crate) fn pick_one<'a, T, R: rand::Rng>(rng: &mut R, items: &'a Vec<T>) -> (picked: Option<
    &'a T,
>)
    ensures
        items@.len() == 0 ==> picked is None,
        items@.len() > 0 ==> picked is Some && items@.contains(*picked.unwrap()),
{
    items.choose(rng)
}

/// Draws 64 bits through `rand::RngCore::next_u64`.  Nothing is claimed of them.
#[verifier::external_body]
pub(crate) fn next_u64<R: rand::Rng>(rng: &mut R) -> u64 {
    rng.next_u64()
}

/// Reorders the list at random through `rand::seq::SliceRandom::shuffle`, which only
/// swaps items: the list holds the same items afterwards, each as often as before.
#[verifier::external_body]
pub(crate) fn shuffle<T, R: rand::Rng>(rng: &mut R, items: &mut Vec<T>)
    ensures
        final(items)@.to_multiset() == old(items)@.to_multiset(),
{
    items.shuffle(rng)
}

} // verus!
