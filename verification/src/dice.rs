//! Random draws from seeded streams.

use rand::rngs::StdRng;
use rand::{Rng, SeedableRng};
use vstd::prelude::*;

verus! {

#[verifier::external_type_specification]
#[verifier::external_body]
pub struct ExStdRng(StdRng);

// `StdRng` is a ChaCha stream of 12 rounds: its seed and the draws that were made
// before decide each draw.

/// The number a generator was seeded with.
pub uninterp spec fn seed_of(rng: StdRng) -> u64;

/// The draws a generator has made so far, each written as by [`range_draw`] or
/// [`chance_draw`].
pub uninterp spec fn drawn_so_far(rng: StdRng) -> Seq<(u32, u32)>;

/// What a stream gives for a number in `0..bound` after earlier draws.
pub uninterp spec fn number_drawn(seed: u64, before: Seq<(u32, u32)>, bound: i32) -> i32;

/// What a stream gives for a chance of `numerator` in `denominator` after earlier
/// draws.
pub uninterp spec fn chance_drawn(
    seed: u64,
    before: Seq<(u32, u32)>,
    numerator: u32,
    denominator: u32,
) -> bool;

/// The record of a draw of a number in `0..bound`.
pub open spec fn range_draw(bound: i32) -> (u32, u32) {
    (bound as u32, 0)
}

/// The record of a draw with a chance of `numerator` in `denominator`.
pub open spec fn chance_draw(numerator: u32, denominator: u32) -> (u32, u32) {
    (numerator, denominator)
}

/// `n` equal draws.
pub open spec fn repeated(draw: (u32, u32), n: nat) -> Seq<(u32, u32)> {
    Seq::new(n, |i: int| draw)
}

/// `StdRng::seed_from_u64`: a generator seeded by `seed` that has drawn nothing
/// yet.
#[verifier::external_body]
pub(crate) fn rng_from_seed(seed: u64) -> (rng: StdRng)
    ensures
        seed_of(rng) == seed,
        drawn_so_far(rng).len() == 0,
{
    StdRng::seed_from_u64(seed)
}

/// `Rng::random_range` over `0..bound`: a number in that range, which the seed and
/// the draws before it decide. How they do is left to the generator. An empty
/// range would panic.
#[verifier::external_body]
pub(crate) fn draw_below(rng: &mut StdRng, bound: i32) -> (v: i32)
    requires
        bound > 0,
    ensures
        0 <= v < bound,
        v == number_drawn(seed_of(*old(rng)), drawn_so_far(*old(rng)), bound),
        seed_of(*final(rng)) == seed_of(*old(rng)),
        drawn_so_far(*final(rng)) == drawn_so_far(*old(rng)).push(range_draw(bound)),
{
    rng.random_range(0..bound)
}

/// `Rng::random_ratio`: true with a chance of `numerator` in `denominator`; sure
/// to be true when they are equal, and false when the numerator is 0. Otherwise
/// the seed and the draws before it decide, in the generator's own way. A ratio
/// above 1, or a denominator of 0, would panic.
#[verifier::external_body]
pub(crate) fn draw_ratio(rng: &mut StdRng, numerator: u32, denominator: u32) -> (hit: bool)
    requires
        denominator > 0,
        numerator <= denominator,
    ensures
        numerator == denominator ==> hit,
        numerator == 0 ==> !hit,
        hit == chance_drawn(seed_of(*old(rng)), drawn_so_far(*old(rng)), numerator, denominator),
        seed_of(*final(rng)) == seed_of(*old(rng)),
        drawn_so_far(*final(rng)) == drawn_so_far(*old(rng)).push(
            chance_draw(numerator, denominator),
        ),
{
    rng.random_ratio(numerator, denominator)
}

} // verus!
