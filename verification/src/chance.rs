//! Where the engines leave a choice to chance, the random numbers come from
//! the `rand` crate. Nothing is proved of the calls in this file: each
//! contract states what the crate's source shows of every outcome.

use vstd::prelude::*;
use rand::rngs::ThreadRng;
use rand::seq::SliceRandom;
use rand::Rng;

verus! {

/// `rand::rngs::ThreadRng`, the handle of the generator that each thread
/// keeps. Nothing is known of what it holds.
#[verifier::external_type_specification]
#[verifier::external_body]
pub struct ExThreadRng(rand::rngs::ThreadRng);

/// `rand::thread_rng`: the handle of the calling thread's generator. The
/// contract claims nothing of it.
pub assume_specification[ rand::thread_rng ]() -> (rng: ThreadRng)
;

/// `rand::random::<usize>`: one number from the calling thread's generator.
/// The contract claims nothing of it: every `usize` may come back.
#[verifier::external_body]
pub(crate) fn random_index() -> (draw: usize) {
    rand::random::<usize>()
}

/// `SliceRandom::choose` on the slice of `cells`: `None` where there is no
/// cell, else one of the cells. The contract claims that and no more: which
/// cell comes back is left open.
#[verifier::external_body]
pub(crate) fn choose_cell(cells: &Vec<(usize, usize)>, rng: &mut ThreadRng) -> (picked: Option<
    (usize, usize),
>)
    ensures
        cells@.len() == 0 ==> picked is None,
        cells@.len() > 0 ==> picked is Some && cells@.contains(picked->Some_0),
{
    cells.choose(rng).copied()
}

/// `Rng::gen_ratio`: `true` with a chance of `numerator` in `denominator`.
/// The contract claims what holds of every outcome: `true` where the two
/// are equal, `false` where `numerator` is zero. The call panics where
/// `denominator` is zero or less than `numerator`, which `requires` leaves
/// out.
#[verifier::external_body]
pub(crate) fn toss(rng: &mut ThreadRng, numerator: u32, denominator: u32) -> (heads: bool)
    requires
        0 < denominator,
        numerator <= denominator,
    ensures
        numerator == denominator ==> heads,
        numerator == 0 ==> !heads,
{
    rng.gen_ratio(numerator, denominator)
}

} // verus!
