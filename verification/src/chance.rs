//! The throw of a Pokeball: a random roll against the target's base
//! experience.

use rand::rngs::ThreadRng;
use rand::seq::IteratorRandom;
use vstd::prelude::*;

verus! {

/// The number of sides of the die: a roll is one of `0 .. CATCH_ROLLS`.
pub const CATCH_ROLLS: u32 = 350;

/// `rand::rngs::ThreadRng`, the handle to the calling thread's random number
/// generator. Nothing is known of its state.
#[verifier::external_type_specification]
#[verifier::external_body]
pub struct ExThreadRng(ThreadRng);

/// `rand::rng` hands out the generator of the calling thread.
pub assume_specification[ rand::rng ]() -> (rng: ThreadRng);

/// `IteratorRandom::choose` on the range `0 .. bound`: one element of the
/// range, and none only where the range is empty. Which element is chance.
#[verifier::external_body]
fn choose_below(bound: u32, rng: &mut ThreadRng) -> (pick: Option<u32>)
    ensures
        bound > 0 ==> pick is Some,
        pick matches Some(n) ==> n < bound,
{
    (0..bound).choose(rng)
}

/// A throw succeeds when the roll is above the target's base experience.
pub open spec fn beats(roll: u32, base_experience: u32) -> bool {
    roll > base_experience
}

/// Whether a throw with this roll catches a target of this base experience.
pub fn is_caught(roll: u32, base_experience: u32) -> (caught: bool)
    ensures
        caught == beats(roll, base_experience),
{
    roll > base_experience
}

/// Rolls the die.
pub fn roll() -> (roll: u32)
    ensures
        roll < CATCH_ROLLS,
{
    let mut rng = rand::rng();
    match choose_below(CATCH_ROLLS, &mut rng) {
        Some(n) => n,
        None => 0,
    }
}

} // verus!
