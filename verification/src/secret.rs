//! Starting a round: the secret is drawn at random from the configured range.

use crate::game::{GameState, RoundModel, MAX_SECRET, MIN_SECRET};
use rand::Rng;
use vstd::prelude::*;

verus! {

/// Draws a number from `min..=max` with `rand::thread_rng().gen_range(..)`.
/// Believed of it, not proved: the number lies in the closed range. Nothing is
/// claimed of which number comes, so two draws may differ. `gen_range` panics
/// on an empty range, which `requires` leaves out; `thread_rng` gives up only
/// where the system has no source of randomness to seed it from.
#[verifier::external_body]
fn generate(min: i32, max: i32) -> (secret: i32)
    requires
        min <= max,
    ensures
        min <= secret <= max,
{
    rand::thread_rng().gen_range(min..=max)
}

/// Starts a round for `num_players` players with a freshly drawn secret.
pub fn start_round(num_players: usize) -> (state: GameState)
    requires
        num_players >= 1,
    ensures
        MIN_SECRET <= state@.secret <= MAX_SECRET,
        state@ == RoundModel::fresh(num_players as nat, state@.secret),
{
    let secret: i32 = generate(MIN_SECRET, MAX_SECRET);
    GameState::new(num_players, secret)
}

} // verus!
