//! The lines a player is sent outside the judging of a guess.

use crate::game::{MAX_SECRET, MIN_SECRET};
use crate::text::{decimal, decimal_text, signed_decimal, signed_text};
use vstd::prelude::*;

verus! {

/// The line that tells an arriving player their number and how many players
/// are waiting, themselves included.
pub open spec fn lobby_text(player: nat) -> Seq<char> {
    "You are Player "@ + decimal_text(player) + ". You are in the lobby. There are currently "@
        + decimal_text(player + 1) + " players waiting.\n"@
}

/// The line that opens a round for a player: their number and the range the
/// secret lies in.
pub open spec fn welcome_text(player: nat) -> Seq<char> {
    "Welcome to the game! You are Player "@ + decimal_text(player)
        + ". The number is between "@ + signed_text(MIN_SECRET as int) + " and "@ + signed_text(
        MAX_SECRET as int,
    ) + ".\n"@
}

/// The prompt for a guess, with the number of guesses the player has left.
pub open spec fn prompt_text(remaining: nat) -> Seq<char> {
    "It's your turn. Enter your guess: (Remaining attempts: "@ + decimal_text(remaining) + ") "@
}

/// Builds the line for a player who has just been given `player_id` in the
/// lobby.
pub fn lobby_notice(player_id: usize) -> (line: String)
    requires
        player_id < usize::MAX,
    ensures
        line@ == lobby_text(player_id as nat),
{
    let mut line = String::from_str("You are Player ");
    line.append(decimal(player_id).as_str());
    line.append(". You are in the lobby. There are currently ");
    line.append(decimal(player_id + 1).as_str());
    line.append(" players waiting.\n");
    line
}

/// Builds the line that opens a round for `player_id`.
pub fn welcome_message(player_id: usize) -> (line: String)
    ensures
        line@ == welcome_text(player_id as nat),
{
    let mut line = String::from_str("Welcome to the game! You are Player ");
    line.append(decimal(player_id).as_str());
    line.append(". The number is between ");
    line.append(signed_decimal(MIN_SECRET).as_str());
    line.append(" and ");
    line.append(signed_decimal(MAX_SECRET).as_str());
    line.append(".\n");
    line
}

/// Builds the prompt for a player who has `remaining` guesses left.
pub fn turn_prompt(remaining: usize) -> (line: String)
    ensures
        line@ == prompt_text(remaining as nat),
{
    let mut line = String::from_str("It's your turn. Enter your guess: (Remaining attempts: ");
    line.append(decimal(remaining).as_str());
    line.append(") ");
    line
}

} // verus!
