//! The decisions of one player's connection loop. The loop itself performs
//! what is decided here: it sends lines, pauses, and reads the next guess.

use crate::game::{
    winner_text, GameState, Outcome, RoundModel, GAME_OVER_MAX_ATTEMPTS, MAX_NUMBER_ATTEMPTS,
    MIN_SECRET, WAITING_MESSAGE,
};
use crate::notice::{prompt_text, turn_prompt};
use crate::text::NO_GUESS;
use vstd::prelude::*;

verus! {

/// What a player's loop does after it has looked at the round.
#[derive(Clone, Copy, Debug, PartialEq, Eq, Structural)]
pub enum TurnAction {
    /// The round has ended: stop.
    Finished,
    /// Another player is to move: pause, then look again. `notify` says
    /// whether the waiting notice is due.
    Wait { notify: bool },
    /// It is this player's turn and they have no guess left: stop.
    Exhausted,
    /// It is this player's turn: read a guess. `remaining` guesses are left.
    Prompt { remaining: usize },
}

/// A decision of `Handler::begin_turn`, with the line to send before acting on
/// it, if one is due.
pub struct TurnStep {
    pub action: TurnAction,
    pub message: Option<String>,
}

/// A decision of `Handler::take_guess`: how the guess was classified, the line
/// that says so, and, where the round has ended with it, the closing line
/// after which the loop stops.
pub struct GuessStep {
    pub outcome: Outcome,
    pub reply: &'static str,
    pub closing: Option<String>,
}

/// The text of an optional line.
pub open spec fn sent(message: Option<String>) -> Option<Seq<char>> {
    match message {
        Some(line) => Some(line@),
        None => None,
    }
}

/// What `player` does on looking at `round`, having been sent the waiting
/// notice in the current wait or not (`notified`).
pub open spec fn turn_action(round: RoundModel, player: nat, notified: bool) -> TurnAction {
    if !round.active {
        TurnAction::Finished
    } else if round.turn != player {
        TurnAction::Wait { notify: !notified }
    } else if round.attempts[player as int] >= MAX_NUMBER_ATTEMPTS {
        TurnAction::Exhausted
    } else {
        TurnAction::Prompt { remaining: (MAX_NUMBER_ATTEMPTS - round.attempts[player as int]) as usize }
    }
}

/// The line that goes with an action: the closing line, the waiting notice
/// once per wait, the line on the cap, or the prompt.
pub open spec fn turn_message(round: RoundModel, player: nat, action: TurnAction) -> Option<
    Seq<char>,
> {
    match action {
        TurnAction::Finished => Some(winner_text(round.winner, player)),
        TurnAction::Wait { notify } => if notify {
            Some(WAITING_MESSAGE@)
        } else {
            None
        },
        TurnAction::Exhausted => Some(GAME_OVER_MAX_ATTEMPTS@),
        TurnAction::Prompt { remaining } => Some(prompt_text(remaining as nat)),
    }
}

/// The round after `player` has looked at it: a player whose turn comes when
/// they have no guess left ends the round.
pub open spec fn turn_checked(round: RoundModel, player: nat) -> RoundModel {
    if round.active && round.turn == player && round.attempts[player as int]
        >= MAX_NUMBER_ATTEMPTS {
        RoundModel { active: false, ..round }
    } else {
        round
    }
}

/// Whether the waiting notice counts as sent after an action: a wait leaves
/// it sent, a turn of one's own clears it, the end of the round leaves it as
/// it was.
pub open spec fn notified_after(action: TurnAction, notified: bool) -> bool {
    match action {
        TurnAction::Finished => notified,
        TurnAction::Wait { .. } => true,
        _ => false,
    }
}

/// The round after a guess by `player` has been judged and followed up: an
/// ended round is closed for everyone, otherwise the turn passes on.
pub open spec fn settled(round: RoundModel, player: nat, guess: int) -> RoundModel {
    let judged = round.guessed(player, guess);
    if judged.is_over() {
        judged.closed()
    } else {
        judged.advanced()
    }
}

/// The closing line that follows a guess, if the round ended with it.
pub open spec fn closing_text(round: RoundModel, player: nat, guess: int) -> Option<Seq<char>> {
    let judged = round.guessed(player, guess);
    if judged.is_over() {
        Some(winner_text(judged.winner, player))
    } else {
        None
    }
}

/// The part of a player's loop that lasts between its steps.
pub struct Handler {
    pub player_id: usize,
    pub waiting_message_sent: bool,
}

impl Handler {
    /// The handler of `player_id` at the start of a round.
    pub fn new(player_id: usize) -> (handler: Handler)
        ensures
            handler.player_id == player_id,
            !handler.waiting_message_sent,
    {
        Handler { player_id, waiting_message_sent: false }
    }

    /// Looks at the round and decides what this player's loop does next.
    pub fn begin_turn(&mut self, game: &mut GameState) -> (step: TurnStep)
        requires
            old(self).player_id < old(game)@.attempts.len(),
        ensures
            final(self).player_id == old(self).player_id,
            step.action == turn_action(
                old(game)@,
                old(self).player_id as nat,
                old(self).waiting_message_sent,
            ),
            sent(step.message) == turn_message(old(game)@, old(self).player_id as nat, step.action),
            final(game)@ == turn_checked(old(game)@, old(self).player_id as nat),
            final(self).waiting_message_sent == notified_after(
                step.action,
                old(self).waiting_message_sent,
            ),
            old(game)@.is_over() ==> final(game)@.is_over(),
            old(game)@.wf() ==> final(game)@.wf(),
    {
        if !game.active {
            return TurnStep {
                action: TurnAction::Finished,
                message: Some(game.get_winner_message(self.player_id)),
            };
        }
        if game.current_turn != self.player_id {
            let notify = !self.waiting_message_sent;
            self.waiting_message_sent = true;
            let message = if notify {
                Some(String::from_str(WAITING_MESSAGE))
            } else {
                None
            };
            return TurnStep { action: TurnAction::Wait { notify }, message };
        }
        self.waiting_message_sent = false;
        let used: usize = game.attempts[self.player_id];
        if used >= MAX_NUMBER_ATTEMPTS {
            game.active = false;
            return TurnStep {
                action: TurnAction::Exhausted,
                message: Some(String::from_str(GAME_OVER_MAX_ATTEMPTS)),
            };
        }
        let remaining: usize = MAX_NUMBER_ATTEMPTS - used;
        TurnStep { action: TurnAction::Prompt { remaining }, message: Some(turn_prompt(remaining)) }
    }

    /// Judges a guess of this player and follows it up: when the round has
    /// ended with it, the round is closed for everyone and the closing line
    /// is due; otherwise the turn passes to the next player.
    pub fn take_guess(&self, game: &mut GameState, guess: i32) -> (step: GuessStep)
        requires
            self.player_id < old(game)@.attempts.len(),
            old(game)@.attempts[self.player_id as int] < usize::MAX,
            old(game)@.turn < usize::MAX,
        ensures
            step.outcome == old(game)@.outcome(self.player_id as nat, guess as int),
            step.reply@ == step.outcome.text(),
            sent(step.closing) == closing_text(old(game)@, self.player_id as nat, guess as int),
            final(game)@ == settled(old(game)@, self.player_id as nat, guess as int),
            old(game)@.is_over() ==> final(game)@.is_over(),
            old(game)@.wf() && old(game)@.attempts[self.player_id as int] < MAX_NUMBER_ATTEMPTS
                ==> final(game)@.wf(),
    {
        proof {
            if old(game)@.wf() && old(game)@.attempts[self.player_id as int]
                < MAX_NUMBER_ATTEMPTS {
                lemma_settled_round(old(game)@, self.player_id as nat, guess as int);
            }
        }
        let outcome = game.apply_guess(self.player_id, guess);
        let reply = outcome.message();
        if game.is_game_over() {
            game.close();
            GuessStep { outcome, reply, closing: Some(game.get_winner_message(self.player_id)) }
        } else {
            game.advance_turn();
            GuessStep { outcome, reply, closing: None }
        }
    }
}

/// The waiting notice is sent once per wait: a player who looks twice in a
/// row and finds both times that another player is to move is not notified
/// the second time.
pub proof fn lemma_waiting_notice_once(
    first: RoundModel,
    second: RoundModel,
    player: nat,
    notified: bool,
)
    requires
        turn_action(first, player, notified) is Wait,
        turn_action(second, player, notified_after(turn_action(first, player, notified), notified))
            is Wait,
    ensures
        turn_action(second, player, notified_after(turn_action(first, player, notified), notified))
            == (TurnAction::Wait { notify: false }),
{
}

/// A player is asked for a guess only in an active round, when the turn is
/// theirs and they have a guess left; the prompt then tells how many.
pub proof fn lemma_prompt_in_turn(round: RoundModel, player: nat, notified: bool)
    ensures
        turn_action(round, player, notified) is Prompt <==> round.active && round.turn == player
            && round.attempts[player as int] < MAX_NUMBER_ATTEMPTS,
        turn_action(round, player, notified) matches TurnAction::Prompt { remaining }
            ==> remaining + round.attempts[player as int] == MAX_NUMBER_ATTEMPTS,
{
}

/// Following up a guess keeps the round's invariant where the player had a
/// guess left: afterwards the round is either closed for everyone, or
/// active with the turn passed to the next player. No count is lowered.
pub proof fn lemma_settled_round(round: RoundModel, player: nat, guess: int)
    requires
        round.wf(),
        player < round.attempts.len(),
        round.attempts[player as int] < MAX_NUMBER_ATTEMPTS,
    ensures
        settled(round, player, guess).wf(),
        settled(round, player, guess).attempts.len() == round.attempts.len(),
        forall|i: int|
            0 <= i < round.attempts.len() ==> round.attempts[i] <= #[trigger] settled(
                round,
                player,
                guess,
            ).attempts[i],
        settled(round, player, guess).is_over() <==> round.guessed(player, guess).is_over(),
        settled(round, player, guess).is_over() ==> settled(round, player, guess)
            == round.guessed(player, guess).closed(),
        !settled(round, player, guess).is_over() ==> settled(round, player, guess).turn == ((
        round.turn + 1) as nat) % round.attempts.len(),
{
    let judged = round.guessed(player, guess);
    let next = settled(round, player, guess);
    assert(judged.wf());
    if judged.is_over() {
        assert forall|i: int| 0 <= i < round.attempts.len() implies round.attempts[i]
            <= #[trigger] next.attempts[i] by {
            assert(round.attempts[i] <= MAX_NUMBER_ATTEMPTS);
        }
    } else {
        assert(((round.turn + 1) as nat) % round.attempts.len() < round.attempts.len())
            by (nonlinear_arith)
            requires
                round.attempts.len() > 0,
        ;
        assert(!next.all_exhausted()) by {
            if next.all_exhausted() {
                assert forall|i: int| 0 <= i < judged.attempts.len() implies
                    #[trigger] judged.attempts[i] >= MAX_NUMBER_ATTEMPTS by {
                    assert(next.attempts[i] >= MAX_NUMBER_ATTEMPTS);
                }
            }
        }
    }
}

/// A line that is no number never wins: the guess that stands for it lies
/// below every secret a round may have.
pub proof fn lemma_no_guess_misses(round: RoundModel, player: nat)
    requires
        MIN_SECRET <= round.secret,
    ensures
        round.outcome(player, NO_GUESS as int) != Outcome::Correct,
{
}

} // verus!
