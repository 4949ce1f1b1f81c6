//! The state of one round and the rules by which guesses change it.

pub use crate::lobby::Lobby;
use crate::text::{decimal, decimal_text};
use vstd::prelude::*;

verus! {

/// Number of players a lobby collects before a round starts.
pub const MAX_PLAYER_LOBBY: usize = 2;

/// Smallest secret a round may have.
pub const MIN_SECRET: i32 = 0;

/// Largest secret a round may have.
pub const MAX_SECRET: i32 = 100;

/// Number of guesses each player has in a round.
pub const MAX_NUMBER_ATTEMPTS: usize = 5;

/// Sent once to a player who has to wait for another player's guess.
pub const WAITING_MESSAGE: &'static str = "Waiting for another player to make a guess...\n";

/// The closing line for the winner.
pub const GAME_OVER_WON: &'static str = "Game Over: You won the game!\n";

/// The closing line of a round without a winner.
pub const GAME_OVER_END: &'static str = "Game Over: The game has ended.\n";

/// The reply to a guess that uses up the player's last attempt, and the line
/// for a player whose turn comes when they have none left.
pub const GAME_OVER_MAX_ATTEMPTS: &'static str =
    "Game Over: You've reached the maximum number of attempts.\n";

/// The reply to a guess that equals the secret.
pub const CORRECT_GUESS: &'static str = "Correct! You guessed the number!\n";

/// The reply to a guess below the secret.
pub const TOO_LOW: &'static str = "Too low!\n";

/// The reply to a guess above the secret.
pub const TOO_HIGH: &'static str = "Too high!\n";

/// How a single guess was classified.
#[derive(Clone, Copy, Debug, PartialEq, Eq, Structural)]
pub enum Outcome {
    TooLow,
    TooHigh,
    Correct,
    MaxAttemptsReached,
}

impl Outcome {
    /// The line a player is sent for this outcome.
    pub open spec fn text(self) -> Seq<char> {
        match self {
            Outcome::TooLow => TOO_LOW@,
            Outcome::TooHigh => TOO_HIGH@,
            Outcome::Correct => CORRECT_GUESS@,
            Outcome::MaxAttemptsReached => GAME_OVER_MAX_ATTEMPTS@,
        }
    }

    /// The line a player is sent for this outcome.
    pub fn message(self) -> (text: &'static str)
        ensures
            text@ == self.text(),
    {
        match self {
            Outcome::TooLow => TOO_LOW,
            Outcome::TooHigh => TOO_HIGH,
            Outcome::Correct => CORRECT_GUESS,
            Outcome::MaxAttemptsReached => GAME_OVER_MAX_ATTEMPTS,
        }
    }
}

/// The closing line for `player` in a round whose winner is `winner`.
pub open spec fn winner_text(winner: Option<nat>, player: nat) -> Seq<char> {
    match winner {
        Some(w) => if w == player {
            GAME_OVER_WON@
        } else {
            "Game Over: Player "@ + decimal_text(w) + " won the game!\n"@
        },
        None => GAME_OVER_END@,
    }
}

/// The mathematical content of a round: what `GameState` stands for.
pub struct RoundModel {
    pub secret: int,
    pub turn: nat,
    pub attempts: Seq<nat>,
    pub active: bool,
    pub winner: Option<nat>,
}

impl RoundModel {
    /// The round as it starts: nobody has guessed, player 0 is to move.
    pub open spec fn fresh(players: nat, secret: int) -> RoundModel {
        RoundModel {
            secret,
            turn: 0,
            attempts: Seq::new(players, |i: int| 0nat),
            active: true,
            winner: None,
        }
    }

    /// The invariant of a round: somebody plays, the turn names a player, no
    /// counter is above the cap, and a round with a winner has ended.
    pub open spec fn wf(self) -> bool {
        &&& self.attempts.len() >= 1
        &&& self.turn < self.attempts.len()
        &&& forall|i: int|
            0 <= i < self.attempts.len() ==> #[trigger] self.attempts[i] <= MAX_NUMBER_ATTEMPTS
        &&& self.winner matches Some(w) ==> !self.active && w < self.attempts.len()
    }

    /// Every player has used up their guesses.
    pub open spec fn all_exhausted(self) -> bool {
        forall|i: int|
            0 <= i < self.attempts.len() ==> #[trigger] self.attempts[i] >= MAX_NUMBER_ATTEMPTS
    }

    /// The round takes no more guesses.
    pub open spec fn is_over(self) -> bool {
        !self.active || self.all_exhausted()
    }

    /// How a guess by `player` is classified. The guess is counted first, and
    /// the one that reaches the cap is not compared with the secret.
    pub open spec fn outcome(self, player: nat, guess: int) -> Outcome {
        if self.attempts[player as int] + 1 >= MAX_NUMBER_ATTEMPTS {
            Outcome::MaxAttemptsReached
        } else if guess == self.secret {
            Outcome::Correct
        } else if guess < self.secret {
            Outcome::TooLow
        } else {
            Outcome::TooHigh
        }
    }

    /// The round with one more guess counted for `player`.
    pub open spec fn counted(self, player: nat) -> RoundModel {
        RoundModel {
            attempts: self.attempts.update(player as int, self.attempts[player as int] + 1),
            ..self
        }
    }

    /// The round after a guess by `player`.
    pub open spec fn guessed(self, player: nat, guess: int) -> RoundModel {
        let counted = self.counted(player);
        match self.outcome(player, guess) {
            Outcome::MaxAttemptsReached => RoundModel {
                active: self.active && !counted.all_exhausted(),
                ..counted
            },
            Outcome::Correct => RoundModel { active: false, winner: Some(player), ..counted },
            _ => counted,
        }
    }

    /// The round closed for everyone: inactive, every counter at the cap.
    pub open spec fn closed(self) -> RoundModel {
        RoundModel {
            attempts: Seq::new(self.attempts.len(), |i: int| MAX_NUMBER_ATTEMPTS as nat),
            active: false,
            ..self
        }
    }

    /// The round with the turn handed to the next player, the first one
    /// following the last.
    pub open spec fn advanced(self) -> RoundModel {
        RoundModel { turn: ((self.turn + 1) as nat) % self.attempts.len(), ..self }
    }
}

/// The shared state of one round.
pub struct GameState {
    pub secret_number: i32,
    pub current_turn: usize,
    pub attempts: Vec<usize>,
    pub active: bool,
    pub winner: Option<usize>,
}

impl View for GameState {
    type V = RoundModel;

    open spec fn view(&self) -> RoundModel {
        RoundModel {
            secret: self.secret_number as int,
            turn: self.current_turn as nat,
            attempts: self.attempts@.map_values(|a: usize| a as nat),
            active: self.active,
            winner: match self.winner {
                Some(w) => Some(w as nat),
                None => None,
            },
        }
    }
}

impl GameState {
    /// Starts a round for `num_players` players with the given secret.
    pub fn new(num_players: usize, secret_number: i32) -> (state: GameState)
        requires
            num_players >= 1,
        ensures
            state@ == RoundModel::fresh(num_players as nat, secret_number as int),
            state@.wf(),
    {
        proof {
            lemma_fresh_round(num_players as nat, secret_number as int);
        }
        let state = GameState {
            secret_number,
            current_turn: 0,
            attempts: vec![0; num_players],
            active: true,
            winner: None,
        };
        assert(state@.attempts =~= Seq::new(num_players as nat, |i: int| 0nat));
        state
    }

    /// Whether every player has used up their guesses.
    pub fn all_exhausted(&self) -> (exhausted: bool)
        ensures
            exhausted == self@.all_exhausted(),
    {
        let mut i: usize = 0;
        while i < self.attempts.len()
            invariant
                i <= self.attempts.len(),
                forall|j: int| 0 <= j < i ==> self.attempts[j] >= MAX_NUMBER_ATTEMPTS,
            decreases self.attempts.len() - i,
        {
            if self.attempts[i] < MAX_NUMBER_ATTEMPTS {
                assert(self@.attempts[i as int] < MAX_NUMBER_ATTEMPTS);
                return false;
            }
            i += 1;
        }
        assert forall|j: int| 0 <= j < self@.attempts.len() implies #[trigger] self@.attempts[j]
            >= MAX_NUMBER_ATTEMPTS by {
            assert(self.attempts[j] >= MAX_NUMBER_ATTEMPTS);
        }
        true
    }

    /// Counts a guess for `player_id` and classifies it.
    pub fn apply_guess(&mut self, player_id: usize, guess: i32) -> (outcome: Outcome)
        requires
            player_id < old(self)@.attempts.len(),
            old(self)@.attempts[player_id as int] < usize::MAX,
        ensures
            outcome == old(self)@.outcome(player_id as nat, guess as int),
            final(self)@ == old(self)@.guessed(player_id as nat, guess as int),
            old(self)@.is_over() ==> final(self)@.is_over(),
            final(self)@.attempts.len() == old(self)@.attempts.len(),
            forall|i: int|
                0 <= i < old(self)@.attempts.len() ==> old(self)@.attempts[i]
                    <= #[trigger] final(self)@.attempts[i],
            old(self)@.wf() && old(self)@.attempts[player_id as int] < MAX_NUMBER_ATTEMPTS
                ==> final(self)@.wf(),
    {
        proof {
            lemma_guess_counts_up(old(self)@, player_id as nat, guess as int);
            if old(self)@.is_over() {
                lemma_guess_keeps_over(old(self)@, player_id as nat, guess as int);
            }
        }
        let count: usize = self.attempts[player_id] + 1;
        self.attempts.set(player_id, count);
        assert(self@.attempts =~= old(self)@.counted(player_id as nat).attempts);
        assert(self@ == old(self)@.counted(player_id as nat));
        if count >= MAX_NUMBER_ATTEMPTS {
            if self.all_exhausted() {
                self.active = false;
            }
            return Outcome::MaxAttemptsReached;
        }
        if guess == self.secret_number {
            self.active = false;
            self.winner = Some(player_id);
            Outcome::Correct
        } else if guess < self.secret_number {
            Outcome::TooLow
        } else {
            Outcome::TooHigh
        }
    }

    /// Counts a guess for `player_id` and returns the line that tells the
    /// player how it was classified.
    pub fn make_guess(&mut self, player_id: usize, guess: i32) -> (reply: &'static str)
        requires
            player_id < old(self)@.attempts.len(),
            old(self)@.attempts[player_id as int] < usize::MAX,
        ensures
            reply@ == old(self)@.outcome(player_id as nat, guess as int).text(),
            final(self)@ == old(self)@.guessed(player_id as nat, guess as int),
            old(self)@.is_over() ==> final(self)@.is_over(),
            final(self)@.attempts.len() == old(self)@.attempts.len(),
            forall|i: int|
                0 <= i < old(self)@.attempts.len() ==> old(self)@.attempts[i]
                    <= #[trigger] final(self)@.attempts[i],
            old(self)@.wf() && old(self)@.attempts[player_id as int] < MAX_NUMBER_ATTEMPTS
                ==> final(self)@.wf(),
    {
        self.apply_guess(player_id, guess).message()
    }

    /// Whether the round takes no more guesses.
    pub fn is_game_over(&self) -> (over: bool)
        ensures
            over == self@.is_over(),
    {
        !self.active || self.all_exhausted()
    }

    /// The closing line for `player_id`: that they won, who else won, or that
    /// the round ended without a winner.
    pub fn get_winner_message(&self, player_id: usize) -> (message: String)
        ensures
            message@ == winner_text(self@.winner, player_id as nat),
    {
        match self.winner {
            Some(winner) => {
                if winner == player_id {
                    String::from_str(GAME_OVER_WON)
                } else {
                    let mut message = String::from_str("Game Over: Player ");
                    let number = decimal(winner);
                    message.append(number.as_str());
                    message.append(" won the game!\n");
                    message
                }
            },
            None => String::from_str(GAME_OVER_END),
        }
    }

    /// Closes the round for everyone: it becomes inactive and every counter
    /// is set to the cap.
    pub fn close(&mut self)
        ensures
            final(self)@ == old(self)@.closed(),
    {
        self.active = false;
        let mut i: usize = 0;
        while i < self.attempts.len()
            invariant
                i <= self.attempts.len(),
                self.attempts.len() == old(self).attempts.len(),
                self.secret_number == old(self).secret_number,
                self.current_turn == old(self).current_turn,
                self.winner == old(self).winner,
                !self.active,
                forall|j: int| 0 <= j < i ==> self.attempts[j] == MAX_NUMBER_ATTEMPTS,
            decreases self.attempts.len() - i,
        {
            self.attempts.set(i, MAX_NUMBER_ATTEMPTS);
            i += 1;
        }
        assert(self@.attempts =~= old(self)@.closed().attempts);
    }

    /// Hands the turn to the next player, the first one following the last.
    pub fn advance_turn(&mut self)
        requires
            old(self)@.attempts.len() >= 1,
            old(self)@.turn < usize::MAX,
        ensures
            final(self)@ == old(self)@.advanced(),
    {
        self.current_turn = (self.current_turn + 1) % self.attempts.len();
    }
}

/// A round holds its invariant when it starts, and is not over.
pub proof fn lemma_fresh_round(players: nat, secret: int)
    requires
        players >= 1,
    ensures
        RoundModel::fresh(players, secret).wf(),
        !RoundModel::fresh(players, secret).is_over(),
{
    let round = RoundModel::fresh(players, secret);
    assert(round.attempts[0] < MAX_NUMBER_ATTEMPTS);
}

/// A guess lowers nobody's count, and raises only the count of the player
/// who made it, by one. Where the round held its invariant and that player
/// had a guess left, it holds its invariant afterwards: no count is above
/// the cap.
pub proof fn lemma_guess_counts_up(round: RoundModel, player: nat, guess: int)
    requires
        player < round.attempts.len(),
    ensures
        round.guessed(player, guess).attempts.len() == round.attempts.len(),
        round.guessed(player, guess).attempts[player as int] == round.attempts[player as int] + 1,
        forall|i: int|
            0 <= i < round.attempts.len() && i != player ==> #[trigger] round.guessed(
                player,
                guess,
            ).attempts[i] == round.attempts[i],
        round.wf() && round.attempts[player as int] < MAX_NUMBER_ATTEMPTS ==> round.guessed(
            player,
            guess,
        ).wf(),
{
}

/// A round that is over is still over after a guess: an inactive round stays
/// inactive, and players out of guesses stay so.
pub proof fn lemma_guess_keeps_over(round: RoundModel, player: nat, guess: int)
    requires
        player < round.attempts.len(),
        round.is_over(),
    ensures
        round.guessed(player, guess).is_over(),
        !round.active ==> !round.guessed(player, guess).active,
{
    let judged = round.guessed(player, guess);
    if round.active {
        assert forall|i: int| 0 <= i < judged.attempts.len() implies #[trigger] judged.attempts[i]
            >= MAX_NUMBER_ATTEMPTS by {
            assert(round.attempts[i] >= MAX_NUMBER_ATTEMPTS);
        }
    }
}

/// A guess in an active round gives the round a winner exactly when it is
/// judged correct; the winner is then the player who made it, and the round
/// has ended.
pub proof fn lemma_guess_sets_winner(round: RoundModel, player: nat, guess: int)
    requires
        round.wf(),
        round.active,
        player < round.attempts.len(),
    ensures
        round.guessed(player, guess).winner is Some <==> round.outcome(player, guess)
            == Outcome::Correct,
        round.outcome(player, guess) == Outcome::Correct ==> round.guessed(player, guess).winner
            == Some(player) && !round.guessed(player, guess).active,
{
}

/// A guess is judged correct only when it equals the secret and the player
/// has more than one guess left.
pub proof fn lemma_correct_means_secret(round: RoundModel, player: nat, guess: int)
    ensures
        round.outcome(player, guess) == Outcome::Correct <==> guess == round.secret
            && round.attempts[player as int] + 1 < MAX_NUMBER_ATTEMPTS,
{
}

/// The closing line depends on nothing but the winner and the player it is
/// for: asked again of a round with the same winner, it is the same line.
pub proof fn lemma_winner_message_repeats(first: RoundModel, second: RoundModel, player: nat)
    requires
        first.winner == second.winner,
    ensures
        winner_text(first.winner, player) == winner_text(second.winner, player),
{
}

/// The four outcomes have four different lines, so the line tells the
/// outcome.
pub proof fn lemma_outcome_texts_differ(a: Outcome, b: Outcome)
    requires
        a != b,
    ensures
        a.text() != b.text(),
{
    reveal_strlit("Too low!\n");
    reveal_strlit("Too high!\n");
    reveal_strlit("Correct! You guessed the number!\n");
    reveal_strlit("Game Over: You've reached the maximum number of attempts.\n");
    assert(TOO_LOW@.len() == 9);
    assert(TOO_HIGH@.len() == 10);
    assert(CORRECT_GUESS@.len() == 33);
    assert(GAME_OVER_MAX_ATTEMPTS@.len() == 58);
}

} // verus!
