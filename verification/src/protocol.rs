//! A round as the players' loops drive it, and what holds at every moment of
//! it. Each loop looks at the round (`Handler::begin_turn`) and, when it was
//! asked for a guess, hands one in (`Handler::take_guess`); the loops take
//! turns at the shared round in any order.

use crate::game::{Outcome, RoundModel, MAX_NUMBER_ATTEMPTS};
use crate::handler::{settled, turn_action, turn_checked, TurnAction};
use vstd::prelude::*;

verus! {

/// One step of one player's loop.
pub enum Event {
    /// The player looks at the round to see what to do.
    Look { player: nat },
    /// The player hands in the guess they were asked for.
    Guess { player: nat, guess: int },
}

/// A round together with what its players' loops are at.
pub struct Table {
    /// The shared round.
    pub round: RoundModel,
    /// For each player, whether they were asked for a guess that is still due.
    pub prompted: Seq<bool>,
    /// How many guesses have been taken.
    pub guesses: nat,
    /// How many of them were judged correct.
    pub corrects: nat,
}

impl Table {
    /// A round at its start: nobody has looked yet.
    pub open spec fn start(players: nat, secret: int) -> Table {
        Table {
            round: RoundModel::fresh(players, secret),
            prompted: Seq::new(players, |i: int| false),
            guesses: 0,
            corrects: 0,
        }
    }

    /// Whether a step can happen: a player looks while no guess of theirs is
    /// due, and hands in a guess when one is.
    pub open spec fn accepts(self, event: Event) -> bool {
        match event {
            Event::Look { player } => player < self.prompted.len() && !self.prompted[player as int],
            Event::Guess { player, .. } => player < self.prompted.len()
                && self.prompted[player as int],
        }
    }

    /// The table after a step. A step that cannot happen changes nothing.
    pub open spec fn after(self, event: Event) -> Table {
        if !self.accepts(event) {
            self
        } else {
            match event {
                Event::Look { player } => Table {
                    round: turn_checked(self.round, player),
                    prompted: self.prompted.update(
                        player as int,
                        turn_action(self.round, player, false) is Prompt,
                    ),
                    ..self
                },
                Event::Guess { player, guess } => Table {
                    round: settled(self.round, player, guess),
                    prompted: self.prompted.update(player as int, false),
                    guesses: self.guesses + 1,
                    corrects: if self.round.outcome(player, guess) == Outcome::Correct {
                        self.corrects + 1
                    } else {
                        self.corrects
                    },
                },
            }
        }
    }

    /// The table after a run of steps.
    pub open spec fn after_all(self, events: Seq<Event>) -> Table
        decreases events.len(),
    {
        if events.len() == 0 {
            self
        } else {
            self.after_all(events.drop_last()).after(events.last())
        }
    }

    /// While the round is active its players have guessed in turn: those
    /// before the one to move are one guess ahead of the others, and the one
    /// to move has a guess left.
    pub open spec fn in_step(self) -> bool {
        let round = self.round;
        let base = round.attempts[round.turn as int];
        &&& base < MAX_NUMBER_ATTEMPTS
        &&& self.guesses == round.attempts.len() * base + round.turn
        &&& forall|i: int|
            0 <= i < round.attempts.len() ==> #[trigger] round.attempts[i] == base + if i
                < round.turn {
                1nat
            } else {
                0nat
            }
    }

    /// What holds of a table at every moment of a round.
    pub open spec fn inv(self) -> bool {
        &&& self.round.wf()
        &&& self.prompted.len() == self.round.attempts.len()
        &&& forall|p: int|
            0 <= p < self.prompted.len() && #[trigger] self.prompted[p] ==> self.round.active
                && self.round.turn == p
        &&& self.round.active ==> self.in_step()
        &&& self.corrects <= 1
        &&& self.round.winner is Some <==> self.corrects == 1
    }
}

/// A round holds its invariant when it starts.
pub proof fn lemma_start_holds(players: nat, secret: int)
    requires
        players >= 1,
    ensures
        Table::start(players, secret).inv(),
{
    let table = Table::start(players, secret);
    assert(table.guesses == table.round.attempts.len() * 0 + 0) by (nonlinear_arith)
        requires
            table.guesses == 0,
    ;
}

/// No step breaks the invariant.
pub proof fn lemma_step_holds(table: Table, event: Event)
    requires
        table.inv(),
    ensures
        table.after(event).inv(),
{
    let next = table.after(event);
    let round = table.round;
    let players = round.attempts.len();
    if table.accepts(event) {
        match event {
            Event::Look { player } => {
                assert(next.round == round);
            },
            Event::Guess { player, guess } => {
                assert(round.active && round.turn == player);
                let base = round.attempts[player as int];
                let judged = round.guessed(player, guess);
                assert(judged.attempts[player as int] == base + 1);
                assert forall|i: int| 0 <= i < players implies #[trigger] judged.attempts[i]
                    == base + if i <= player {
                    1nat
                } else {
                    0nat
                } by {
                    assert(round.attempts[i] == base + if i < round.turn {
                        1nat
                    } else {
                        0nat
                    });
                }
                if judged.is_over() {
                    assert(!next.round.active);
                    assert(next.round.wf());
                } else {
                    assert(judged.active);
                    assert(judged.winner is None);
                    assert(round.outcome(player, guess) != Outcome::Correct);
                    if player + 1 < players {
                        assert(next.round.turn == player + 1) by (nonlinear_arith)
                            requires
                                next.round.turn == ((player + 1) as nat) % players,
                                player + 1 < players,
                        ;
                        assert(judged.attempts[player as int + 1] == base);
                        assert(next.in_step());
                    } else {
                        assert(next.round.turn == 0) by (nonlinear_arith)
                            requires
                                next.round.turn == ((player + 1) as nat) % players,
                                player + 1 == players,
                        ;
                        assert(base + 1 < MAX_NUMBER_ATTEMPTS) by {
                            if base + 1 >= MAX_NUMBER_ATTEMPTS {
                                assert(judged.all_exhausted());
                            }
                        }
                        assert(players * (base + 1) + 0 == players * base + player + 1)
                            by (nonlinear_arith)
                            requires
                                player + 1 == players,
                        ;
                        assert(next.in_step());
                    }
                    assert(next.round.wf());
                }
            },
        }
    }
}

/// The invariant holds after every run of steps from the start of a round.
pub proof fn lemma_always_holds(players: nat, secret: int, events: Seq<Event>)
    requires
        players >= 1,
    ensures
        Table::start(players, secret).after_all(events).inv(),
    decreases events.len(),
{
    if events.len() == 0 {
        lemma_start_holds(players, secret);
    } else {
        lemma_always_holds(players, secret, events.drop_last());
        lemma_step_holds(Table::start(players, secret).after_all(events.drop_last()), events.last());
    }
}

/// At every moment of a round at most one guess has been judged correct, and
/// the round has a winner exactly when one has; a round with a winner has
/// ended.
pub proof fn lemma_one_correct_guess(players: nat, secret: int, events: Seq<Event>)
    requires
        players >= 1,
    ensures
        ({
            let table = Table::start(players, secret).after_all(events);
            &&& table.corrects <= 1
            &&& table.round.winner is Some <==> table.corrects == 1
            &&& table.round.winner is Some ==> !table.round.active
        }),
{
    lemma_always_holds(players, secret, events);
}

/// Once a round has a winner, no step changes the winner, and no further
/// guess is judged correct.
pub proof fn lemma_winner_is_final(players: nat, secret: int, events: Seq<Event>, event: Event)
    requires
        players >= 1,
    ensures
        ({
            let table = Table::start(players, secret).after_all(events);
            table.round.winner is Some ==> table.after(event).round.winner == table.round.winner
                && table.after(event).corrects == table.corrects
        }),
{
    lemma_always_holds(players, secret, events);
}

/// No step lowers a player's count of guesses, and no count is ever above
/// the cap.
pub proof fn lemma_attempts_grow_to_cap(
    players: nat,
    secret: int,
    events: Seq<Event>,
    event: Event,
)
    requires
        players >= 1,
    ensures
        ({
            let table = Table::start(players, secret).after_all(events);
            let next = table.after(event);
            &&& table.round.attempts.len() == players
            &&& next.round.attempts.len() == players
            &&& forall|i: int|
                0 <= i < players ==> table.round.attempts[i] <= #[trigger] next.round.attempts[i]
                    <= MAX_NUMBER_ATTEMPTS
        }),
{
    let table = Table::start(players, secret).after_all(events);
    let next = table.after(event);
    lemma_always_holds(players, secret, events);
    lemma_step_holds(table, event);
    lemma_players_stay(players, secret, events);
    lemma_players_stay(players, secret, events.push(event));
    assert(events.push(event).drop_last() =~= events);
    assert forall|i: int| 0 <= i < players implies table.round.attempts[i]
        <= #[trigger] next.round.attempts[i] <= MAX_NUMBER_ATTEMPTS by {
        assert(table.round.attempts[i] <= MAX_NUMBER_ATTEMPTS);
    }
}

/// A round keeps the number of players it started with.
pub proof fn lemma_players_stay(players: nat, secret: int, events: Seq<Event>)
    ensures
        Table::start(players, secret).after_all(events).round.attempts.len() == players,
        Table::start(players, secret).after_all(events).prompted.len() == players,
    decreases events.len(),
{
    if events.len() > 0 {
        lemma_players_stay(players, secret, events.drop_last());
    }
}

/// A round that is over stays over whatever step follows.
pub proof fn lemma_over_stays_over(players: nat, secret: int, events: Seq<Event>, event: Event)
    requires
        players >= 1,
    ensures
        ({
            let table = Table::start(players, secret).after_all(events);
            table.round.is_over() ==> table.after(event).round.is_over()
        }),
{
    lemma_always_holds(players, secret, events);
}

/// Guesses are taken in strict rotation: the player whose guess is taken is
/// the one to move, their number is the count of guesses taken so far modulo
/// the number of players, and unless the round ends with the guess, the turn
/// passes to the next player, the first one following the last.
pub proof fn lemma_round_robin(
    players: nat,
    secret: int,
    events: Seq<Event>,
    player: nat,
    guess: int,
)
    requires
        players >= 1,
    ensures
        ({
            let table = Table::start(players, secret).after_all(events);
            let next = table.after(Event::Guess { player, guess });
            table.accepts(Event::Guess { player, guess }) ==> {
                &&& table.round.active
                &&& table.round.turn == player
                &&& player == table.guesses % players
                &&& next.round.active ==> next.round.turn == ((player + 1) as nat) % players
            }
        }),
{
    let table = Table::start(players, secret).after_all(events);
    lemma_always_holds(players, secret, events);
    lemma_players_stay(players, secret, events);
    if table.accepts(Event::Guess { player, guess }) {
        let base = table.round.attempts[player as int];
        assert(table.guesses == players * base + player);
        vstd::arithmetic::div_mod::lemma_fundamental_div_mod_converse(
            table.guesses as int,
            players as int,
            base as int,
            player as int,
        );
    }
}

/// In a round that its players' loops drive from the start, nobody's turn
/// comes when they have no guess left: looking at the round never finds a
/// player out of guesses, and never changes the round.
pub proof fn lemma_turn_comes_with_a_guess_left(
    players: nat,
    secret: int,
    events: Seq<Event>,
    player: nat,
    notified: bool,
)
    requires
        players >= 1,
        player < players,
    ensures
        ({
            let table = Table::start(players, secret).after_all(events);
            &&& !(turn_action(table.round, player, notified) is Exhausted)
            &&& turn_checked(table.round, player) == table.round
        }),
{
    lemma_always_holds(players, secret, events);
}

/// At most one player is asked for a guess at a time, and only while the
/// round is active and the turn is theirs.
pub proof fn lemma_one_guess_due(players: nat, secret: int, events: Seq<Event>, p: nat, q: nat)
    requires
        players >= 1,
        p < players,
        q < players,
    ensures
        ({
            let table = Table::start(players, secret).after_all(events);
            &&& table.prompted.len() == players
            &&& table.prompted[p as int] ==> table.round.active && table.round.turn == p
            &&& table.prompted[p as int] && table.prompted[q as int] ==> p == q
        }),
{
    lemma_always_holds(players, secret, events);
    lemma_players_stay(players, secret, events);
}

} // verus!
