//! The lobby: arriving connections wait here until enough have come to start
//! a round.

use crate::game::MAX_PLAYER_LOBBY;
use vstd::prelude::*;

verus! {

/// The batch that a lobby hands over: all who wait, once they are as many as
/// a round needs.
pub open spec fn handed_over<C>(waiting: Seq<C>) -> Option<Seq<C>> {
    if waiting.len() == MAX_PLAYER_LOBBY {
        Some(waiting)
    } else {
        None
    }
}

/// Those who wait on after a handover: nobody, where a batch was handed over.
pub open spec fn left_waiting<C>(waiting: Seq<C>) -> Seq<C> {
    if waiting.len() == MAX_PLAYER_LOBBY {
        Seq::empty()
    } else {
        waiting
    }
}

/// The connections of an optional batch.
pub open spec fn batch_view<C>(batch: Option<Vec<C>>) -> Option<Seq<C>> {
    match batch {
        Some(connections) => Some(connections@),
        None => None,
    }
}

/// The connections that wait for a round, in the order in which they came.
/// `C` is whatever stands for a connection.
pub struct Lobby<C> {
    pub players: Vec<C>,
}

impl<C> Lobby<C> {
    /// An empty lobby.
    pub fn new() -> (lobby: Lobby<C>)
        ensures
            lobby.players@ == Seq::<C>::empty(),
    {
        Lobby { players: Vec::new() }
    }

    /// Seats a connection behind those already waiting and returns its player
    /// number, which is the number of connections that waited before it.
    pub fn enqueue(&mut self, connection: C) -> (player_id: usize)
        ensures
            player_id == old(self).players@.len(),
            final(self).players@ == old(self).players@.push(connection),
    {
        let player_id: usize = self.players.len();
        self.players.push(connection);
        player_id
    }

    /// Hands over the waiting connections, in the order in which they came,
    /// if they are as many as a round needs, and leaves the lobby empty;
    /// otherwise hands over nothing and leaves the lobby as it is.
    pub fn drain_if_full(&mut self) -> (batch: Option<Vec<C>>)
        ensures
            batch_view(batch) == handed_over(old(self).players@),
            final(self).players@ == left_waiting(old(self).players@),
    {
        if self.players.len() == MAX_PLAYER_LOBBY {
            let mut batch: Vec<C> = Vec::new();
            core::mem::swap(&mut self.players, &mut batch);
            Some(batch)
        } else {
            None
        }
    }
}

/// What a run of arrivals comes to when each is seated and the lobby is
/// emptied as soon as it is full: the batches handed over, first to last, and
/// the connections that still wait.
pub open spec fn admitted<C>(arrivals: Seq<C>) -> (Seq<Seq<C>>, Seq<C>)
    decreases arrivals.len(),
{
    if arrivals.len() == 0 {
        (Seq::empty(), Seq::empty())
    } else {
        let (batches, waiting) = admitted(arrivals.drop_last());
        let seated = waiting.push(arrivals.last());
        match handed_over(seated) {
            Some(batch) => (batches.push(batch), left_waiting(seated)),
            None => (batches, left_waiting(seated)),
        }
    }
}

/// A lobby with room is not over-full after the next arrival, and is emptied
/// exactly when that arrival fills it; so it has room again once the batch,
/// if any, is handed over.
pub proof fn lemma_lobby_keeps_room<C>(waiting: Seq<C>, connection: C)
    requires
        waiting.len() < MAX_PLAYER_LOBBY,
    ensures
        waiting.push(connection).len() <= MAX_PLAYER_LOBBY,
        left_waiting(waiting.push(connection)).len() < MAX_PLAYER_LOBBY,
        handed_over(waiting.push(connection)) is Some <==> waiting.len() + 1 == MAX_PLAYER_LOBBY,
        handed_over(waiting.push(connection)) is Some ==> left_waiting(waiting.push(connection))
            == Seq::<C>::empty(),
{
}

/// Every arrival is handed over in exactly one batch or still waits: the
/// batches, one after the other, and then those who wait are the arrivals in
/// the order in which they came. Every batch is as large as a round needs,
/// and fewer than that wait.
pub proof fn lemma_every_arrival_in_one_batch<C>(arrivals: Seq<C>)
    ensures
        ({
            let (batches, waiting) = admitted(arrivals);
            &&& waiting.len() < MAX_PLAYER_LOBBY
            &&& forall|b: int|
                0 <= b < batches.len() ==> (#[trigger] batches[b]).len() == MAX_PLAYER_LOBBY
            &&& batches.flatten() + waiting == arrivals
        }),
    decreases arrivals.len(),
{
    if arrivals.len() == 0 {
        assert(Seq::<Seq<C>>::empty().flatten() + Seq::<C>::empty() =~= arrivals);
    } else {
        lemma_every_arrival_in_one_batch(arrivals.drop_last());
        let (batches, waiting) = admitted(arrivals.drop_last());
        let seated = waiting.push(arrivals.last());
        assert(batches.flatten() + waiting == arrivals.drop_last());
        assert(arrivals =~= arrivals.drop_last().push(arrivals.last()));
        assert(batches.flatten() + seated =~= (batches.flatten() + waiting).push(arrivals.last()));
        if seated.len() == MAX_PLAYER_LOBBY {
            batches.lemma_flatten_push(seated);
            assert(batches.push(seated).flatten() + Seq::<C>::empty() =~= arrivals);
        }
    }
}

} // verus!
