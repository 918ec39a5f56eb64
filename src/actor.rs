//! The synchronisation cadence of one connection: read an intent, hand it to
//! the room, wait for the room's snapshot, write it, and read again. The
//! decisions are made here; the connection's task performs the actions and
//! reports what happened.
use crate::player::{parse_player_signal, signal_bytes, PlayerSignal, ResponseSignal};
use vstd::prelude::*;

verus! {

#[derive(Clone, Copy, Debug, PartialEq, Eq, Structural)]
pub enum ActorState {
    /// Waiting for the client's next intent.
    AwaitInput,
    /// An intent was handed to the room; waiting for its snapshot.
    AwaitAuthoritative,
    /// The connection is gone; the room was told to drop the player.
    Disconnected,
}

/// What the connection's task observed.
pub enum ActorEvent {
    /// Bytes read from the client.
    Received(Vec<u8>),
    /// The client closed the connection, or reading failed.
    Closed,
    /// The room's snapshot for the intent in flight.
    Authoritative(ResponseSignal),
}

/// What the connection's task is to do next.
pub enum ActorAction {
    /// Hand this intent to the room.
    Submit(PlayerSignal),
    /// Write these bytes to the client.
    Emit(Vec<u8>),
    /// Ask the room to drop this player, then close the connection.
    Leave(u64),
    /// Nothing.
    Ignore,
}

/// The kind of an action, without its payload.
#[derive(Clone, Copy, Debug, PartialEq, Eq, Structural)]
pub enum ActionTag {
    Submit,
    Emit,
    Leave,
    Ignore,
}

pub open spec fn tag_of(a: ActorAction) -> ActionTag {
    match a {
        ActorAction::Submit(_) => ActionTag::Submit,
        ActorAction::Emit(_) => ActionTag::Emit,
        ActorAction::Leave(_) => ActionTag::Leave,
        ActorAction::Ignore => ActionTag::Ignore,
    }
}

/// The next state and the kind of action for one event. An unreadable
/// intent is dropped and the connection keeps waiting for the next one; an
/// event the state does not wait for changes nothing.
pub open spec fn step_spec(st: ActorState, e: ActorEvent) -> (ActorState, ActionTag) {
    match (st, e) {
        (ActorState::AwaitInput, ActorEvent::Received(b)) => if parse_player_signal(b@, 0) is Some {
            (ActorState::AwaitAuthoritative, ActionTag::Submit)
        } else {
            (ActorState::AwaitInput, ActionTag::Ignore)
        },
        (ActorState::AwaitInput, ActorEvent::Closed) => (ActorState::Disconnected, ActionTag::Leave),
        (ActorState::AwaitAuthoritative, ActorEvent::Authoritative(_)) => (
            ActorState::AwaitInput,
            ActionTag::Emit,
        ),
        _ => (st, ActionTag::Ignore),
    }
}

/// The state reached and the kinds of action taken over a run of events.
pub open spec fn run(st: ActorState, events: Seq<ActorEvent>) -> (ActorState, Seq<ActionTag>)
    decreases events.len(),
{
    if events.len() == 0 {
        (st, Seq::empty())
    } else {
        let (s, tags) = run(st, events.drop_last());
        let (s2, t) = step_spec(s, events.last());
        (s2, tags.push(t))
    }
}

/// How many actions of kind `k` stand in `tags`.
pub open spec fn count(tags: Seq<ActionTag>, k: ActionTag) -> nat
    decreases tags.len(),
{
    if tags.len() == 0 {
        0
    } else {
        count(tags.drop_last(), k) + if tags.last() == k {
            1nat
        } else {
            0nat
        }
    }
}

/// Over any run of events from a fresh connection, every snapshot written
/// answers one intent handed in before it: at every point there are as many
/// snapshots written as intents handed in, or one fewer while an intent is
/// in flight; so no intent is answered twice, none out of turn. The room is
/// asked at most once to drop the player, and exactly when the connection
/// has ended.
pub proof fn lemma_one_response_per_intent(events: Seq<ActorEvent>)
    ensures
        ({
            let (s, tags) = run(ActorState::AwaitInput, events);
            &&& count(tags, ActionTag::Emit) <= count(tags, ActionTag::Submit) <= count(
                tags,
                ActionTag::Emit,
            ) + 1
            &&& (s == ActorState::AwaitAuthoritative) == (count(tags, ActionTag::Submit) == count(
                tags,
                ActionTag::Emit,
            ) + 1)
            &&& count(tags, ActionTag::Leave) <= 1
            &&& (s == ActorState::Disconnected) == (count(tags, ActionTag::Leave) == 1)
        }),
    decreases events.len(),
{
    if events.len() > 0 {
        lemma_one_response_per_intent(events.drop_last());
        let (s, tags) = run(ActorState::AwaitInput, events.drop_last());
        let (s2, t) = step_spec(s, events.last());
        let tags2 = tags.push(t);
        assert(tags2.drop_last() =~= tags);
    }
}

/// One connection's cadence: the player it serves and where it stands.
pub struct PlayerActor {
    pub player_id: u64,
    pub state: ActorState,
}

impl PlayerActor {
    /// The cadence of a player that has just joined.
    pub fn new(player_id: u64) -> (r: Self)
        ensures
            r.player_id == player_id,
            r.state == ActorState::AwaitInput,
    {
        PlayerActor { player_id, state: ActorState::AwaitInput }
    }

    /// Takes one event and says what to do. A readable intent is handed on
    /// as it was read; a snapshot is written as it came; a departure names
    /// this player.
    pub fn step(&mut self, event: ActorEvent) -> (r: ActorAction)
        ensures
            (final(self).state, tag_of(r)) == step_spec(old(self).state, event),
            final(self).player_id == old(self).player_id,
            r matches ActorAction::Submit(s) ==> (event matches ActorEvent::Received(b)
                && parse_player_signal(b@, 0) matches Some((v, _)) && s@ == v),
            r matches ActorAction::Emit(b) ==> (event matches ActorEvent::Authoritative(sig)
                && b@ == signal_bytes(sig@)),
            r matches ActorAction::Leave(id) ==> id == old(self).player_id,
    {
        match (self.state, event) {
            (ActorState::AwaitInput, ActorEvent::Received(b)) => {
                match PlayerSignal::from_bytes(b.as_slice()) {
                    Some((s, _)) => {
                        self.state = ActorState::AwaitAuthoritative;
                        ActorAction::Submit(s)
                    },
                    None => ActorAction::Ignore,
                }
            },
            (ActorState::AwaitInput, ActorEvent::Closed) => {
                self.state = ActorState::Disconnected;
                ActorAction::Leave(self.player_id)
            },
            (ActorState::AwaitAuthoritative, ActorEvent::Authoritative(sig)) => {
                self.state = ActorState::AwaitInput;
                ActorAction::Emit(sig.to_bytes())
            },
            _ => ActorAction::Ignore,
        }
    }
}

} // verus!
