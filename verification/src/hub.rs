//! The broadcast hub: a multi-producer, multi-consumer publish/subscribe
//! channel fanning discrete game events out to any number of subscribing
//! sessions. Publishing never blocks; each subscriber sees only the events
//! published after it subscribed, and a slow subscriber loses oldest events
//! rather than slowing publishers down.

use vstd::prelude::*;

use crate::types::Position;

verus! {

/// A discrete event of the running game, as observers and admin tooling see
/// it. Player ids are the 128-bit values standing for the account UUIDs.
#[derive(Debug, Clone, PartialEq)]
pub enum GameEvent {
    PlayerConnected { name: String, id: u128 },
    PlayerDisconnected { name: String, id: u128 },
    PlayerMoved { name: String, from: Position, to: Position },
    PlayerSpawned { name: String, pos: Position },
    WorldTick { tick: u64, active_players: usize, total_entities: usize },
}

#[verifier::external_type_specification]
#[verifier::external_body]
#[verifier::reject_recursive_types(T)]
pub struct ExBroadcastSender<T>(tokio::sync::broadcast::Sender<T>);

#[verifier::external_type_specification]
#[verifier::external_body]
#[verifier::reject_recursive_types(T)]
pub struct ExBroadcastReceiver<T>(tokio::sync::broadcast::Receiver<T>);

/// The central hub of discrete game events.
pub struct EventHub {
    tx: tokio::sync::broadcast::Sender<GameEvent>,
}

/// A subscription to the hub: it receives every event published after it was
/// created, in publish order, up to the hub's buffering.
pub struct EventSubscriber {
    rx: tokio::sync::broadcast::Receiver<GameEvent>,
}

/// Relies on tokio::sync::broadcast::channel: creates a channel whose
/// per-subscriber buffer holds `capacity` events; the channel panics only on
/// a zero or oversized capacity, which the precondition rules out. The
/// initial receiver is dropped; subscribers attach through `subscribe`.
#[verifier::external_body]
fn new_event_sender(capacity: usize) -> tokio::sync::broadcast::Sender<GameEvent>
    requires
        1 <= capacity <= usize::MAX / 2,
{
    let (tx, _rx) = tokio::sync::broadcast::channel(capacity);
    tx
}

impl EventHub {
    /// A hub buffering up to 1000 events per subscriber.
    pub fn new() -> (h: EventHub) {
        EventHub { tx: new_event_sender(1000) }
    }

    /// Publishes an event to every current subscriber. Relies on
    /// tokio::sync::broadcast::Sender::send: it never blocks; each active
    /// subscriber's buffer receives the event, and a send without
    /// subscribers merely reports an error, which is discarded because the
    /// hub does not require listeners.
    #[verifier::external_body]
    pub fn broadcast(&self, event: GameEvent) {
        let _ = self.tx.send(event);
    }

    /// Publishes a batch of events in order.
    pub fn broadcast_all(&self, events: &Vec<GameEvent>) {
        let n = events.len();
        let mut i: usize = 0;
        while i < n
            invariant
                n == events@.len(),
                i <= n,
            decreases n - i,
        {
            self.broadcast(events[i].clone());
            i = i + 1;
        }
    }

    /// A new subscription. Relies on
    /// tokio::sync::broadcast::Sender::subscribe: the returned receiver sees
    /// exactly the events sent after this call, in publish order.
    #[verifier::external_body]
    pub fn subscribe(&self) -> EventSubscriber {
        EventSubscriber { rx: self.tx.subscribe() }
    }
}

impl EventSubscriber {
    /// The oldest pending event, if one is queued. Relies on
    /// tokio::sync::broadcast::Receiver::try_recv: it returns without
    /// blocking; the empty, closed and lagged outcomes are all reported as
    /// no event.
    #[verifier::external_body]
    pub fn try_next(&mut self) -> Option<GameEvent> {
        match self.rx.try_recv() {
            Ok(event) => Some(event),
            Err(_) => None,
        }
    }
}

} // verus!
