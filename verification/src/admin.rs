//! The admin-facing observation state: a bounded log of server events, a
//! broadcast channel relaying them to admin panels, and the server
//! statistics shape.

use vstd::prelude::*;

use crate::types::Position;

verus! {

/// A snapshot of server statistics for the admin panel.
#[derive(Debug, Clone, Copy, PartialEq)]
pub struct ServerStats {
    pub uptime_seconds: u64,
    pub total_players: usize,
    pub active_players: usize,
    pub world_size: (i32, i32),
    pub total_entities: usize,
    pub total_tiles: usize,
    pub ticks_processed: u64,
}

/// A snapshot of the running game, handed to the admin server by the game
/// loop.
#[derive(Debug, Clone, Copy)]
pub struct GameStats {
    pub world_size: (i32, i32),
    pub total_entities: usize,
    pub active_players: usize,
    pub current_tick: u64,
}

impl ServerStats {
    /// Composes the admin statistics reply from a game snapshot and the
    /// server's uptime; the tile count is the world's area.
    pub fn from_game(stats: &GameStats, uptime_seconds: u64) -> (r: ServerStats)
        requires
            0 <= stats.world_size.0 <= 10000,
            0 <= stats.world_size.1 <= 10000,
        ensures
            r.uptime_seconds == uptime_seconds,
            r.total_players == stats.active_players,
            r.active_players == stats.active_players,
            r.world_size == stats.world_size,
            r.total_entities == stats.total_entities,
            r.total_tiles == stats.world_size.0 * stats.world_size.1,
            r.ticks_processed == stats.current_tick,
    {
        proof {
            assert(stats.world_size.0 * stats.world_size.1 <= 10000 * 10000) by (nonlinear_arith)
                requires
                    0 <= stats.world_size.0 <= 10000,
                    0 <= stats.world_size.1 <= 10000,
            ;
            assert(0 <= stats.world_size.0 * stats.world_size.1) by (nonlinear_arith)
                requires
                    0 <= stats.world_size.0,
                    0 <= stats.world_size.1,
            ;
        }
        let total_tiles: usize = (stats.world_size.0 as usize) * (stats.world_size.1 as usize);
        ServerStats {
            uptime_seconds,
            total_players: stats.active_players,
            active_players: stats.active_players,
            world_size: stats.world_size,
            total_entities: stats.total_entities,
            total_tiles,
            ticks_processed: stats.current_tick,
        }
    }
}

/// A server event as the admin panel sees it.
#[derive(Debug, Clone, PartialEq)]
pub enum AdminEvent {
    PlayerConnected { name: String, id: u32 },
    PlayerDisconnected { name: String, id: u32 },
    PlayerMoved { name: String, from: Position, to: Position },
    EntitySpawned { entity_type: String, pos: Position },
    CombatOccurred { attacker: String, defender: String, pos: Position },
    WorldTick { tick: u64 },
    ServerStats(ServerStats),
}

impl AdminEvent {
    /// An owned copy, equal to `self` field for field.
    pub fn duplicate(&self) -> (e: AdminEvent)
        ensures
            e == *self,
    {
        match self {
            AdminEvent::PlayerConnected { name, id } => AdminEvent::PlayerConnected {
                name: name.clone(),
                id: *id,
            },
            AdminEvent::PlayerDisconnected { name, id } => AdminEvent::PlayerDisconnected {
                name: name.clone(),
                id: *id,
            },
            AdminEvent::PlayerMoved { name, from, to } => AdminEvent::PlayerMoved {
                name: name.clone(),
                from: *from,
                to: *to,
            },
            AdminEvent::EntitySpawned { entity_type, pos } => AdminEvent::EntitySpawned {
                entity_type: entity_type.clone(),
                pos: *pos,
            },
            AdminEvent::CombatOccurred { attacker, defender, pos } => AdminEvent::CombatOccurred {
                attacker: attacker.clone(),
                defender: defender.clone(),
                pos: *pos,
            },
            AdminEvent::WorldTick { tick } => AdminEvent::WorldTick { tick: *tick },
            AdminEvent::ServerStats(s) => AdminEvent::ServerStats(*s),
        }
    }
}

#[verifier::external_type_specification]
#[verifier::external_body]
pub struct ExInstant(std::time::Instant);

/// Relies on std::time::Instant::now: an opaque reading of the monotonic
/// clock; nothing is promised of its value.
#[verifier::external_body]
fn instant_now() -> std::time::Instant {
    std::time::Instant::now()
}

/// Relies on std::time::Instant::elapsed and Duration::as_secs: the whole
/// seconds since the instant was taken; the value depends on the clock, so
/// nothing is promised of it.
#[verifier::external_body]
fn elapsed_secs(start: &std::time::Instant) -> u64 {
    start.elapsed().as_secs()
}

/// Relies on tokio::sync::broadcast::channel: creates the admin event
/// channel with the given buffer capacity; the channel panics only on a zero
/// or oversized capacity, which the precondition rules out.
#[verifier::external_body]
fn new_admin_sender(capacity: usize) -> tokio::sync::broadcast::Sender<AdminEvent>
    requires
        1 <= capacity <= usize::MAX / 2,
{
    let (tx, _rx) = tokio::sync::broadcast::channel(capacity);
    tx
}

/// Relies on tokio::sync::broadcast::Sender::send: never blocks; delivers to
/// each current subscriber's buffer, and a send without subscribers merely
/// reports an error, which is discarded.
#[verifier::external_body]
fn send_admin_event(tx: &tokio::sync::broadcast::Sender<AdminEvent>, event: AdminEvent) {
    let _ = tx.send(event);
}

/// The admin observation state: a bounded, oldest-out log of events plus the
/// relay channel to connected panels.
pub struct AdminState {
    pub events: Vec<AdminEvent>,
    pub max_events: usize,
    pub event_tx: tokio::sync::broadcast::Sender<AdminEvent>,
    pub start_time: std::time::Instant,
}

impl AdminState {
    /// An empty log holding at most 1000 events, with a relay channel
    /// buffering 100 events per subscriber, started now.
    pub fn new() -> (s: AdminState)
        ensures
            s.events@ =~= Seq::<AdminEvent>::empty(),
            s.max_events == 1000,
    {
        AdminState {
            events: Vec::new(),
            max_events: 1000,
            event_tx: new_admin_sender(100),
            start_time: instant_now(),
        }
    }

    /// Records an event in the log, dropping the oldest entry when the log
    /// would exceed its bound, and relays it to the panels.
    pub fn log_event(&mut self, event: AdminEvent)
        ensures
            final(self).max_events == old(self).max_events,
            final(self).events@ == if old(self).events@.len() + 1 > old(self).max_events {
                old(self).events@.push(event).drop_first()
            } else {
                old(self).events@.push(event)
            },
    {
        let copy = event.duplicate();
        self.events.push(event);
        if self.events.len() > self.max_events {
            self.events.remove(0);
            proof {
                assert(self.events@ =~= old(self).events@.push(copy).drop_first());
            }
        }
        send_admin_event(&self.event_tx, copy);
    }

    /// The `limit` most recent events, oldest first; the whole log when it
    /// holds no more than `limit` entries.
    pub fn get_recent_events(&self, limit: usize) -> (r: Vec<AdminEvent>)
        ensures
            r@ == if self.events@.len() <= limit {
                self.events@
            } else {
                self.events@.skip(self.events@.len() - limit)
            },
    {
        let n = self.events.len();
        let start: usize = if n > limit {
            n - limit
        } else {
            0
        };
        let mut r: Vec<AdminEvent> = Vec::new();
        let mut i: usize = start;
        while i < n
            invariant
                n == self.events@.len(),
                start <= i <= n,
                r@ =~= self.events@.subrange(start as int, i as int),
            decreases n - i,
        {
            r.push(self.events[i].duplicate());
            proof {
                assert(r@ =~= self.events@.subrange(start as int, i as int + 1));
            }
            i = i + 1;
        }
        proof {
            if n <= limit {
                assert(self.events@.subrange(0, n as int) =~= self.events@);
            } else {
                assert(self.events@.subrange(start as int, n as int) =~= self.events@.skip(
                    n as int - limit,
                ));
            }
        }
        r
    }

    /// The whole seconds since this state was created; the value depends on
    /// the clock, so nothing is promised of it.
    pub fn get_uptime_seconds(&self) -> u64 {
        elapsed_secs(&self.start_time)
    }
}

} // verus!
