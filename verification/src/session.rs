//! The game state shared by all sessions, the per-client viewport
//! computation, and the per-connection session coordinator: a state machine
//! that turns decoded client intents into world mutations and decides which
//! events to publish and which reply to send.

use vstd::prelude::*;

use crate::hub::GameEvent;
use crate::types::{Entity, EntityType, Position};
use crate::viewport::{entity_color, entity_glyph, terrain_bg, terrain_fg, terrain_glyph,
    tile_to_glyph, entity_to_glyph, EntityData, GameUpdate, TileData, ViewportData};
use crate::world::{in_bounds, in_region, World};

verus! {

/// One logged-in player's binding of an entity id to a display name.
pub struct PlayerSession {
    pub entity_id: u32,
    pub name: String,
}

/// The state shared by every session: the world and the table of logged-in
/// players, plus the channel on which per-tick updates are fanned out.
pub struct GameState {
    pub world: World,
    pub players: Vec<PlayerSession>,
    pub tick_update_tx: tokio::sync::broadcast::Sender<GameUpdate>,
}

/// Relies on tokio::sync::broadcast::channel: creates the per-tick update
/// channel with the given buffer capacity; the channel panics only on a zero
/// or oversized capacity, which the precondition rules out.
#[verifier::external_body]
fn new_update_sender(capacity: usize) -> tokio::sync::broadcast::Sender<GameUpdate>
    requires
        1 <= capacity <= usize::MAX / 2,
{
    let (tx, _rx) = tokio::sync::broadcast::channel(capacity);
    tx
}

/// Relies on tokio::sync::broadcast::Sender::send: never blocks; delivers to
/// each current subscriber's buffer, and a send without subscribers merely
/// reports an error, which is discarded.
#[verifier::external_body]
fn send_update(tx: &tokio::sync::broadcast::Sender<GameUpdate>, update: GameUpdate) {
    let _ = tx.send(update);
}

/// Whether `v` is the viewport a client centered at `c` with view range
/// `range` must see over world `w`: a full `(2 range + 1)` square of tile
/// cells in row-major order, rendering out-of-bounds cells as the void
/// glyph, plus one rendered entry per entity within the square, in
/// entity-layer order.
pub open spec fn viewport_matches(w: World, c: Position, range: int, v: ViewportData) -> bool {
    let span = 2 * range + 1;
    &&& v.player_pos == c
    &&& v.width == span
    &&& v.height == span
    &&& v.tiles@.len() == span * span
    &&& forall|xx: int, yy: int|
        c.x - range <= xx <= c.x + range && c.y - range <= yy <= c.y + range ==> {
            let td = #[trigger] v.tiles@[(yy - (c.y - range)) * span + (xx - (c.x - range))];
            &&& td.x == xx
            &&& td.y == yy
            &&& if in_bounds(w.spec_width(), w.spec_height(), xx, yy) {
                &&& td.glyph == terrain_glyph(w.tile_at(xx, yy).terrain)
                &&& td.fg_color@ == terrain_fg(w.tile_at(xx, yy).terrain)
                &&& td.bg_color@ == terrain_bg(w.tile_at(xx, yy).terrain)
            } else {
                &&& td.glyph == ' '
                &&& td.fg_color@ == "#000"@
                &&& td.bg_color@ == "#000"@
            }
        }
    &&& v.entities@.len() == w.spec_entities().filter(in_region(c, range)).len()
    &&& forall|k: int| 0 <= k < v.entities@.len() ==> {
        let e = w.spec_entities().filter(in_region(c, range))[k];
        let ed = #[trigger] v.entities@[k];
        &&& ed.x == e.pos.x
        &&& ed.y == e.pos.y
        &&& ed.glyph == entity_glyph(e.entity_type)
        &&& ed.color@ == entity_color(e.entity_type)
        &&& ed.name == e.name
    }
}

impl GameState {
    /// A fresh shared state: a 50 by 50 world under the standard policy, no
    /// players, and an update channel buffering 100 updates per subscriber.
    pub fn new() -> (s: GameState)
        ensures
            s.world.wf(),
            s.world.spec_width() == 50,
            s.world.spec_height() == 50,
            s.world.spec_entities() =~= Seq::<Entity>::empty(),
            s.world.spec_tick_count() == 0,
            s.players@ =~= Seq::<PlayerSession>::empty(),
    {
        GameState {
            world: World::new(50, 50),
            players: Vec::new(),
            tick_update_tx: new_update_sender(100),
        }
    }

    /// Spawns a player entity at the fixed entry cell `(10, 10)` and records
    /// the session binding; fails with no side effect when the entry cell
    /// cannot be stood on (or the id space is spent).
    pub fn spawn_player(&mut self, name: String) -> (r: Option<u32>)
        requires
            old(self).world.wf(),
        ensures
            final(self).world.wf(),
            match r {
                Some(id) => {
                    &&& old(self).world.can_stand((Position { x: 10, y: 10 }))
                    &&& old(self).world.spec_next_entity_id() < u32::MAX
                    &&& id == old(self).world.spec_next_entity_id()
                    &&& final(self).world.spec_entities() =~= old(self).world.spec_entities().push(
                        (Entity {
                            id,
                            name,
                            pos: Position { x: 10, y: 10 },
                            entity_type: EntityType::Player,
                        }),
                    )
                    &&& final(self).world.spec_next_entity_id() == old(
                        self,
                    ).world.spec_next_entity_id() + 1
                    &&& old(self).world.same_except_entities(final(self).world)
                    &&& final(self).players@.len() == old(self).players@.len() + 1
                    &&& forall|j: int| 0 <= j < old(self).players@.len()
                        ==> #[trigger] final(self).players@[j] == old(self).players@[j]
                    &&& final(self).players@.last().entity_id == id
                    &&& final(self).players@.last().name == name
                },
                None => {
                    &&& !(old(self).world.can_stand((Position { x: 10, y: 10 }))
                        && old(self).world.spec_next_entity_id() < u32::MAX)
                    &&& final(self).world == old(self).world
                    &&& final(self).players == old(self).players
                },
            },
    {
        let name_copy = name.clone();
        let id_opt = self.world.spawn_entity(name, Position::new(10, 10), EntityType::Player);
        match id_opt {
            Some(entity_id) => {
                self.players.push(PlayerSession { entity_id, name: name_copy });
                Some(entity_id)
            },
            None => None,
        }
    }

    /// The viewport of the entity with the given id: `None` exactly when the
    /// id is not live, else a full square of rendered tiles (with the void
    /// glyph outside the world) and the entities in range.
    pub fn get_viewport(&self, entity_id: u32, view_range: i32) -> (r: Option<ViewportData>)
        requires
            self.world.wf(),
            0 <= view_range <= 10000,
        ensures
            match r {
                Some(v) => self.world.has_entity(entity_id) && viewport_matches(
                    self.world,
                    self.world.entity_by_id(entity_id).pos,
                    view_range as int,
                    v,
                ),
                None => !self.world.has_entity(entity_id),
            },
    {
        let center: Position = match self.world.get_entity(entity_id) {
            Some(e) => e.pos,
            None => {
                return None;
            },
        };
        let span: i32 = 2 * view_range + 1;
        let ghost spani: int = span as int;
        let mut tiles: Vec<TileData> = Vec::new();
        let x_lo: i32 = center.x - view_range;
        let x_hi: i32 = center.x + view_range;
        let y_lo: i32 = center.y - view_range;
        let y_hi: i32 = center.y + view_range;
        let mut y: i32 = y_lo;
        while y <= y_hi
            invariant
                self.world.wf(),
                self.world.can_stand(center),
                x_lo == center.x - view_range,
                x_hi == center.x + view_range,
                y_lo == center.y - view_range,
                y_hi == center.y + view_range,
                0 <= view_range <= 10000,
                -10000 <= x_lo <= x_hi <= 20000,
                -10000 <= y_lo <= y <= y_hi + 1,
                spani == 2 * view_range + 1,
                tiles@.len() == (y - y_lo) * spani,
                forall|xx: int, yy: int|
                    x_lo <= xx <= x_hi && y_lo <= yy < y ==> {
                        let td = #[trigger] tiles@[(yy - y_lo) * spani + (xx - x_lo)];
                        &&& td.x == xx
                        &&& td.y == yy
                        &&& if in_bounds(self.world.spec_width(), self.world.spec_height(), xx, yy) {
                            &&& td.glyph == terrain_glyph(self.world.tile_at(xx, yy).terrain)
                            &&& td.fg_color@ == terrain_fg(self.world.tile_at(xx, yy).terrain)
                            &&& td.bg_color@ == terrain_bg(self.world.tile_at(xx, yy).terrain)
                        } else {
                            &&& td.glyph == ' '
                            &&& td.fg_color@ == "#000"@
                            &&& td.bg_color@ == "#000"@
                        }
                    },
            decreases y_hi + 1 - y,
        {
            let mut x: i32 = x_lo;
            while x <= x_hi
                invariant
                    self.world.wf(),
                    x_lo == center.x - view_range,
                    x_hi == center.x + view_range,
                    y_lo == center.y - view_range,
                    0 <= view_range <= 10000,
                    -10000 <= x_lo <= x <= x_hi + 1,
                    x_hi <= 20000,
                    y_lo <= y,
                    spani == 2 * view_range + 1,
                    tiles@.len() == (y - y_lo) * spani + (x - x_lo),
                    forall|xx: int, yy: int|
                        x_lo <= xx <= x_hi && y_lo <= yy < y ==> {
                            let td = #[trigger] tiles@[(yy - y_lo) * spani + (xx - x_lo)];
                            &&& td.x == xx
                            &&& td.y == yy
                            &&& if in_bounds(self.world.spec_width(), self.world.spec_height(), xx, yy) {
                                &&& td.glyph == terrain_glyph(self.world.tile_at(xx, yy).terrain)
                                &&& td.fg_color@ == terrain_fg(self.world.tile_at(xx, yy).terrain)
                                &&& td.bg_color@ == terrain_bg(self.world.tile_at(xx, yy).terrain)
                            } else {
                                &&& td.glyph == ' '
                                &&& td.fg_color@ == "#000"@
                                &&& td.bg_color@ == "#000"@
                            }
                        },
                    forall|xx: int|
                        x_lo <= xx < x ==> {
                            let td = #[trigger] tiles@[(y - y_lo) * spani + (xx - x_lo)];
                            &&& td.x == xx
                            &&& td.y == y as int
                            &&& if in_bounds(self.world.spec_width(), self.world.spec_height(), xx, y as int) {
                                &&& td.glyph == terrain_glyph(self.world.tile_at(xx, y as int).terrain)
                                &&& td.fg_color@ == terrain_fg(self.world.tile_at(xx, y as int).terrain)
                                &&& td.bg_color@ == terrain_bg(self.world.tile_at(xx, y as int).terrain)
                            } else {
                                &&& td.glyph == ' '
                                &&& td.fg_color@ == "#000"@
                                &&& td.bg_color@ == "#000"@
                            }
                        },
                decreases x_hi + 1 - x,
            {
                let ghost pre = tiles@;
                let td = match self.world.get_tile(Position::new(x, y)) {
                    Some(tile) => {
                        let (glyph, fg, bg) = tile_to_glyph(&tile);
                        TileData { x, y, glyph, fg_color: fg, bg_color: bg }
                    },
                    None => TileData {
                        x,
                        y,
                        glyph: ' ',
                        fg_color: String::from_str("#000"),
                        bg_color: String::from_str("#000"),
                    },
                };
                tiles.push(td);
                proof {
                    assert forall|xx: int, yy: int| x_lo <= xx <= x_hi && y_lo <= yy < y implies {
                        let tdp = #[trigger] tiles@[(yy - y_lo) * spani + (xx - x_lo)];
                        &&& tdp.x == xx
                        &&& tdp.y == yy
                        &&& if in_bounds(self.world.spec_width(), self.world.spec_height(), xx, yy) {
                            &&& tdp.glyph == terrain_glyph(self.world.tile_at(xx, yy).terrain)
                            &&& tdp.fg_color@ == terrain_fg(self.world.tile_at(xx, yy).terrain)
                            &&& tdp.bg_color@ == terrain_bg(self.world.tile_at(xx, yy).terrain)
                        } else {
                            &&& tdp.glyph == ' '
                            &&& tdp.fg_color@ == "#000"@
                            &&& tdp.bg_color@ == "#000"@
                        }
                    } by {
                        crate::world::lemma_earlier_row_index(spani, xx - x_lo, yy - y_lo, (y - y_lo) as int);
                        assert(tiles@[(yy - y_lo) * spani + (xx - x_lo)] == pre[(yy - y_lo) * spani + (xx - x_lo)]);
                    }
                }
                x = x + 1;
            }
            proof {
                assert(((y - y_lo) + 1) * spani == (y - y_lo) * spani + spani) by (nonlinear_arith);
            }
            y = y + 1;
        }
        proof {
            assert((y_hi + 1 - y_lo) * spani == spani * spani) by (nonlinear_arith)
                requires
                    y_hi + 1 - y_lo == spani,
            ;
        }
        let region = self.world.get_entities_in_region(center, view_range);
        let mut entities_data: Vec<EntityData> = Vec::new();
        let n = region.len();
        let mut i: usize = 0;
        while i < n
            invariant
                n == region@.len(),
                i <= n,
                entities_data@.len() == i,
                forall|k: int| 0 <= k < i ==> {
                    let e = region@[k];
                    let ed = #[trigger] entities_data@[k];
                    &&& ed.x == e.pos.x
                    &&& ed.y == e.pos.y
                    &&& ed.glyph == entity_glyph(e.entity_type)
                    &&& ed.color@ == entity_color(e.entity_type)
                    &&& ed.name == e.name
                },
            decreases n - i,
        {
            let e = &region[i];
            let (glyph, color) = entity_to_glyph(e);
            entities_data.push(EntityData {
                x: e.pos.x,
                y: e.pos.y,
                glyph,
                color,
                name: e.name.clone(),
            });
            i = i + 1;
        }
        Some(ViewportData {
            tiles,
            entities: entities_data,
            player_pos: center,
            width: span,
            height: span,
        })
    }

    /// Sends every logged-in player's current viewport, stamped with the
    /// current tick, over the per-tick update channel.
    pub fn broadcast_tick_updates(&self)
        requires
            self.world.wf(),
    {
        let n = self.players.len();
        let mut i: usize = 0;
        while i < n
            invariant
                self.world.wf(),
                n == self.players@.len(),
                i <= n,
            decreases n - i,
        {
            let entity_id = self.players[i].entity_id;
            match self.get_viewport(entity_id, 15) {
                Some(viewport) => {
                    let update = GameUpdate { tick: self.world.get_current_tick(), viewport };
                    send_update(&self.tick_update_tx, update);
                },
                None => {},
            }
            i = i + 1;
        }
    }
}

/// The lifecycle of one connection.
#[derive(Debug, Clone, Copy, PartialEq, Eq, Structural)]
pub enum SessionState {
    Unauthenticated,
    Active,
    Closed,
}

/// The per-connection state machine: it binds a network session to an entity
/// id, turns client intents into world store calls, and decides which events
/// to publish and which reply to send. The caller performs the actual
/// network sends and publishes the returned events, in order, while holding
/// the same critical section that covered the mutation.
pub struct SessionCoordinator {
    pub state: SessionState,
    pub user_id: u128,
    pub entity_id: Option<u32>,
    pub player_name: String,
}

impl SessionCoordinator {
    /// A fresh, unauthenticated session for the given account id.
    pub fn new(user_id: u128) -> (s: SessionCoordinator)
        ensures
            s.state == SessionState::Unauthenticated,
            s.user_id == user_id,
            s.entity_id is None,
            s.player_name@ == Seq::<char>::empty(),
    {
        SessionCoordinator {
            state: SessionState::Unauthenticated,
            user_id,
            entity_id: None,
            player_name: String::new(),
        }
    }

    /// A login intent. Only an unauthenticated session reacts: on a
    /// successful spawn it becomes `Active`, binds the entity id, and hands
    /// back the initial viewport together with the `PlayerConnected` and
    /// `PlayerSpawned` events to publish; on a failed spawn it stays
    /// `Unauthenticated` with no reply (the caller sends the error
    /// acknowledgement) and nothing to publish.
    pub fn handle_login(&mut self, game: &mut GameState, name: String) -> (r: (
        Option<GameUpdate>,
        Vec<GameEvent>,
    ))
        requires
            old(game).world.wf(),
        ensures
            final(game).world.wf(),
            old(self).state != SessionState::Unauthenticated ==> {
                &&& *final(self) == *old(self)
                &&& *final(game) == *old(game)
                &&& r.0 is None
                &&& r.1@ =~= Seq::<GameEvent>::empty()
            },
            old(self).state == SessionState::Unauthenticated ==> {
                if old(game).world.can_stand((Position { x: 10, y: 10 })) && old(
                    game,
                ).world.spec_next_entity_id() < u32::MAX {
                    let id = old(game).world.spec_next_entity_id();
                    &&& final(self).state == SessionState::Active
                    &&& final(self).user_id == old(self).user_id
                    &&& final(self).entity_id == Some(id)
                    &&& final(self).player_name == name
                    &&& final(game).world.spec_entities() =~= old(
                        game,
                    ).world.spec_entities().push(
                        (Entity {
                            id,
                            name,
                            pos: Position { x: 10, y: 10 },
                            entity_type: EntityType::Player,
                        }),
                    )
                    &&& final(game).world.spec_next_entity_id() == id + 1
                    &&& old(game).world.same_except_entities(final(game).world)
                    &&& final(game).players@.len() == old(game).players@.len() + 1
                    &&& forall|j: int| 0 <= j < old(game).players@.len()
                        ==> #[trigger] final(game).players@[j] == old(game).players@[j]
                    &&& final(game).players@.last().entity_id == id
                    &&& final(game).players@.last().name == name
                    &&& r.1@.len() == 2
                    &&& r.1@[0] == (GameEvent::PlayerConnected { name, id: old(self).user_id })
                    &&& r.1@[1] == (GameEvent::PlayerSpawned {
                        name,
                        pos: Position { x: 10, y: 10 },
                    })
                    &&& r.0 is Some
                    &&& (match r.0 {
                        Some(u) => {
                            &&& u.tick == final(game).world.spec_tick_count()
                            &&& viewport_matches(
                                final(game).world,
                                (Position { x: 10, y: 10 }),
                                15,
                                u.viewport,
                            )
                        },
                        None => false,
                    })
                } else {
                    &&& *final(self) == *old(self)
                    &&& final(game).world == old(game).world
                    &&& final(game).players == old(game).players
                    &&& r.0 is None
                    &&& r.1@ =~= Seq::<GameEvent>::empty()
                }
            },
    {
        match self.state {
            SessionState::Unauthenticated => {},
            _ => {
                return (None, Vec::new());
            },
        }
        let name_for_spawn = name.clone();
        let name_for_events = name.clone();
        match game.spawn_player(name_for_spawn) {
            Some(id) => {
                self.state = SessionState::Active;
                self.entity_id = Some(id);
                self.player_name = name;
                let mut events: Vec<GameEvent> = Vec::new();
                events.push(GameEvent::PlayerConnected {
                    name: name_for_events.clone(),
                    id: self.user_id,
                });
                events.push(GameEvent::PlayerSpawned {
                    name: name_for_events,
                    pos: Position::new(10, 10),
                });
                proof {
                    let w = game.world;
                    let n = w.spec_entities().len() as int;
                    assert(w.spec_entities()[n - 1].id == id);
                    w.lemma_entity_index_agrees(n - 1);
                    assert(w.entity_by_id(id).pos == (Position { x: 10, y: 10 }));
                }
                let reply = match game.get_viewport(id, 15) {
                    Some(viewport) => Some(
                        GameUpdate { tick: game.world.get_current_tick(), viewport },
                    ),
                    None => None,
                };
                (reply, events)
            },
            None => (None, Vec::new()),
        }
    }

    /// A movement intent. Only an active, bound session reacts: the move is
    /// validated and applied by the world store, a fresh viewport is handed
    /// back whether or not the move succeeded (the client's view may be
    /// stale), and a `PlayerMoved` event is produced exactly when the
    /// position actually changed.
    pub fn handle_move(&mut self, game: &mut GameState, dx: i32, dy: i32) -> (r: (
        Option<GameUpdate>,
        Vec<GameEvent>,
    ))
        requires
            old(game).world.wf(),
        ensures
            final(game).world.wf(),
            *final(self) == *old(self),
            !(old(self).state == SessionState::Active && old(self).entity_id is Some) ==> {
                &&& *final(game) == *old(game)
                &&& r.0 is None
                &&& r.1@ =~= Seq::<GameEvent>::empty()
            },
            (old(self).state == SessionState::Active && old(self).entity_id is Some) ==> {
                let eid = old(self).entity_id->Some_0;
                let moved = old(game).world.spec_move_ok(eid, dx as int, dy as int);
                &&& final(game).players == old(game).players
                &&& old(game).world.same_except_entities(final(game).world)
                &&& final(game).world.spec_next_entity_id() == old(
                    game,
                ).world.spec_next_entity_id()
                &&& moved ==> final(game).world.spec_entities() =~= old(
                    game,
                ).world.spec_entities().update(
                    old(game).world.entity_index(eid),
                    (Entity {
                        pos: crate::world::spec_moved_pos(
                            old(game).world.entity_by_id(eid).pos,
                            dx as int,
                            dy as int,
                        ),
                        ..old(game).world.entity_by_id(eid)
                    }),
                )
                &&& !moved ==> final(game).world == old(game).world
                &&& if moved && !(dx == 0 && dy == 0) {
                    r.1@ =~= seq![
                        (GameEvent::PlayerMoved {
                            name: old(self).player_name,
                            from: old(game).world.entity_by_id(eid).pos,
                            to: crate::world::spec_moved_pos(
                                old(game).world.entity_by_id(eid).pos,
                                dx as int,
                                dy as int,
                            ),
                        }),
                    ]
                } else {
                    r.1@ =~= Seq::<GameEvent>::empty()
                }
                &&& if old(game).world.has_entity(eid) {
                    &&& r.0 is Some
                    &&& (match r.0 {
                        Some(u) => {
                            &&& u.tick == final(game).world.spec_tick_count()
                            &&& viewport_matches(
                                final(game).world,
                                final(game).world.entity_by_id(eid).pos,
                                15,
                                u.viewport,
                            )
                        },
                        None => false,
                    })
                } else {
                    r.0 is None
                }
            },
    {
        match self.state {
            SessionState::Active => {},
            _ => {
                return (None, Vec::new());
            },
        }
        let eid: u32 = match self.entity_id {
            Some(eid) => eid,
            None => {
                return (None, Vec::new());
            },
        };
        let old_pos: Option<Position> = match game.world.get_entity(eid) {
            Some(e) => Some(e.pos),
            None => None,
        };
        let moved = game.world.move_entity(eid, dx, dy);
        let mut events: Vec<GameEvent> = Vec::new();
        if moved {
            match old_pos {
                Some(from) => {
                    proof {
                        let w0 = old(game).world;
                        let i0 = w0.entity_index(eid);
                        w0.lemma_entity_index_agrees(i0);
                    }
                    let to = match game.world.get_entity(eid) {
                        Some(e) => e.pos,
                        None => Position::new(0, 0),
                    };
                    if from.x != to.x || from.y != to.y {
                        events.push(GameEvent::PlayerMoved {
                            name: self.player_name.clone(),
                            from,
                            to,
                        });
                    }
                },
                None => {},
            }
        }
        let reply = match game.get_viewport(eid, 15) {
            Some(viewport) => Some(GameUpdate { tick: game.world.get_current_tick(), viewport }),
            None => None,
        };
        (reply, events)
    }

    /// Session termination. The transition to `Closed` happens exactly once,
    /// however many times the two directions of a closing connection race
    /// into this call: only the first transition despawns the bound entity
    /// (so a disconnected player leaves no ghost in the world) and produces
    /// the single `PlayerDisconnected` event.
    pub fn close(&mut self, game: &mut GameState) -> (r: Vec<GameEvent>)
        requires
            old(game).world.wf(),
        ensures
            final(game).world.wf(),
            final(game).players == old(game).players,
            old(self).state == SessionState::Closed ==> {
                &&& *final(self) == *old(self)
                &&& *final(game) == *old(game)
                &&& r@ =~= Seq::<GameEvent>::empty()
            },
            old(self).state != SessionState::Closed ==> {
                &&& final(self).state == SessionState::Closed
                &&& final(self).user_id == old(self).user_id
                &&& final(self).entity_id == old(self).entity_id
                &&& final(self).player_name == old(self).player_name
                &&& r@.len() == 1
                &&& r@[0] == (GameEvent::PlayerDisconnected {
                    name: old(self).player_name,
                    id: old(self).user_id,
                })
                &&& match old(self).entity_id {
                    Some(eid) => {
                        &&& final(game).world.spec_width() == old(game).world.spec_width()
                        &&& final(game).world.spec_height() == old(game).world.spec_height()
                        &&& final(game).world.spec_config() == old(game).world.spec_config()
                        &&& final(game).world.spec_events() == old(game).world.spec_events()
                        &&& final(game).world.spec_next_entity_id() == old(
                            game,
                        ).world.spec_next_entity_id()
                        &&& final(game).world.spec_tick_count() == old(
                            game,
                        ).world.spec_tick_count()
                        &&& old(game).world.has_entity(eid) ==> final(game).world.spec_entities()
                            =~= old(game).world.spec_entities().remove(
                            old(game).world.entity_index(eid),
                        )
                        &&& !old(game).world.has_entity(eid) ==> final(game).world == old(
                            game,
                        ).world
                    },
                    None => *final(game) == *old(game),
                }
            },
    {
        match self.state {
            SessionState::Closed => {
                return Vec::new();
            },
            _ => {},
        }
        self.state = SessionState::Closed;
        match self.entity_id {
            Some(eid) => {
                game.world.despawn_entity(eid);
            },
            None => {},
        }
        let mut events: Vec<GameEvent> = Vec::new();
        events.push(GameEvent::PlayerDisconnected {
            name: self.player_name.clone(),
            id: self.user_id,
        });
        events
    }
}

} // verus!
