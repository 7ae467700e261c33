use tileworld::hub::GameEvent;
use tileworld::session::{GameState, SessionCoordinator, SessionState};
use tileworld::types::{Entity, EntityType, Position, Tile, TerrainType};
use tileworld::viewport::{entity_to_glyph, tile_to_glyph};

#[test]
fn test_game_state_creation() {
    let state = GameState::new();
    assert_eq!(state.players.len(), 0);
}

#[test]
fn test_spawn_player() {
    let mut state = GameState::new();
    let id = state.spawn_player("TestPlayer".to_string());
    assert!(id.is_some());
    assert_eq!(state.players.len(), 1);
}

#[test]
fn glyph_table_for_terrain() {
    let cases = [
        (TerrainType::Grass, '\u{2591}', "#4a4", "#232"),
        (TerrainType::Water, '\u{2248}', "#24a", "#012"),
        (TerrainType::Stone, '\u{2588}', "#888", "#444"),
        (TerrainType::Sand, '\u{00b7}', "#dc6", "#a94"),
    ];
    for (terrain, glyph, fg, bg) in cases {
        let walkable = !matches!(terrain, TerrainType::Water);
        let (g, f, b) = tile_to_glyph(&Tile::new(terrain, walkable));
        assert_eq!(g, glyph);
        assert_eq!(f, fg);
        assert_eq!(b, bg);
    }
}

#[test]
fn glyph_table_for_entities() {
    let cases = [
        (EntityType::Player, '@', "#ff0"),
        (EntityType::NPC, 'H', "#0af"),
        (EntityType::Animal, 'd', "#fa0"),
    ];
    for (kind, glyph, color) in cases {
        let entity = Entity::new(1, "E".to_string(), Position::new(0, 0), kind);
        let (g, c) = entity_to_glyph(&entity);
        assert_eq!(g, glyph);
        assert_eq!(c, color);
    }
}

// The viewport is always a full square: cells outside the world are listed
// with the void glyph, never omitted.
#[test]
fn viewport_is_always_a_full_square() {
    let mut state = GameState::new();
    let id = state.spawn_player("P".to_string()).unwrap();
    let viewport = state.get_viewport(id, 15).unwrap();
    assert_eq!(viewport.width, 31);
    assert_eq!(viewport.height, 31);
    assert_eq!(viewport.tiles.len(), 31 * 31);
    assert_eq!(viewport.player_pos, Position::new(10, 10));

    // the player stands at (10, 10): the column x = -5 lies outside the world
    let void = viewport.tiles.iter().find(|t| t.x == -5 && t.y == 10).unwrap();
    assert_eq!(void.glyph, ' ');
    assert_eq!(void.fg_color, "#000");
    assert_eq!(void.bg_color, "#000");

    let inside = viewport.tiles.iter().find(|t| t.x == 10 && t.y == 10).unwrap();
    assert_ne!(inside.glyph, ' ');

    assert_eq!(viewport.entities.len(), 1);
    assert_eq!(viewport.entities[0].name, "P");
    assert_eq!(viewport.entities[0].glyph, '@');
}

#[test]
fn viewport_of_unknown_entity_is_absent() {
    let state = GameState::new();
    assert!(state.get_viewport(42, 15).is_none());
}

// Login walks the session from Unauthenticated to Active, binds the entity,
// and decides to publish exactly the connect and spawn events.
#[test]
fn session_login_transitions_and_events() {
    let mut game = GameState::new();
    let mut session = SessionCoordinator::new(77);
    assert_eq!(session.state, SessionState::Unauthenticated);

    let (reply, events) = session.handle_login(&mut game, "Ada".to_string());
    assert_eq!(session.state, SessionState::Active);
    assert_eq!(session.entity_id, Some(1));
    let update = reply.unwrap();
    assert_eq!(update.tick, 0);
    assert_eq!(update.viewport.player_pos, Position::new(10, 10));
    assert_eq!(
        events,
        vec![
            GameEvent::PlayerConnected { name: "Ada".to_string(), id: 77 },
            GameEvent::PlayerSpawned { name: "Ada".to_string(), pos: Position::new(10, 10) },
        ]
    );

    // a second login on the same session is ignored
    let (reply, events) = session.handle_login(&mut game, "Ada".to_string());
    assert!(reply.is_none());
    assert!(events.is_empty());
}

// A move produces a PlayerMoved event exactly when the position changed, and
// a viewport is returned even for a rejected move.
#[test]
fn session_move_events_and_viewport() {
    let mut game = GameState::new();
    let mut session = SessionCoordinator::new(1);
    session.handle_login(&mut game, "Ada".to_string());

    let (reply, events) = session.handle_move(&mut game, 1, 0);
    assert!(reply.is_some());
    assert_eq!(
        events,
        vec![GameEvent::PlayerMoved {
            name: "Ada".to_string(),
            from: Position::new(10, 10),
            to: Position::new(11, 10),
        }]
    );

    // a zero step succeeds but changes nothing: no event, fresh viewport
    let (reply, events) = session.handle_move(&mut game, 0, 0);
    assert!(reply.is_some());
    assert!(events.is_empty());

    // a move far out of bounds is rejected, but the viewport still refreshes
    let (reply, events) = session.handle_move(&mut game, -100, 0);
    assert!(reply.is_some());
    assert!(events.is_empty());
    assert_eq!(game.world.get_entity(1).unwrap().pos, Position::new(11, 10));
}

// Closing fires the disconnect decision exactly once, despawns the entity,
// and a second close (the other direction of the connection racing in) is a
// no-op.
#[test]
fn session_close_fires_exactly_once() {
    let mut game = GameState::new();
    let mut session = SessionCoordinator::new(9);
    session.handle_login(&mut game, "Ada".to_string());
    assert_eq!(game.world.entity_count(), 1);

    let events = session.close(&mut game);
    assert_eq!(session.state, SessionState::Closed);
    assert_eq!(game.world.entity_count(), 0);
    assert_eq!(
        events,
        vec![GameEvent::PlayerDisconnected { name: "Ada".to_string(), id: 9 }]
    );

    let again = session.close(&mut game);
    assert!(again.is_empty());
}

#[test]
fn session_move_before_login_is_ignored() {
    let mut game = GameState::new();
    let mut session = SessionCoordinator::new(5);
    let (reply, events) = session.handle_move(&mut game, 1, 0);
    assert!(reply.is_none());
    assert!(events.is_empty());
    assert_eq!(game.world.entity_count(), 0);
}

#[test]
fn broadcast_tick_updates_runs_over_players() {
    let mut state = GameState::new();
    state.spawn_player("A".to_string());
    state.spawn_player("B".to_string());
    // nothing to observe without subscribers; this must simply not block
    state.broadcast_tick_updates();
}
