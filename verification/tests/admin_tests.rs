use tileworld::admin::{AdminEvent, AdminState, GameStats, ServerStats};

#[test]
fn test_admin_state_creation() {
    let state = AdminState::new();
    assert_eq!(state.events.len(), 0);
}

#[test]
fn test_log_event() {
    let mut state = AdminState::new();
    state.log_event(AdminEvent::WorldTick { tick: 1 });
    assert_eq!(state.events.len(), 1);
}

#[test]
fn test_event_limit() {
    let mut state = AdminState::new();
    state.max_events = 3;

    for i in 0..5 {
        state.log_event(AdminEvent::WorldTick { tick: i });
    }

    assert_eq!(state.events.len(), 3);
}

#[test]
fn event_limit_drops_oldest_first() {
    let mut state = AdminState::new();
    state.max_events = 2;
    for i in 0..4 {
        state.log_event(AdminEvent::WorldTick { tick: i });
    }
    assert_eq!(
        state.events,
        vec![AdminEvent::WorldTick { tick: 2 }, AdminEvent::WorldTick { tick: 3 }]
    );
}

#[test]
fn recent_events_take_the_tail() {
    let mut state = AdminState::new();
    for i in 0..10 {
        state.log_event(AdminEvent::WorldTick { tick: i });
    }
    let recent = state.get_recent_events(3);
    assert_eq!(
        recent,
        vec![
            AdminEvent::WorldTick { tick: 7 },
            AdminEvent::WorldTick { tick: 8 },
            AdminEvent::WorldTick { tick: 9 },
        ]
    );
    assert_eq!(state.get_recent_events(50).len(), 10);
}

#[test]
fn server_stats_compose_from_game_snapshot() {
    let stats = GameStats {
        world_size: (50, 40),
        total_entities: 7,
        active_players: 3,
        current_tick: 123,
    };
    let composed = ServerStats::from_game(&stats, 60);
    assert_eq!(composed.uptime_seconds, 60);
    assert_eq!(composed.total_players, 3);
    assert_eq!(composed.active_players, 3);
    assert_eq!(composed.world_size, (50, 40));
    assert_eq!(composed.total_entities, 7);
    assert_eq!(composed.total_tiles, 2000);
    assert_eq!(composed.ticks_processed, 123);
}
