use tileworld::hub::{EventHub, GameEvent};
use tileworld::types::Position;

#[test]
fn test_event_hub() {
    let hub = EventHub::new();
    let mut rx = hub.subscribe();

    hub.broadcast(GameEvent::WorldTick { tick: 1, active_players: 0, total_entities: 0 });

    assert!(rx.try_next().is_some());
}

// Two subscribers both receive the identical published event; a subscriber
// that joins after the publish receives nothing.
#[test]
fn scenario_broadcast_fanout() {
    let hub = EventHub::new();
    let mut first = hub.subscribe();
    let mut second = hub.subscribe();

    let event = GameEvent::PlayerSpawned { name: "A".to_string(), pos: Position::new(3, 3) };
    hub.broadcast(event.clone());

    let got_first = first.try_next().expect("first subscriber misses the event");
    let got_second = second.try_next().expect("second subscriber misses the event");
    assert_eq!(got_first, event);
    assert_eq!(got_second, event);

    let mut late = hub.subscribe();
    assert!(late.try_next().is_none());

    assert!(first.try_next().is_none());
}

// Events arrive in publish order for each subscriber.
#[test]
fn broadcast_preserves_publish_order() {
    let hub = EventHub::new();
    let mut rx = hub.subscribe();
    let a = GameEvent::WorldTick { tick: 1, active_players: 0, total_entities: 0 };
    let b = GameEvent::WorldTick { tick: 2, active_players: 0, total_entities: 0 };
    hub.broadcast_all(&vec![a.clone(), b.clone()]);
    assert_eq!(rx.try_next(), Some(a));
    assert_eq!(rx.try_next(), Some(b));
    assert_eq!(rx.try_next(), None);
}
