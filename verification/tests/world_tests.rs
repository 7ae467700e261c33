use tileworld::types::{EntityType, Position, TerrainType};
use tileworld::world::{World, WorldConfig};

fn small_lake(width: i32, height: i32) -> World {
    World::new_with_config(width, height, WorldConfig { lake_radius_sq: 1, border_thickness: 2 })
}

fn no_lake(width: i32, height: i32) -> World {
    World::new_with_config(width, height, WorldConfig { lake_radius_sq: 0, border_thickness: 2 })
}

#[test]
fn test_world_creation() {
    let world = World::new(20, 20);
    assert_eq!(world.dimensions(), (20, 20));
    assert_eq!(world.entity_count(), 0);
}

#[test]
fn test_terrain_generation() {
    let world = World::new(10, 10);

    let center_tile = world.get_tile(Position::new(5, 5)).unwrap();
    assert_eq!(center_tile.terrain, TerrainType::Water);
    assert!(!center_tile.walkable);

    let corner_tile = world.get_tile(Position::new(0, 0)).unwrap();
    assert_eq!(corner_tile.terrain, TerrainType::Stone);
}

#[test]
fn test_spawn_entity() {
    let mut world = small_lake(10, 10);

    let id = world.spawn_entity("TestPlayer".to_string(), Position::new(3, 3), EntityType::Player);

    assert!(id.is_some());
    assert_eq!(world.entity_count(), 1);
}

#[test]
fn test_spawn_on_water_fails() {
    let mut world = World::new(10, 10);

    let id = world.spawn_entity("Player".to_string(), Position::new(5, 5), EntityType::Player);

    assert!(id.is_none());
}

#[test]
fn test_move_entity() {
    let mut world = small_lake(10, 10);

    let id = world
        .spawn_entity("Player".to_string(), Position::new(3, 3), EntityType::Player)
        .unwrap();

    let success = world.move_entity(id, 1, 0);
    assert!(success);

    let entity = world.get_entity(id).unwrap();
    assert_eq!(entity.pos, Position::new(4, 3));
}

#[test]
fn test_move_into_water_fails() {
    let mut world = small_lake(10, 10);

    let id = world
        .spawn_entity("Player".to_string(), Position::new(4, 5), EntityType::Player)
        .unwrap();

    let success = world.move_entity(id, 1, 0);
    assert!(!success);

    let entity = world.get_entity(id).unwrap();
    assert_eq!(entity.pos, Position::new(4, 5));
}

#[test]
fn test_move_out_of_bounds() {
    let mut world = World::new(10, 10);

    let id = world
        .spawn_entity("Player".to_string(), Position::new(0, 0), EntityType::Player)
        .unwrap();

    let success = world.move_entity(id, -1, 0);
    assert!(!success);
}

#[test]
fn test_despawn_entity() {
    let mut world = small_lake(10, 10);

    let id = world
        .spawn_entity("Player".to_string(), Position::new(3, 3), EntityType::Player)
        .unwrap();

    assert!(world.despawn_entity(id));
    assert_eq!(world.entity_count(), 0);
    assert!(world.get_entity(id).is_none());
}

#[test]
fn test_get_entities_in_region() {
    let mut world = no_lake(20, 20);

    world.spawn_entity("P1".to_string(), Position::new(10, 10), EntityType::Player);
    world.spawn_entity("P2".to_string(), Position::new(11, 11), EntityType::Player);
    world.spawn_entity("P3".to_string(), Position::new(15, 15), EntityType::Player);

    let nearby = world.get_entities_in_region(Position::new(10, 10), 2);
    assert_eq!(nearby.len(), 2);
}

#[test]
fn test_visible_snapshot() {
    let mut world = no_lake(20, 20);

    world.spawn_entity("P1".to_string(), Position::new(10, 10), EntityType::Player);

    let snapshot = world.get_visible_snapshot(Position::new(10, 10), 3);

    assert!(snapshot.tiles.len() > 0);
    assert_eq!(snapshot.entities.len(), 1);
}

#[test]
fn test_world_tick() {
    let mut world = World::new(20, 20);
    let initial_tick = world.get_current_tick();

    world.tick();

    assert_eq!(world.get_current_tick(), initial_tick + 1);
}

#[test]
fn test_npc_spawning() {
    let mut world = no_lake(20, 20);
    world.spawn_initial_npcs();
    let npcs = world
        .get_all_entities()
        .iter()
        .filter(|e| e.entity_type == EntityType::NPC)
        .count();

    assert_eq!(npcs, 5);
}

#[test]
fn test_world_integration() {
    let mut world = small_lake(10, 10);
    let id = world.spawn_entity("TestPlayer".to_string(), Position::new(3, 3), EntityType::Player);
    assert!(id.is_some());
}

// A 10 by 10 world with only its central cell under water: the first spawn
// gets id 1, a spawn on the lake center fails, a legal move lands exactly one
// cell over, and a move into the water leaves the position untouched.
#[test]
fn scenario_small_world_walkthrough() {
    let mut world = small_lake(10, 10);

    let a = world.spawn_entity("A".to_string(), Position::new(3, 3), EntityType::Player);
    assert_eq!(a, Some(1));
    let a = a.unwrap();

    let b = world.spawn_entity("B".to_string(), Position::new(5, 5), EntityType::Player);
    assert_eq!(b, None);

    assert!(world.move_entity(a, 1, 0));
    assert_eq!(world.get_entity(a).unwrap().pos, Position::new(4, 3));

    assert!(world.move_entity(a, 0, 1));
    assert!(world.move_entity(a, 0, 1));
    assert_eq!(world.get_entity(a).unwrap().pos, Position::new(4, 5));

    assert!(!world.move_entity(a, 1, 0));
    assert_eq!(world.get_entity(a).unwrap().pos, Position::new(4, 5));
}

// 100 ticks on a world with at least two entities produce a Combat event
// stamped with tick 100 and naming the first two entities by id.
#[test]
fn scenario_hundred_ticks_combat_event() {
    let mut world = World::new(20, 20);
    let first = world
        .spawn_entity("A".to_string(), Position::new(3, 3), EntityType::Player)
        .unwrap();
    let second = world
        .spawn_entity("B".to_string(), Position::new(3, 4), EntityType::Player)
        .unwrap();

    for _ in 0..100 {
        world.tick();
    }

    let events = world.get_historical_events(10);
    assert!(events.len() >= 1);
    let combat = events.iter().find(|e| e.tick == 100).unwrap();
    assert_eq!(combat.event_type, tileworld::types::EventType::Combat);
    assert_eq!(combat.participants, vec![first, second]);
    assert_eq!(combat.location, Position::new(10, 10));
    assert_eq!(combat.description, "A skirmish occurred in the grasslands");
}

// Every generated cell obeys the terrain policy: water within the lake
// radius, stone on the border band outside the lake, grass elsewhere; water
// is the only unwalkable terrain.
#[test]
fn terrain_policy_over_every_cell() {
    let world = World::new(30, 30);
    for x in 0..30 {
        for y in 0..30 {
            let tile = world.get_tile(Position::new(x, y)).unwrap();
            let dx = (x - 15i32).abs();
            let dy = (y - 15i32).abs();
            let water = dx * dx + dy * dy < 9;
            let stone = x < 2 || x >= 28 || y < 2 || y >= 28;
            if water {
                assert_eq!(tile.terrain, TerrainType::Water);
                assert!(!tile.walkable);
            } else if stone {
                assert_eq!(tile.terrain, TerrainType::Stone);
                assert!(tile.walkable);
            } else {
                assert_eq!(tile.terrain, TerrainType::Grass);
                assert!(tile.walkable);
            }
        }
    }
}

// Ids keep increasing after a despawn: a freed id is never handed out again.
#[test]
fn ids_never_reused_after_despawn() {
    let mut world = no_lake(20, 20);
    let a = world
        .spawn_entity("A".to_string(), Position::new(5, 5), EntityType::Player)
        .unwrap();
    assert_eq!(a, 1);
    assert!(world.despawn_entity(a));
    let b = world
        .spawn_entity("B".to_string(), Position::new(5, 5), EntityType::Player)
        .unwrap();
    assert_eq!(b, 2);
    let c = world
        .spawn_entity("C".to_string(), Position::new(6, 6), EntityType::Animal)
        .unwrap();
    assert_eq!(c, 3);
}

// A zero radius selects exactly the entity standing on the center cell.
#[test]
fn region_radius_zero_selects_center_only() {
    let mut world = no_lake(20, 20);
    world.spawn_entity("Here".to_string(), Position::new(10, 10), EntityType::Player);
    world.spawn_entity("Near".to_string(), Position::new(10, 11), EntityType::Player);

    let exact = world.get_entities_in_region(Position::new(10, 10), 0);
    assert_eq!(exact.len(), 1);
    assert_eq!(exact[0].name, "Here");

    let negative = world.get_entities_in_region(Position::new(10, 10), -1);
    assert_eq!(negative.len(), 0);
}

// A snapshot near the corner lists every in-bounds cell of the square and
// omits exactly the cells outside the generated bounds.
#[test]
fn snapshot_clips_to_world_bounds() {
    let world = World::new(10, 10);
    let snapshot = world.get_visible_snapshot(Position::new(0, 0), 2);
    assert_eq!(snapshot.tiles.len(), 9);
    for (pos, _) in &snapshot.tiles {
        assert!(0 <= pos.x && pos.x <= 2);
        assert!(0 <= pos.y && pos.y <= 2);
    }
}

// A wandering NPC is carried around by the tick counter: after a tick whose
// step is blocked it simply stays put, and the world stays well-formed.
#[test]
fn wander_step_follows_tick_counter() {
    let mut world = no_lake(20, 20);
    world.spawn_initial_npcs();
    let before: Vec<Position> = world.get_all_entities().iter().map(|e| e.pos).collect();
    world.tick();
    // tick 1: dx = 1 % 3 - 1 = 0, dy = (1 / 3) % 3 - 1 = -1.
    let after: Vec<Position> = world.get_all_entities().iter().map(|e| e.pos).collect();
    for (b, a) in before.iter().zip(after.iter()) {
        let target = Position::new(b.x, b.y - 1);
        let blocked = world.get_tile(target).map(|t| !t.walkable).unwrap_or(true);
        if blocked {
            assert_eq!(a, b);
        } else {
            assert_eq!(*a, target);
        }
    }
}

#[test]
fn historical_events_respect_limit() {
    let mut world = no_lake(20, 20);
    world.spawn_entity("A".to_string(), Position::new(5, 5), EntityType::Player);
    world.spawn_entity("B".to_string(), Position::new(6, 6), EntityType::Player);
    for _ in 0..300 {
        world.tick();
    }
    assert_eq!(world.get_historical_events(10).len(), 3);
    assert_eq!(world.get_historical_events(2).len(), 2);
    let last_two = world.get_historical_events(2);
    assert_eq!(last_two[0].tick, 200);
    assert_eq!(last_two[1].tick, 300);
}

#[test]
fn entity_ids_listing_matches_entities() {
    let mut world = no_lake(20, 20);
    world.spawn_entity("A".to_string(), Position::new(5, 5), EntityType::Player);
    world.spawn_entity("B".to_string(), Position::new(6, 6), EntityType::NPC);
    let ids = world.get_entity_ids();
    assert_eq!(ids, vec![1, 2]);
}
