use tileworld::types::{Entity, EntityType, Position, TerrainType, Tile};

#[test]
fn test_position_creation() {
    let pos = Position::new(5, 10);
    assert_eq!(pos.x, 5);
    assert_eq!(pos.y, 10);
}

#[test]
fn test_position_moved() {
    let pos = Position::new(0, 0);
    let new_pos = pos.moved(3, -2);
    assert_eq!(new_pos, Position::new(3, -2));
}

#[test]
fn test_tile_creation() {
    let grass = Tile::grass();
    assert!(grass.walkable);
    assert_eq!(grass.terrain, TerrainType::Grass);

    let water = Tile::water();
    assert!(!water.walkable);
    assert_eq!(water.terrain, TerrainType::Water);
}

#[test]
fn test_entity_creation() {
    let entity = Entity::new(1, "TestPlayer".to_string(), Position::new(0, 0), EntityType::Player);
    assert_eq!(entity.id, 1);
    assert_eq!(entity.name, "TestPlayer");
    assert_eq!(entity.entity_type, EntityType::Player);
}

#[test]
fn entity_duplicate_copies_every_field() {
    let entity = Entity::new(7, "Dup".to_string(), Position::new(2, 3), EntityType::Animal);
    let copy = entity.duplicate();
    assert_eq!(copy, entity);
}
