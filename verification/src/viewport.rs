//! Renderer-facing viewport shapes and the fixed terrain and entity glyph
//! tables that clients depend on.

use vstd::prelude::*;

use crate::types::{Entity, EntityType, Position, Tile, TerrainType};
use vstd::string::StringExecFns;

verus! {

/// One rendered terrain cell: a glyph with foreground and background colors.
#[derive(Debug, Clone)]
pub struct TileData {
    pub x: i32,
    pub y: i32,
    pub glyph: char,
    pub fg_color: String,
    pub bg_color: String,
}

/// One rendered entity: a glyph with a color.
#[derive(Debug, Clone)]
pub struct EntityData {
    pub x: i32,
    pub y: i32,
    pub glyph: char,
    pub color: String,
    pub name: String,
}

/// The rectangular window of terrain and entities sent to a client.
#[derive(Debug, Clone)]
pub struct ViewportData {
    pub tiles: Vec<TileData>,
    pub entities: Vec<EntityData>,
    pub player_pos: Position,
    pub width: i32,
    pub height: i32,
}

/// One per-tick message to a gameplay session: the tick number and the
/// session's viewport.
#[derive(Debug, Clone)]
pub struct GameUpdate {
    pub tick: u64,
    pub viewport: ViewportData,
}

/// The glyph drawn for each terrain kind.
pub open spec fn terrain_glyph(t: TerrainType) -> char {
    match t {
        TerrainType::Grass => '\u{2591}',
        TerrainType::Water => '\u{2248}',
        TerrainType::Stone => '\u{2588}',
        TerrainType::Sand => '\u{00b7}',
    }
}

/// The foreground color drawn for each terrain kind.
pub open spec fn terrain_fg(t: TerrainType) -> Seq<char> {
    match t {
        TerrainType::Grass => "#4a4"@,
        TerrainType::Water => "#24a"@,
        TerrainType::Stone => "#888"@,
        TerrainType::Sand => "#dc6"@,
    }
}

/// The background color drawn for each terrain kind.
pub open spec fn terrain_bg(t: TerrainType) -> Seq<char> {
    match t {
        TerrainType::Grass => "#232"@,
        TerrainType::Water => "#012"@,
        TerrainType::Stone => "#444"@,
        TerrainType::Sand => "#a94"@,
    }
}

/// The glyph drawn for each entity kind.
pub open spec fn entity_glyph(k: EntityType) -> char {
    match k {
        EntityType::Player => '@',
        EntityType::NPC => 'H',
        EntityType::Animal => 'd',
    }
}

/// The color drawn for each entity kind.
pub open spec fn entity_color(k: EntityType) -> Seq<char> {
    match k {
        EntityType::Player => "#ff0"@,
        EntityType::NPC => "#0af"@,
        EntityType::Animal => "#fa0"@,
    }
}

/// The `(glyph, foreground, background)` triple for a tile, exactly as the
/// fixed table prescribes.
pub fn tile_to_glyph(tile: &Tile) -> (r: (char, String, String))
    ensures
        r.0 == terrain_glyph(tile.terrain),
        r.1@ == terrain_fg(tile.terrain),
        r.2@ == terrain_bg(tile.terrain),
{
    match tile.terrain {
        TerrainType::Grass => (
            '\u{2591}',
            String::from_str("#4a4"),
            String::from_str("#232"),
        ),
        TerrainType::Water => (
            '\u{2248}',
            String::from_str("#24a"),
            String::from_str("#012"),
        ),
        TerrainType::Stone => (
            '\u{2588}',
            String::from_str("#888"),
            String::from_str("#444"),
        ),
        TerrainType::Sand => (
            '\u{00b7}',
            String::from_str("#dc6"),
            String::from_str("#a94"),
        ),
    }
}

/// The `(glyph, color)` pair for an entity, exactly as the fixed table
/// prescribes.
pub fn entity_to_glyph(entity: &Entity) -> (r: (char, String))
    ensures
        r.0 == entity_glyph(entity.entity_type),
        r.1@ == entity_color(entity.entity_type),
{
    match entity.entity_type {
        EntityType::Player => ('@', String::from_str("#ff0")),
        EntityType::NPC => ('H', String::from_str("#0af")),
        EntityType::Animal => ('d', String::from_str("#fa0")),
    }
}

} // verus!
