//! Core data model: positions, tiles, entities, AI goals, factions,
//! historical events, and the wire-level message shapes.

use vstd::prelude::*;

verus! {

/// A 2D position in the tile world. Copied freely; used as a key for terrain
/// and as an attribute of entities.
#[derive(Debug, Clone, Copy, PartialEq, Eq, Structural)]
pub struct Position {
    pub x: i32,
    pub y: i32,
}

impl Position {
    pub fn new(x: i32, y: i32) -> (p: Position)
        ensures
            p.x == x,
            p.y == y,
    {
        Position { x, y }
    }

    /// The position offset by `(dx, dy)`.
    pub fn moved(&self, dx: i32, dy: i32) -> (p: Position)
        requires
            i32::MIN <= self.x + dx <= i32::MAX,
            i32::MIN <= self.y + dy <= i32::MAX,
        ensures
            p.x == self.x + dx,
            p.y == self.y + dy,
    {
        Position { x: self.x + dx, y: self.y + dy }
    }
}

#[derive(Debug, Clone, Copy, PartialEq, Eq, Structural)]
pub enum TerrainType {
    Grass,
    Water,
    Stone,
    Sand,
}

/// One terrain cell. Immutable once the world is generated.
#[derive(Debug, Clone, Copy, PartialEq, Eq, Structural)]
pub struct Tile {
    pub terrain: TerrainType,
    pub walkable: bool,
}

impl Tile {
    pub fn new(terrain: TerrainType, walkable: bool) -> (t: Tile)
        ensures
            t.terrain == terrain,
            t.walkable == walkable,
    {
        Tile { terrain, walkable }
    }

    pub fn grass() -> (t: Tile)
        ensures
            t.terrain == TerrainType::Grass,
            t.walkable == true,
    {
        Tile::new(TerrainType::Grass, true)
    }

    pub fn water() -> (t: Tile)
        ensures
            t.terrain == TerrainType::Water,
            t.walkable == false,
    {
        Tile::new(TerrainType::Water, false)
    }
}

#[derive(Debug, Clone, Copy, PartialEq, Eq, Structural)]
pub enum EntityType {
    Player,
    NPC,
    Animal,
}

/// An entity in the world (player, NPC or animal). Owned exclusively by the
/// world's entity layer; other components hold only the id.
#[derive(Debug, Clone, PartialEq)]
pub struct Entity {
    pub id: u32,
    pub name: String,
    pub pos: Position,
    pub entity_type: EntityType,
}

impl Entity {
    pub fn new(id: u32, name: String, pos: Position, entity_type: EntityType) -> (e: Entity)
        ensures
            e.id == id,
            e.name == name,
            e.pos == pos,
            e.entity_type == entity_type,
    {
        Entity { id, name, pos, entity_type }
    }

    /// An owned copy, equal to `self` field for field.
    pub fn duplicate(&self) -> (e: Entity)
        ensures
            e == *self,
    {
        Entity {
            id: self.id,
            name: self.name.clone(),
            pos: self.pos,
            entity_type: self.entity_type,
        }
    }
}

#[derive(Debug, Clone, Copy, PartialEq, Eq, Structural)]
pub enum FactionType {
    Human,
    Dwarf,
    Elf,
    Goblin,
    Wildlife,
}

#[derive(Debug, Clone, Copy, PartialEq, Eq, Structural)]
pub enum Relation {
    Allied,
    Friendly,
    Neutral,
    Hostile,
    War,
}

/// A faction: a data shape reserved for diplomacy logic, which is a declared
/// extension point with no behaviour in this engine.
#[derive(Debug, Clone, PartialEq)]
pub struct Faction {
    pub id: u32,
    pub name: String,
    pub faction_type: FactionType,
    pub territory: Vec<Position>,
    pub member_count: usize,
    pub relations: Vec<(u32, Relation)>,
}

/// The goal an AI-driven entity is currently pursuing. `Hunt`, `Flee`, `Guard`
/// and `Sleep` are recognized but intentionally inert in this engine.
#[derive(Debug, Clone, Copy, PartialEq, Eq, Structural)]
pub enum AIGoal {
    Wander,
    Hunt,
    Flee,
    Patrol { start: Position, end: Position },
    Guard { pos: Position },
    Sleep,
}

#[derive(Debug, Clone, PartialEq)]
pub struct Memory {
    pub event: String,
    pub tick: u64,
}

/// Personality weights in hundredths: each field ranges over 0..=100, standing
/// for a fraction of 1.
#[derive(Debug, Clone, Copy, PartialEq, Eq, Structural)]
pub struct Personality {
    pub aggression: u8,
    pub curiosity: u8,
    pub sociability: u8,
}

#[derive(Debug, Clone, PartialEq)]
pub struct AIBehavior {
    pub current_goal: AIGoal,
    pub memory: Vec<Memory>,
    pub personality: Personality,
}

#[derive(Debug, Clone, Copy, PartialEq, Eq, Structural)]
pub enum EventType {
    Birth,
    Death,
    Combat,
    FactionFounded,
    TerritoryConquered,
    Alliance,
    War,
}

/// One entry of the append-only historical event log.
#[derive(Debug, Clone)]
pub struct HistoricalEvent {
    pub id: u64,
    pub tick: u64,
    pub event_type: EventType,
    pub participants: Vec<u32>,
    pub location: Position,
    pub description: String,
}

/// An element-for-element copy of a list of ids.
pub fn copy_ids(v: &Vec<u32>) -> (r: Vec<u32>)
    ensures
        r@ == v@,
{
    let mut r: Vec<u32> = Vec::new();
    let n = v.len();
    let mut i: usize = 0;
    while i < n
        invariant
            n == v@.len(),
            i <= n,
            r@ == v@.take(i as int),
        decreases n - i,
    {
        r.push(v[i]);
        proof {
            assert(r@ =~= v@.take(i as int + 1));
        }
        i = i + 1;
    }
    proof {
        assert(v@.take(n as int) =~= v@);
    }
    r
}

/// Whether two historical events agree on every field; participant lists are
/// compared element for element.
pub open spec fn event_eq(a: HistoricalEvent, b: HistoricalEvent) -> bool {
    &&& a.id == b.id
    &&& a.tick == b.tick
    &&& a.event_type == b.event_type
    &&& a.participants@ == b.participants@
    &&& a.location == b.location
    &&& a.description == b.description
}

impl HistoricalEvent {
    /// An owned copy, agreeing with `self` field for field.
    pub fn duplicate(&self) -> (e: HistoricalEvent)
        ensures
            event_eq(e, *self),
    {
        HistoricalEvent {
            id: self.id,
            tick: self.tick,
            event_type: self.event_type,
            participants: copy_ids(&self.participants),
            location: self.location,
            description: self.description.clone(),
        }
    }
}

/// Messages from the server to a client.
#[derive(Debug, Clone)]
pub enum ServerMessage {
    /// A full update of the world visible to the client.
    WorldUpdate { tiles: Vec<(Position, Tile)>, entities: Vec<Entity> },
    /// Acknowledgement of an action.
    ActionResult { success: bool, message: String },
}

/// Messages from a client to the server.
#[derive(Debug, Clone)]
pub enum ClientMessage {
    /// A movement intent.
    Move { dx: i32, dy: i32 },
    /// The initial login intent.
    Login { player_name: String },
}

#[derive(Debug, Clone, Copy, PartialEq, Eq, Structural)]
pub enum UserRole {
    Player,
    Admin,
}

/// A registered account. The id is a 128-bit value standing for the account's
/// UUID; `created_at` is a Unix timestamp in seconds.
#[derive(Debug, Clone)]
pub struct User {
    pub id: u128,
    pub username: String,
    pub password_hash: String,
    pub created_at: i64,
    pub role: UserRole,
}

/// An authenticated session. The token is a 128-bit value standing for the
/// session's UUID; `expires_at` is a Unix timestamp in seconds.
#[derive(Debug, Clone)]
pub struct Session {
    pub token: u128,
    pub user_id: u128,
    pub expires_at: i64,
    pub ip_address: String,
}

impl User {
    /// An owned copy, equal to `self` field for field.
    pub fn duplicate(&self) -> (u: User)
        ensures
            u == *self,
    {
        User {
            id: self.id,
            username: self.username.clone(),
            password_hash: self.password_hash.clone(),
            created_at: self.created_at,
            role: self.role,
        }
    }
}

impl Session {
    /// An owned copy, equal to `self` field for field.
    pub fn duplicate(&self) -> (s: Session)
        ensures
            s == *self,
    {
        Session {
            token: self.token,
            user_id: self.user_id,
            expires_at: self.expires_at,
            ip_address: self.ip_address.clone(),
        }
    }
}

#[derive(Debug, Clone)]
pub struct LoginRequest {
    pub username: String,
    pub password: String,
}

#[derive(Debug, Clone)]
pub struct LoginResponse {
    pub success: bool,
    pub token: Option<u128>,
    pub message: String,
    pub role: Option<UserRole>,
}

#[derive(Debug, Clone)]
pub struct AuthenticatedMessage {
    pub token: u128,
    pub message: ClientMessage,
}

} // verus!
