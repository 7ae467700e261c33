//! The spatial world store: procedurally generated terrain, the entity layer,
//! AI behaviors, the historical event log, and the tick scheduler that
//! advances them.
//!
//! All positional invariants are enforced here: every live entity stands on an
//! in-bounds, walkable tile, and entity ids are strictly increasing and never
//! reused, even after a despawn.

use vstd::prelude::*;

use crate::types::{AIBehavior, AIGoal, Entity, EntityType, EventType, Faction, HistoricalEvent,
    Memory, Personality, Position, Tile, TerrainType};
use vstd::string::StringExecFns;

verus! {

/// The terrain generation policy: a central circular lake (squared-distance
/// threshold) and a border band of stone of the given thickness.
#[derive(Debug, Clone, Copy, PartialEq, Eq, Structural)]
pub struct WorldConfig {
    /// A cell is water when its squared distance to the map center is below
    /// this threshold.
    pub lake_radius_sq: i32,
    /// Thickness, in tiles, of the stone band along each edge of the map.
    pub border_thickness: i32,
}

impl WorldConfig {
    /// The documented default policy: lake of squared radius below 9, border
    /// band two tiles thick.
    pub fn standard() -> (c: WorldConfig)
        ensures
            c == (WorldConfig { lake_radius_sq: 9, border_thickness: 2 }),
    {
        WorldConfig { lake_radius_sq: 9, border_thickness: 2 }
    }

    pub open spec fn valid(self) -> bool {
        0 <= self.lake_radius_sq && 0 <= self.border_thickness
    }
}

/// Whether `(x, y)` lies inside a `width` by `height` map.
pub open spec fn in_bounds(width: int, height: int, x: int, y: int) -> bool {
    0 <= x < width && 0 <= y < height
}

/// Whether the generated cell `(x, y)` belongs to the central lake.
pub open spec fn water_region(cfg: WorldConfig, width: int, height: int, x: int, y: int) -> bool {
    let cx = width / 2;
    let cy = height / 2;
    let dx = if x >= cx { x - cx } else { cx - x };
    let dy = if y >= cy { y - cy } else { cy - y };
    dx * dx + dy * dy < cfg.lake_radius_sq
}

/// Whether the generated cell `(x, y)` belongs to the stone border band.
pub open spec fn stone_region(cfg: WorldConfig, width: int, height: int, x: int, y: int) -> bool {
    x < cfg.border_thickness || x >= width - cfg.border_thickness
        || y < cfg.border_thickness || y >= height - cfg.border_thickness
}

/// The tile generated at cell `(x, y)`: water in the lake, stone on the
/// border, grass elsewhere. Water is the only unwalkable terrain.
pub open spec fn spec_tile(cfg: WorldConfig, width: int, height: int, x: int, y: int) -> Tile {
    if water_region(cfg, width, height, x, y) {
        Tile { terrain: TerrainType::Water, walkable: false }
    } else if stone_region(cfg, width, height, x, y) {
        Tile { terrain: TerrainType::Stone, walkable: true }
    } else {
        Tile { terrain: TerrainType::Grass, walkable: true }
    }
}

/// Chebyshev distance between two positions: the larger of the coordinate
/// distances, so that a fixed distance bound describes a square region.
pub open spec fn chebyshev(a: Position, b: Position) -> int {
    let dx = if a.x >= b.x { a.x - b.x } else { b.x - a.x };
    let dy = if a.y >= b.y { a.y - b.y } else { b.y - a.y };
    if dx >= dy { dx } else { dy }
}

/// Row-major index arithmetic: a cell of an earlier row sits strictly below
/// the start of row `y`.
pub proof fn lemma_earlier_row_index(width: int, xx: int, yy: int, y: int)
    requires
        0 <= xx < width,
        0 <= yy < y,
    ensures
        0 <= yy * width + xx < y * width,
{
    assert(0 <= yy * width + xx < y * width) by (nonlinear_arith)
        requires
            0 <= xx < width,
            0 <= yy < y,
    ;
}

/// Row-major index arithmetic: every in-bounds cell maps below the area.
proof fn lemma_row_major_bounds(width: int, height: int, x: int, y: int)
    requires
        0 <= x < width,
        0 <= y < height,
    ensures
        0 <= y * width + x < width * height,
{
    assert(0 <= y * width + x < width * height) by (nonlinear_arith)
        requires
            0 <= x < width,
            0 <= y < height,
    ;
}

/// The area of a bounded map fits comfortably in a 32-bit count.
proof fn lemma_area_bound(width: int, height: int)
    requires
        1 <= width <= 10000,
        1 <= height <= 10000,
    ensures
        width * height <= 100000000,
{
    assert(width * height <= 100000000) by (nonlinear_arith)
        requires
            1 <= width <= 10000,
            1 <= height <= 10000,
    ;
}

/// The bounded set of terrain cells and entities one client should see.
pub struct WorldSnapshot {
    pub tiles: Vec<(Position, Tile)>,
    pub entities: Vec<Entity>,
}

/// The layered world store. Terrain is generated once and never changes;
/// entities and the event log evolve through the public operations.
pub struct World {
    /// Terrain cells in row-major order: the tile at `(x, y)` sits at index
    /// `y * width + x`.
    terrain_layer: Vec<Tile>,
    /// Live entities, sorted by strictly increasing id.
    entity_layer: Vec<Entity>,
    /// AI behaviors, keyed by entity id; at most one entry per id.
    ai_behaviors: Vec<(u32, AIBehavior)>,
    /// Factions: a data shape for the diplomacy extension point.
    factions: Vec<Faction>,
    /// Append-only log of historical events, ids strictly increasing.
    historical_events: Vec<HistoricalEvent>,
    width: i32,
    height: i32,
    config: WorldConfig,
    next_entity_id: u32,
    next_faction_id: u32,
    next_event_id: u64,
    current_tick: u64,
}

impl World {
    pub closed spec fn spec_width(self) -> int {
        self.width as int
    }

    pub closed spec fn spec_height(self) -> int {
        self.height as int
    }

    pub closed spec fn spec_config(self) -> WorldConfig {
        self.config
    }

    pub closed spec fn spec_entities(self) -> Seq<Entity> {
        self.entity_layer@
    }

    pub closed spec fn spec_behaviors(self) -> Seq<(u32, AIBehavior)> {
        self.ai_behaviors@
    }

    pub closed spec fn spec_events(self) -> Seq<HistoricalEvent> {
        self.historical_events@
    }

    pub closed spec fn spec_next_entity_id(self) -> u32 {
        self.next_entity_id
    }

    pub closed spec fn spec_next_event_id(self) -> u64 {
        self.next_event_id
    }

    pub closed spec fn spec_tick_count(self) -> u64 {
        self.current_tick
    }

    pub closed spec fn spec_terrain_len(self) -> nat {
        self.terrain_layer@.len()
    }

    pub closed spec fn spec_terrain_at(self, x: int, y: int) -> Tile {
        self.terrain_layer@[y * self.spec_width() + x]
    }

    /// The tile generated at `(x, y)` under this world's own policy.
    pub open spec fn tile_at(self, x: int, y: int) -> Tile {
        spec_tile(self.spec_config(), self.spec_width(), self.spec_height(), x, y)
    }

    /// Whether an entity may stand at `pos`: in bounds and on walkable ground.
    pub open spec fn can_stand(self, pos: Position) -> bool {
        &&& in_bounds(self.spec_width(), self.spec_height(), pos.x as int, pos.y as int)
        &&& self.tile_at(pos.x as int, pos.y as int).walkable
    }

    /// Whether some live entity carries the given id.
    pub open spec fn has_entity(self, id: u32) -> bool {
        exists|i: int|
            0 <= i < self.spec_entities().len() && (#[trigger] self.spec_entities()[i]).id == id
    }

    /// The index of the live entity with the given id (meaningful only when
    /// `has_entity` holds; unique under `wf` because ids strictly increase).
    pub open spec fn entity_index(self, id: u32) -> int {
        choose|i: int|
            0 <= i < self.spec_entities().len() && (#[trigger] self.spec_entities()[i]).id == id
    }

    /// The live entity with the given id.
    pub open spec fn entity_by_id(self, id: u32) -> Entity {
        self.spec_entities()[self.entity_index(id)]
    }

    /// Whether some behavior entry is keyed by the given entity id.
    pub open spec fn has_behavior(self, id: u32) -> bool {
        exists|i: int|
            0 <= i < self.spec_behaviors().len() && (#[trigger] self.spec_behaviors()[i]).0 == id
    }

    /// The index of the behavior entry keyed by the given entity id.
    pub open spec fn behavior_index(self, id: u32) -> int {
        choose|i: int|
            0 <= i < self.spec_behaviors().len() && (#[trigger] self.spec_behaviors()[i]).0 == id
    }

    /// Well-formedness: dimensions are bounded, the terrain matches the
    /// generation policy cell for cell, every entity stands on walkable
    /// in-bounds ground, ids are strictly increasing and below the id
    /// counters, behaviors are keyed by distinct ids, and event ids grow with
    /// the tick counter.
    pub open spec fn wf(self) -> bool {
        &&& 1 <= self.spec_width() <= 10000
        &&& 1 <= self.spec_height() <= 10000
        &&& self.spec_config().valid()
        &&& self.spec_terrain_len() == self.spec_width() * self.spec_height()
        &&& forall|x: int, y: int|
                in_bounds(self.spec_width(), self.spec_height(), x, y)
                    ==> #[trigger] self.spec_terrain_at(x, y) == self.tile_at(x, y)
        &&& forall|i: int| 0 <= i < self.spec_entities().len()
                ==> self.can_stand(#[trigger] self.spec_entities()[i].pos)
        &&& forall|i: int| 0 <= i < self.spec_entities().len()
                ==> 1 <= #[trigger] self.spec_entities()[i].id < self.spec_next_entity_id()
        &&& forall|i: int, j: int| 0 <= i < j < self.spec_entities().len()
                ==> #[trigger] self.spec_entities()[i].id < #[trigger] self.spec_entities()[j].id
        &&& forall|i: int, j: int| 0 <= i < j < self.spec_behaviors().len()
                ==> (#[trigger] self.spec_behaviors()[i]).0 != (#[trigger] self.spec_behaviors()[j]).0
        &&& forall|i: int| 0 <= i < self.spec_behaviors().len()
                ==> (#[trigger] self.spec_behaviors()[i]).0 < self.spec_next_entity_id()
        &&& forall|i: int, j: int| 0 <= i < j < self.spec_events().len()
                ==> #[trigger] self.spec_events()[i].id < #[trigger] self.spec_events()[j].id
        &&& forall|i: int| 0 <= i < self.spec_events().len()
                ==> #[trigger] self.spec_events()[i].id < self.spec_next_event_id()
        &&& 1 <= self.spec_next_entity_id()
        &&& 1 <= self.spec_next_event_id()
        &&& self.spec_next_event_id() <= self.spec_tick_count() + 1
    }

    /// All parts of the world except the entity layer coincide.
    pub open spec fn same_except_entities(self, other: World) -> bool {
        &&& other.spec_width() == self.spec_width()
        &&& other.spec_height() == self.spec_height()
        &&& other.spec_config() == self.spec_config()
        &&& other.spec_behaviors() == self.spec_behaviors()
        &&& other.spec_events() == self.spec_events()
        &&& other.spec_next_event_id() == self.spec_next_event_id()
        &&& other.spec_tick_count() == self.spec_tick_count()
    }

    /// Creates a world of the given size under the standard terrain policy.
    /// The world starts with no entities; ids are allocated from 1.
    pub fn new(width: i32, height: i32) -> (w: World)
        requires
            1 <= width <= 10000,
            1 <= height <= 10000,
        ensures
            w.wf(),
            w.spec_width() == width,
            w.spec_height() == height,
            w.spec_config() == (WorldConfig { lake_radius_sq: 9, border_thickness: 2 }),
            w.spec_entities() =~= Seq::<Entity>::empty(),
            w.spec_behaviors() =~= Seq::<(u32, AIBehavior)>::empty(),
            w.spec_events() =~= Seq::<HistoricalEvent>::empty(),
            w.spec_next_entity_id() == 1,
            w.spec_next_event_id() == 1,
            w.spec_tick_count() == 0,
    {
        World::new_with_config(width, height, WorldConfig::standard())
    }

    /// Creates a world of the given size under an explicit terrain policy.
    pub fn new_with_config(width: i32, height: i32, config: WorldConfig) -> (w: World)
        requires
            1 <= width <= 10000,
            1 <= height <= 10000,
            config.valid(),
        ensures
            w.wf(),
            w.spec_width() == width,
            w.spec_height() == height,
            w.spec_config() == config,
            w.spec_entities() =~= Seq::<Entity>::empty(),
            w.spec_behaviors() =~= Seq::<(u32, AIBehavior)>::empty(),
            w.spec_events() =~= Seq::<HistoricalEvent>::empty(),
            w.spec_next_entity_id() == 1,
            w.spec_next_event_id() == 1,
            w.spec_tick_count() == 0,
    {
        let terrain_layer = World::generate_terrain(width, height, config);
        World {
            terrain_layer,
            entity_layer: Vec::new(),
            ai_behaviors: Vec::new(),
            factions: Vec::new(),
            historical_events: Vec::new(),
            width,
            height,
            config,
            next_entity_id: 1,
            next_faction_id: 1,
            next_event_id: 1,
            current_tick: 0,
        }
    }

    /// Generates the terrain layer in row-major order, cell for cell equal to
    /// the generation policy `spec_tile`.
    fn generate_terrain(width: i32, height: i32, config: WorldConfig) -> (t: Vec<Tile>)
        requires
            1 <= width <= 10000,
            1 <= height <= 10000,
            config.valid(),
        ensures
            t@.len() == width * height,
            forall|x: int, y: int|
                in_bounds(width as int, height as int, x, y)
                    ==> t@[y * width + x] == #[trigger] spec_tile(config, width as int, height as int, x, y),
    {
        let ghost wi: int = width as int;
        let ghost hi: int = height as int;
        let mut t: Vec<Tile> = Vec::new();
        let mut y: i32 = 0;
        while y < height
            invariant
                0 <= y <= height,
                1 <= width <= 10000,
                1 <= height <= 10000,
                config.valid(),
                wi == width as int,
                hi == height as int,
                t@.len() == y * wi,
                forall|xx: int, yy: int|
                    0 <= xx < wi && 0 <= yy < y
                        ==> t@[yy * wi + xx] == #[trigger] spec_tile(config, wi, hi, xx, yy),
            decreases height - y,
        {
            let mut x: i32 = 0;
            while x < width
                invariant
                    0 <= y < height,
                    0 <= x <= width,
                    1 <= width <= 10000,
                    1 <= height <= 10000,
                    config.valid(),
                    wi == width as int,
                    hi == height as int,
                    t@.len() == y * wi + x,
                    forall|xx: int, yy: int|
                        0 <= xx < wi && 0 <= yy < y
                            ==> t@[yy * wi + xx] == #[trigger] spec_tile(config, wi, hi, xx, yy),
                    forall|xx: int|
                        0 <= xx < x
                            ==> t@[y * wi + xx] == #[trigger] spec_tile(config, wi, hi, xx, y as int),
                decreases width - x,
            {
                let ghost pre: Seq<Tile> = t@;
                let tile = World::tile_for(width, height, config, x, y);
                t.push(tile);
                proof {
                    assert forall|xx: int, yy: int| 0 <= xx < wi && 0 <= yy < y
                        implies t@[yy * wi + xx] == #[trigger] spec_tile(config, wi, hi, xx, yy) by {
                        lemma_earlier_row_index(wi, xx, yy, y as int);
                        assert(t@[yy * wi + xx] == pre[yy * wi + xx]);
                    }
                }
                x = x + 1;
            }
            proof {
                assert((y + 1) * wi == y * wi + wi) by (nonlinear_arith);
            }
            y = y + 1;
        }
        proof {
            assert(hi * wi == wi * hi) by (nonlinear_arith);
        }
        t
    }

    /// Computes the generated tile for one cell.
    fn tile_for(width: i32, height: i32, config: WorldConfig, x: i32, y: i32) -> (t: Tile)
        requires
            1 <= width <= 10000,
            1 <= height <= 10000,
            config.valid(),
            0 <= x < width,
            0 <= y < height,
        ensures
            t == spec_tile(config, width as int, height as int, x as int, y as int),
    {
        if World::is_water_cell(width, height, config, x, y) {
            Tile::water()
        } else if World::is_stone_cell(width, height, config, x, y) {
            Tile::new(TerrainType::Stone, true)
        } else {
            Tile::grass()
        }
    }

    fn is_water_cell(width: i32, height: i32, config: WorldConfig, x: i32, y: i32) -> (r: bool)
        requires
            1 <= width <= 10000,
            1 <= height <= 10000,
            0 <= x < width,
            0 <= y < height,
        ensures
            r == water_region(config, width as int, height as int, x as int, y as int),
    {
        let cx = width / 2;
        let cy = height / 2;
        let dx = if x >= cx { x - cx } else { cx - x };
        let dy = if y >= cy { y - cy } else { cy - y };
        proof {
            assert(dx * dx <= 100000000 && dy * dy <= 100000000) by (nonlinear_arith)
                requires
                    0 <= dx <= 10000,
                    0 <= dy <= 10000,
            ;
        }
        dx * dx + dy * dy < config.lake_radius_sq
    }

    fn is_stone_cell(width: i32, height: i32, config: WorldConfig, x: i32, y: i32) -> (r: bool)
        requires
            1 <= width <= 10000,
            1 <= height <= 10000,
            config.valid(),
        ensures
            r == stone_region(config, width as int, height as int, x as int, y as int),
    {
        x < config.border_thickness || x >= width - config.border_thickness
            || y < config.border_thickness || y >= height - config.border_thickness
    }

    /// The world's dimensions as `(width, height)`.
    pub fn dimensions(&self) -> (d: (i32, i32))
        ensures
            d.0 == self.spec_width(),
            d.1 == self.spec_height(),
    {
        (self.width, self.height)
    }

    /// The number of live entities.
    pub fn entity_count(&self) -> (n: usize)
        ensures
            n == self.spec_entities().len(),
    {
        self.entity_layer.len()
    }

    /// The current tick counter.
    pub fn get_current_tick(&self) -> (t: u64)
        ensures
            t == self.spec_tick_count(),
    {
        self.current_tick
    }

    /// The tile at `pos`: present for every in-bounds position, absent outside
    /// the generated bounds.
    pub fn get_tile(&self, pos: Position) -> (r: Option<Tile>)
        requires
            self.wf(),
        ensures
            r == if in_bounds(self.spec_width(), self.spec_height(), pos.x as int, pos.y as int) {
                Some(self.tile_at(pos.x as int, pos.y as int))
            } else {
                Option::<Tile>::None
            },
    {
        if 0 <= pos.x && pos.x < self.width && 0 <= pos.y && pos.y < self.height {
            proof {
                lemma_row_major_bounds(self.spec_width(), self.spec_height(), pos.x as int, pos.y as int);
                lemma_area_bound(self.spec_width(), self.spec_height());
            }
            let idx: usize = (pos.y as usize) * (self.width as usize) + (pos.x as usize);
            proof {
                assert(idx == pos.y * self.spec_width() + pos.x);
                assert(self.spec_terrain_at(pos.x as int, pos.y as int)
                    == self.tile_at(pos.x as int, pos.y as int));
            }
            Some(self.terrain_layer[idx])
        } else {
            None
        }
    }

    /// When the terrain layer, the dimensions and the policy are untouched,
    /// the terrain conditions of `wf` carry over to the new world value.
    proof fn lemma_terrain_preserved(pre: World, post: World)
        requires
            pre.wf(),
            post.terrain_layer == pre.terrain_layer,
            post.width == pre.width,
            post.height == pre.height,
            post.config == pre.config,
        ensures
            post.spec_terrain_len() == post.spec_width() * post.spec_height(),
            forall|x: int, y: int|
                in_bounds(post.spec_width(), post.spec_height(), x, y)
                    ==> #[trigger] post.spec_terrain_at(x, y) == post.tile_at(x, y),
    {
        assert forall|x: int, y: int|
            in_bounds(post.spec_width(), post.spec_height(), x, y)
            implies #[trigger] post.spec_terrain_at(x, y) == post.tile_at(x, y) by {
            assert(pre.spec_terrain_at(x, y) == pre.tile_at(x, y));
        }
    }

    /// When the behavior table is untouched, its distinct-keys condition of
    /// `wf` carries over to the new world value.
    proof fn lemma_behaviors_preserved(pre: World, post: World)
        requires
            pre.wf(),
            post.spec_behaviors() == pre.spec_behaviors(),
            post.spec_next_entity_id() >= pre.spec_next_entity_id(),
        ensures
            forall|i: int, j: int| 0 <= i < j < post.spec_behaviors().len()
                ==> (#[trigger] post.spec_behaviors()[i]).0 != (#[trigger] post.spec_behaviors()[j]).0,
            forall|i: int| 0 <= i < post.spec_behaviors().len()
                ==> (#[trigger] post.spec_behaviors()[i]).0 < post.spec_next_entity_id(),
    {
        assert forall|i: int, j: int| 0 <= i < j < post.spec_behaviors().len()
            implies (#[trigger] post.spec_behaviors()[i]).0
                != (#[trigger] post.spec_behaviors()[j]).0 by {
            assert(pre.spec_behaviors()[i].0 != pre.spec_behaviors()[j].0);
        }
        assert forall|i: int| 0 <= i < post.spec_behaviors().len()
            implies (#[trigger] post.spec_behaviors()[i]).0 < post.spec_next_entity_id() by {
            assert(pre.spec_behaviors()[i].0 < pre.spec_next_entity_id());
        }
    }

    /// When the event log is untouched, its ordering conditions of `wf` carry
    /// over to the new world value.
    proof fn lemma_events_preserved(pre: World, post: World)
        requires
            pre.wf(),
            post.spec_events() == pre.spec_events(),
            post.spec_next_event_id() == pre.spec_next_event_id(),
        ensures
            forall|i: int, j: int| 0 <= i < j < post.spec_events().len()
                ==> #[trigger] post.spec_events()[i].id < #[trigger] post.spec_events()[j].id,
            forall|i: int| 0 <= i < post.spec_events().len()
                ==> #[trigger] post.spec_events()[i].id < post.spec_next_event_id(),
    {
        assert forall|i: int, j: int| 0 <= i < j < post.spec_events().len()
            implies #[trigger] post.spec_events()[i].id < #[trigger] post.spec_events()[j].id by {
            assert(pre.spec_events()[i].id < pre.spec_events()[j].id);
        }
        assert forall|i: int| 0 <= i < post.spec_events().len()
            implies #[trigger] post.spec_events()[i].id < post.spec_next_event_id() by {
            assert(pre.spec_events()[i].id < pre.spec_next_event_id());
        }
    }

    /// When the entity layer, dimensions, policy and the id counter are
    /// untouched, the entity conditions of `wf` carry over.
    proof fn lemma_entities_preserved(pre: World, post: World)
        requires
            pre.wf(),
            post.spec_entities() == pre.spec_entities(),
            post.spec_width() == pre.spec_width(),
            post.spec_height() == pre.spec_height(),
            post.spec_config() == pre.spec_config(),
            post.spec_next_entity_id() == pre.spec_next_entity_id(),
        ensures
            forall|i: int| 0 <= i < post.spec_entities().len()
                ==> post.can_stand(#[trigger] post.spec_entities()[i].pos),
            forall|i: int| 0 <= i < post.spec_entities().len()
                ==> 1 <= (#[trigger] post.spec_entities()[i]).id < post.spec_next_entity_id(),
            forall|i: int, j: int| 0 <= i < j < post.spec_entities().len()
                ==> (#[trigger] post.spec_entities()[i]).id < (#[trigger] post.spec_entities()[j]).id,
    {
        assert forall|i: int| 0 <= i < post.spec_entities().len()
            implies post.can_stand(#[trigger] post.spec_entities()[i].pos)
                && 1 <= post.spec_entities()[i].id < post.spec_next_entity_id() by {
            assert(pre.can_stand(pre.spec_entities()[i].pos));
            assert(1 <= pre.spec_entities()[i].id < pre.spec_next_entity_id());
        }
        assert forall|i: int, j: int| 0 <= i < j < post.spec_entities().len()
            implies (#[trigger] post.spec_entities()[i]).id
                < (#[trigger] post.spec_entities()[j]).id by {
            assert(pre.spec_entities()[i].id < pre.spec_entities()[j].id);
        }
    }

    /// Under `wf`, an entity's position determines exactly one index: ids
    /// strictly increase along the entity layer.
    pub proof fn lemma_entity_index_agrees(self, i: int)
        requires
            self.wf(),
            0 <= i < self.spec_entities().len(),
        ensures
            self.entity_index(self.spec_entities()[i].id) == i,
            self.has_entity(self.spec_entities()[i].id),
    {
        let id = self.spec_entities()[i].id;
        assert(self.has_entity(id));
        let j = self.entity_index(id);
        if j < i {
            assert(self.spec_entities()[j].id < self.spec_entities()[i].id);
        } else if j > i {
            assert(self.spec_entities()[i].id < self.spec_entities()[j].id);
        }
    }

    /// Behavior entries are keyed by distinct ids, so an entry determines
    /// exactly one index.
    pub proof fn lemma_behavior_index_agrees(self, i: int)
        requires
            self.wf(),
            0 <= i < self.spec_behaviors().len(),
        ensures
            self.behavior_index(self.spec_behaviors()[i].0) == i,
            self.has_behavior(self.spec_behaviors()[i].0),
    {
        let id = self.spec_behaviors()[i].0;
        assert(self.has_behavior(id));
    }

    /// Finds the index of the entity with the given id, if it is live.
    fn find_entity_index(&self, id: u32) -> (r: Option<usize>)
        requires
            self.wf(),
        ensures
            match r {
                Some(i) => {
                    &&& i < self.spec_entities().len()
                    &&& self.spec_entities()[i as int].id == id
                    &&& self.has_entity(id)
                    &&& self.entity_index(id) == i
                },
                None => !self.has_entity(id),
            },
    {
        let n = self.entity_layer.len();
        let mut i: usize = 0;
        while i < n
            invariant
                self.wf(),
                n == self.spec_entities().len(),
                i <= n,
                forall|j: int| 0 <= j < i ==> (#[trigger] self.spec_entities()[j]).id != id,
            decreases n - i,
        {
            if self.entity_layer[i].id == id {
                proof {
                    self.lemma_entity_index_agrees(i as int);
                }
                return Some(i);
            }
            i = i + 1;
        }
        None
    }

    /// Spawns an entity at `pos`. Fails, with no side effect, when `pos` is
    /// out of bounds or its tile is unwalkable (or the id space is spent);
    /// otherwise allocates the next id, appends the entity, and returns the
    /// fresh, never-before-used id.
    pub fn spawn_entity(&mut self, name: String, pos: Position, entity_type: EntityType)
        -> (r: Option<u32>)
        requires
            old(self).wf(),
        ensures
            final(self).wf(),
            old(self).same_except_entities(*final(self)),
            match r {
                Some(id) => {
                    &&& old(self).can_stand(pos)
                    &&& old(self).spec_next_entity_id() < u32::MAX
                    &&& id == old(self).spec_next_entity_id()
                    &&& final(self).spec_entities() =~= old(self).spec_entities().push(
                        (Entity { id, name, pos, entity_type }))
                    &&& final(self).spec_next_entity_id() == old(self).spec_next_entity_id() + 1
                },
                None => {
                    &&& !(old(self).can_stand(pos) && old(self).spec_next_entity_id() < u32::MAX)
                    &&& *final(self) == *old(self)
                },
            },
    {
        if !(0 <= pos.x && pos.x < self.width && 0 <= pos.y && pos.y < self.height) {
            return None;
        }
        match self.get_tile(pos) {
            Some(tile) => {
                if !tile.walkable {
                    return None;
                }
            },
            None => {
                return None;
            },
        }
        if self.next_entity_id == u32::MAX {
            return None;
        }
        let id = self.next_entity_id;
        self.next_entity_id = id + 1;
        let entity = Entity::new(id, name, pos, entity_type);
        self.entity_layer.push(entity);
        proof {
            let pre = *old(self);
            let post = *self;
            World::lemma_terrain_preserved(pre, post);
            let n = pre.spec_entities().len() as int;
            assert forall|i: int| 0 <= i < post.spec_entities().len()
                implies post.can_stand(#[trigger] post.spec_entities()[i].pos) by {
                if i < n {
                    assert(post.spec_entities()[i] == pre.spec_entities()[i]);
                    assert(pre.can_stand(pre.spec_entities()[i].pos));
                }
            }
            assert forall|i: int| 0 <= i < post.spec_entities().len()
                implies 1 <= (#[trigger] post.spec_entities()[i]).id < post.spec_next_entity_id()
            by {
                if i < n {
                    assert(1 <= pre.spec_entities()[i].id < pre.spec_next_entity_id());
                }
            }
            assert forall|i: int, j: int| 0 <= i < j < post.spec_entities().len()
                implies (#[trigger] post.spec_entities()[i]).id
                    < (#[trigger] post.spec_entities()[j]).id by {
                if j < n {
                    assert(pre.spec_entities()[i].id < pre.spec_entities()[j].id);
                } else {
                    assert(post.spec_entities()[i] == pre.spec_entities()[i]);
                    assert(1 <= pre.spec_entities()[i].id < pre.spec_next_entity_id());
                }
            }
            World::lemma_behaviors_preserved(pre, post);
            World::lemma_events_preserved(pre, post);
        }
        Some(id)
    }

    /// Moves the entity by `(dx, dy)`. Fails, leaving the world unchanged,
    /// when the id is unknown or the destination is out of bounds or
    /// unwalkable; on success updates exactly that entity's position.
    pub fn move_entity(&mut self, entity_id: u32, dx: i32, dy: i32) -> (r: bool)
        requires
            old(self).wf(),
        ensures
            final(self).wf(),
            old(self).same_except_entities(*final(self)),
            final(self).spec_next_entity_id() == old(self).spec_next_entity_id(),
            r == old(self).spec_move_ok(entity_id, dx as int, dy as int),
            r ==> final(self).spec_entities() =~= old(self).spec_entities().update(
                old(self).entity_index(entity_id),
                (Entity {
                    pos: spec_moved_pos(old(self).entity_by_id(entity_id).pos, dx as int, dy as int),
                    ..old(self).entity_by_id(entity_id)
                }),
            ),
            !r ==> *final(self) == *old(self),
    {
        let idx: usize = match self.find_entity_index(entity_id) {
            Some(i) => i,
            None => {
                return false;
            },
        };
        let epos = self.entity_layer[idx].pos;
        let nx64: i64 = epos.x as i64 + dx as i64;
        let ny64: i64 = epos.y as i64 + dy as i64;
        if nx64 < 0 || nx64 >= self.width as i64 || ny64 < 0 || ny64 >= self.height as i64 {
            return false;
        }
        let np = Position { x: nx64 as i32, y: ny64 as i32 };
        match self.get_tile(np) {
            Some(tile) => {
                if !tile.walkable {
                    return false;
                }
            },
            None => {
                return false;
            },
        }
        self.entity_layer[idx].pos = np;
        proof {
            let pre = *old(self);
            let post = *self;
            World::lemma_terrain_preserved(pre, post);
            let n = pre.spec_entities().len() as int;
            let e = pre.spec_entities()[idx as int];
            assert(np.x == e.pos.x + dx && np.y == e.pos.y + dy);
            assert(post.spec_entities() =~= pre.spec_entities().update(
                idx as int,
                (Entity { pos: spec_moved_pos(e.pos, dx as int, dy as int), ..e }),
            ));
            assert forall|i: int| 0 <= i < post.spec_entities().len()
                implies post.can_stand(#[trigger] post.spec_entities()[i].pos) by {
                if i != idx {
                    assert(post.spec_entities()[i] == pre.spec_entities()[i]);
                    assert(pre.can_stand(pre.spec_entities()[i].pos));
                } else {
                    assert(post.spec_entities()[i].pos == np);
                }
            }
            assert forall|i: int| 0 <= i < post.spec_entities().len()
                implies 1 <= (#[trigger] post.spec_entities()[i]).id < post.spec_next_entity_id()
            by {
                assert(post.spec_entities()[i].id == pre.spec_entities()[i].id);
                assert(1 <= pre.spec_entities()[i].id < pre.spec_next_entity_id());
            }
            assert forall|i: int, j: int| 0 <= i < j < post.spec_entities().len()
                implies (#[trigger] post.spec_entities()[i]).id
                    < (#[trigger] post.spec_entities()[j]).id by {
                assert(post.spec_entities()[i].id == pre.spec_entities()[i].id);
                assert(post.spec_entities()[j].id == pre.spec_entities()[j].id);
                assert(pre.spec_entities()[i].id < pre.spec_entities()[j].id);
            }
            World::lemma_behaviors_preserved(pre, post);
            World::lemma_events_preserved(pre, post);
        }
        true
    }

    /// Removes the entity with the given id, along with its behavior entry,
    /// and reports whether it existed. The id counter never decreases, so the
    /// id is not reused.
    pub fn despawn_entity(&mut self, entity_id: u32) -> (r: bool)
        requires
            old(self).wf(),
        ensures
            final(self).wf(),
            final(self).spec_width() == old(self).spec_width(),
            final(self).spec_height() == old(self).spec_height(),
            final(self).spec_config() == old(self).spec_config(),
            final(self).spec_events() == old(self).spec_events(),
            final(self).spec_next_entity_id() == old(self).spec_next_entity_id(),
            final(self).spec_next_event_id() == old(self).spec_next_event_id(),
            final(self).spec_tick_count() == old(self).spec_tick_count(),
            r == old(self).has_entity(entity_id),
            r ==> final(self).spec_entities() =~= old(self).spec_entities().remove(
                old(self).entity_index(entity_id)),
            r && old(self).has_behavior(entity_id) ==> final(self).spec_behaviors() =~= old(
                self,
            ).spec_behaviors().remove(old(self).behavior_index(entity_id)),
            r && !old(self).has_behavior(entity_id) ==> final(self).spec_behaviors() == old(
                self,
            ).spec_behaviors(),
            !r ==> *final(self) == *old(self),
    {
        let idx: usize = match self.find_entity_index(entity_id) {
            Some(i) => i,
            None => {
                return false;
            },
        };
        let bidx = self.find_behavior_index(entity_id);
        self.entity_layer.remove(idx);
        match bidx {
            Some(b) => {
                self.ai_behaviors.remove(b);
            },
            None => {},
        }
        proof {
            let pre = *old(self);
            let post = *self;
            World::lemma_terrain_preserved(pre, post);
            pre.spec_entities().remove_ensures(idx as int);
            assert forall|i: int| 0 <= i < post.spec_entities().len()
                implies post.can_stand(#[trigger] post.spec_entities()[i].pos)
                    && 1 <= post.spec_entities()[i].id < post.spec_next_entity_id() by {
                if i < idx {
                    assert(post.spec_entities()[i] == pre.spec_entities()[i]);
                } else {
                    assert(post.spec_entities()[i] == pre.spec_entities()[i + 1]);
                }
                assert(pre.can_stand(pre.spec_entities()[i].pos)
                    || pre.can_stand(pre.spec_entities()[i + 1].pos));
            }
            assert forall|i: int, j: int| 0 <= i < j < post.spec_entities().len()
                implies (#[trigger] post.spec_entities()[i]).id
                    < (#[trigger] post.spec_entities()[j]).id by {
                let pi: int = if i < idx { i } else { i + 1 };
                let pj: int = if j < idx { j } else { j + 1 };
                assert(post.spec_entities()[i] == pre.spec_entities()[pi]);
                assert(post.spec_entities()[j] == pre.spec_entities()[pj]);
                assert(pre.spec_entities()[pi].id < pre.spec_entities()[pj].id);
            }
            if bidx is Some {
                let b = bidx->Some_0 as int;
                pre.spec_behaviors().remove_ensures(b);
                assert forall|i: int, j: int| 0 <= i < j < post.spec_behaviors().len()
                    implies (#[trigger] post.spec_behaviors()[i]).0
                        != (#[trigger] post.spec_behaviors()[j]).0 by {
                    let pi: int = if i < b { i } else { i + 1 };
                    let pj: int = if j < b { j } else { j + 1 };
                    assert(post.spec_behaviors()[i] == pre.spec_behaviors()[pi]);
                    assert(post.spec_behaviors()[j] == pre.spec_behaviors()[pj]);
                    assert(pre.spec_behaviors()[pi].0 != pre.spec_behaviors()[pj].0);
                }
                assert forall|i: int| 0 <= i < post.spec_behaviors().len()
                    implies (#[trigger] post.spec_behaviors()[i]).0 < post.spec_next_entity_id()
                by {
                    let pi: int = if i < b { i } else { i + 1 };
                    assert(post.spec_behaviors()[i] == pre.spec_behaviors()[pi]);
                    assert(pre.spec_behaviors()[pi].0 < pre.spec_next_entity_id());
                }
            } else {
                World::lemma_behaviors_preserved(pre, post);
            }
            World::lemma_events_preserved(pre, post);
        }
        true
    }

    /// Finds the index of the behavior entry keyed by the given entity id.
    fn find_behavior_index(&self, id: u32) -> (r: Option<usize>)
        requires
            self.wf(),
        ensures
            match r {
                Some(i) => {
                    &&& i < self.spec_behaviors().len()
                    &&& self.spec_behaviors()[i as int].0 == id
                    &&& self.has_behavior(id)
                    &&& self.behavior_index(id) == i
                },
                None => !self.has_behavior(id),
            },
    {
        let m = self.ai_behaviors.len();
        let mut k: usize = 0;
        while k < m
            invariant
                self.wf(),
                m == self.spec_behaviors().len(),
                k <= m,
                forall|j: int| 0 <= j < k ==> (#[trigger] self.spec_behaviors()[j]).0 != id,
            decreases m - k,
        {
            if self.ai_behaviors[k].0 == id {
                proof {
                    self.lemma_behavior_index_agrees(k as int);
                }
                return Some(k);
            }
            k = k + 1;
        }
        None
    }

    /// The live entity with the given id, if any: a pure read.
    pub fn get_entity(&self, id: u32) -> (r: Option<&Entity>)
        requires
            self.wf(),
        ensures
            match r {
                Some(e) => self.has_entity(id) && *e == self.entity_by_id(id),
                None => !self.has_entity(id),
            },
    {
        match self.find_entity_index(id) {
            Some(i) => Some(&self.entity_layer[i]),
            None => None,
        }
    }
}

/// The predicate selecting the entities whose Chebyshev distance to `center`
/// is at most `radius`: a square region, not a circle.
pub open spec fn in_region(center: Position, radius: int) -> spec_fn(Entity) -> bool {
    |e: Entity| chebyshev(e.pos, center) <= radius
}

/// Strict x-major order on positions: the order in which a snapshot lists its
/// tiles.
pub open spec fn pos_lex_lt(a: Position, b: Position) -> bool {
    a.x < b.x || (a.x == b.x && a.y < b.y)
}

impl World {
    /// Exactly the entities within Chebyshev distance `radius` of `center`,
    /// in entity-layer order. A negative radius selects nothing.
    pub fn get_entities_in_region(&self, center: Position, radius: i32) -> (r: Vec<Entity>)
        requires
            self.wf(),
        ensures
            r@ == self.spec_entities().filter(in_region(center, radius as int)),
    {
        let ghost pred = in_region(center, radius as int);
        let mut r: Vec<Entity> = Vec::new();
        let n = self.entity_layer.len();
        let mut i: usize = 0;
        while i < n
            invariant
                self.wf(),
                n == self.spec_entities().len(),
                i <= n,
                pred == in_region(center, radius as int),
                r@ == self.spec_entities().take(i as int).filter(pred),
            decreases n - i,
        {
            let e = &self.entity_layer[i];
            let dx: i64 = if e.pos.x as i64 >= center.x as i64 {
                e.pos.x as i64 - center.x as i64
            } else {
                center.x as i64 - e.pos.x as i64
            };
            let dy: i64 = if e.pos.y as i64 >= center.y as i64 {
                e.pos.y as i64 - center.y as i64
            } else {
                center.y as i64 - e.pos.y as i64
            };
            let within = dx <= radius as i64 && dy <= radius as i64;
            proof {
                reveal(Seq::filter);
                let s = self.spec_entities();
                assert(s.take(i as int + 1).drop_last() =~= s.take(i as int));
                assert(s.take(i as int + 1).last() == s[i as int]);
                assert(within == pred(s[i as int]));
            }
            if within {
                r.push(e.duplicate());
            }
            i = i + 1;
        }
        proof {
            assert(self.spec_entities().take(n as int) =~= self.spec_entities());
        }
        r
    }

    /// The terrain and entities a client centered at `center` should see: a
    /// tile entry for every in-bounds cell of the square of Chebyshev radius
    /// `view_radius` (cells outside the generated bounds are omitted), listed
    /// in x-major order, plus the entities within the same square.
    pub fn get_visible_snapshot(&self, center: Position, view_radius: i32) -> (s: WorldSnapshot)
        requires
            self.wf(),
        ensures
            forall|k: int| 0 <= k < s.tiles@.len() ==> {
                let pt = #[trigger] s.tiles@[k];
                &&& in_bounds(self.spec_width(), self.spec_height(), pt.0.x as int, pt.0.y as int)
                &&& chebyshev(pt.0, center) <= view_radius
                &&& pt.1 == self.tile_at(pt.0.x as int, pt.0.y as int)
            },
            forall|x: int, y: int|
                {
                    &&& in_bounds(self.spec_width(), self.spec_height(), x, y)
                    &&& chebyshev((Position { x: x as i32, y: y as i32 }), center) <= view_radius
                } ==> s.tiles@.contains(
                    ((Position { x: x as i32, y: y as i32 }), #[trigger] self.tile_at(x, y)),
                ),
            forall|k1: int, k2: int| 0 <= k1 < k2 < s.tiles@.len()
                ==> pos_lex_lt((#[trigger] s.tiles@[k1]).0, (#[trigger] s.tiles@[k2]).0),
            s.entities@ == self.spec_entities().filter(in_region(center, view_radius as int)),
    {
        let mut tiles: Vec<(Position, Tile)> = Vec::new();
        let cx: i64 = center.x as i64;
        let cy: i64 = center.y as i64;
        let r64: i64 = view_radius as i64;
        let mut x64: i64 = cx - r64;
        while x64 <= cx + r64
            invariant
                self.wf(),
                cx == center.x as int,
                cy == center.y as int,
                r64 == view_radius as int,
                cx - r64 <= x64,
                forall|k: int| 0 <= k < tiles@.len() ==> {
                    let pt = #[trigger] tiles@[k];
                    &&& in_bounds(self.spec_width(), self.spec_height(), pt.0.x as int, pt.0.y as int)
                    &&& chebyshev(pt.0, center) <= view_radius
                    &&& pt.1 == self.tile_at(pt.0.x as int, pt.0.y as int)
                    &&& pt.0.x < x64
                },
                forall|x: int, y: int|
                    {
                        &&& in_bounds(self.spec_width(), self.spec_height(), x, y)
                        &&& chebyshev((Position { x: x as i32, y: y as i32 }), center) <= view_radius
                        &&& x < x64
                    } ==> tiles@.contains(
                        ((Position { x: x as i32, y: y as i32 }), #[trigger] self.tile_at(x, y)),
                    ),
                forall|k1: int, k2: int| 0 <= k1 < k2 < tiles@.len()
                    ==> pos_lex_lt((#[trigger] tiles@[k1]).0, (#[trigger] tiles@[k2]).0),
            decreases cx + r64 + 1 - x64,
        {
            let mut y64: i64 = cy - r64;
            while y64 <= cy + r64
                invariant
                    self.wf(),
                    cx == center.x as int,
                    cy == center.y as int,
                    r64 == view_radius as int,
                    cx - r64 <= x64 <= cx + r64,
                    cy - r64 <= y64,
                    forall|k: int| 0 <= k < tiles@.len() ==> {
                        let pt = #[trigger] tiles@[k];
                        &&& in_bounds(self.spec_width(), self.spec_height(), pt.0.x as int, pt.0.y as int)
                        &&& chebyshev(pt.0, center) <= view_radius
                        &&& pt.1 == self.tile_at(pt.0.x as int, pt.0.y as int)
                        &&& pt.0.x < x64 || (pt.0.x == x64 && pt.0.y < y64)
                    },
                    forall|x: int, y: int|
                        {
                            &&& in_bounds(self.spec_width(), self.spec_height(), x, y)
                            &&& chebyshev((Position { x: x as i32, y: y as i32 }), center) <= view_radius
                            &&& x < x64 || (x == x64 && y < y64)
                        } ==> tiles@.contains(
                            ((Position { x: x as i32, y: y as i32 }), #[trigger] self.tile_at(x, y)),
                        ),
                    forall|k1: int, k2: int| 0 <= k1 < k2 < tiles@.len()
                        ==> pos_lex_lt((#[trigger] tiles@[k1]).0, (#[trigger] tiles@[k2]).0),
                decreases cy + r64 + 1 - y64,
            {
                if 0 <= x64 && x64 < self.width as i64 && 0 <= y64 && y64 < self.height as i64 {
                    let p = Position { x: x64 as i32, y: y64 as i32 };
                    match self.get_tile(p) {
                        Some(tile) => {
                            let ghost pre = tiles@;
                            tiles.push((p, tile));
                            proof {
                                assert(tiles@ == pre.push((p, tile)));
                                assert(tiles@[pre.len() as int] == (p, tile));
                                assert forall|x: int, y: int|
                                    {
                                        &&& in_bounds(self.spec_width(), self.spec_height(), x, y)
                                        &&& chebyshev((Position { x: x as i32, y: y as i32 }), center)
                                            <= view_radius
                                        &&& x < x64 || (x == x64 && y < y64 + 1)
                                    } implies tiles@.contains(
                                    ((Position { x: x as i32, y: y as i32 }),
                                    #[trigger] self.tile_at(x, y)),
                                ) by {
                                    let q = Position { x: x as i32, y: y as i32 };
                                    if x == x64 && y == y64 {
                                        assert(q == p);
                                        assert(tiles@[pre.len() as int] == (q, self.tile_at(x, y)));
                                    } else {
                                        assert(pre.contains((q, self.tile_at(x, y))));
                                        let w = choose|k: int|
                                            0 <= k < pre.len() && pre[k] == (q, self.tile_at(x, y));
                                        assert(tiles@[w] == (q, self.tile_at(x, y)));
                                    }
                                }
                            }
                        },
                        None => {},
                    }
                }
                y64 = y64 + 1;
            }
            x64 = x64 + 1;
        }
        let entities = self.get_entities_in_region(center, view_radius);
        WorldSnapshot { tiles, entities }
    }

    /// All live entities, in entity-layer order: a read for debugging and
    /// admin queries.
    pub fn get_all_entities(&self) -> (r: Vec<Entity>)
        requires
            self.wf(),
        ensures
            r@ == self.spec_entities(),
    {
        let mut r: Vec<Entity> = Vec::new();
        let n = self.entity_layer.len();
        let mut i: usize = 0;
        while i < n
            invariant
                n == self.spec_entities().len(),
                i <= n,
                r@ == self.spec_entities().take(i as int),
            decreases n - i,
        {
            r.push(self.entity_layer[i].duplicate());
            proof {
                assert(r@ =~= self.spec_entities().take(i as int + 1));
            }
            i = i + 1;
        }
        proof {
            assert(self.spec_entities().take(n as int) =~= self.spec_entities());
        }
        r
    }

    /// The ids of all live entities, in entity-layer order.
    pub fn get_entity_ids(&self) -> (r: Vec<u32>)
        requires
            self.wf(),
        ensures
            r@ == self.spec_entities().map_values(|e: Entity| e.id),
    {
        let mut r: Vec<u32> = Vec::new();
        let n = self.entity_layer.len();
        let mut i: usize = 0;
        while i < n
            invariant
                n == self.spec_entities().len(),
                i <= n,
                r@ == self.spec_entities().take(i as int).map_values(|e: Entity| e.id),
            decreases n - i,
        {
            r.push(self.entity_layer[i].id);
            proof {
                assert(r@ =~= self.spec_entities().take(i as int + 1).map_values(
                    |e: Entity| e.id,
                ));
            }
            i = i + 1;
        }
        proof {
            assert(self.spec_entities().take(n as int) =~= self.spec_entities());
        }
        r
    }

    /// The `limit` most recent historical events, oldest first; the whole log
    /// when it holds no more than `limit` entries.
    pub fn get_historical_events(&self, limit: usize) -> (r: Vec<HistoricalEvent>)
        requires
            self.wf(),
        ensures
            r@.len() == if self.spec_events().len() <= limit {
                self.spec_events().len() as int
            } else {
                limit as int
            },
            forall|k: int| 0 <= k < r@.len() ==> crate::types::event_eq(
                #[trigger] r@[k],
                self.spec_events()[self.spec_events().len() - r@.len() + k],
            ),
    {
        let n = self.historical_events.len();
        let start: usize = if n > limit {
            n - limit
        } else {
            0
        };
        let mut r: Vec<HistoricalEvent> = Vec::new();
        let mut i: usize = start;
        while i < n
            invariant
                n == self.spec_events().len(),
                start <= i <= n,
                start == if n > limit {
                    n - limit
                } else {
                    0
                },
                r@.len() == i - start,
                forall|k: int| 0 <= k < r@.len() ==> crate::types::event_eq(
                    #[trigger] r@[k],
                    self.spec_events()[start + k],
                ),
            decreases n - i,
        {
            r.push(self.historical_events[i].duplicate());
            i = i + 1;
        }
        r
    }
}

/// Law: in a well-formed world, every cell of the central lake is water and
/// unwalkable; every other cell of the stone border band is stone and
/// walkable; all remaining in-bounds cells are grass and walkable. In a small
/// world the lake can reach into the border band; there the lake takes
/// precedence, so the stone clause holds of the cells outside the lake.
pub proof fn lemma_terrain_regions(w: World, x: int, y: int)
    requires
        w.wf(),
        in_bounds(w.spec_width(), w.spec_height(), x, y),
    ensures
        water_region(w.spec_config(), w.spec_width(), w.spec_height(), x, y) ==> w.tile_at(x, y)
            == (Tile { terrain: TerrainType::Water, walkable: false }),
        !water_region(w.spec_config(), w.spec_width(), w.spec_height(), x, y)
            && stone_region(w.spec_config(), w.spec_width(), w.spec_height(), x, y)
            ==> w.tile_at(x, y) == (Tile { terrain: TerrainType::Stone, walkable: true }),
        !water_region(w.spec_config(), w.spec_width(), w.spec_height(), x, y)
            && !stone_region(w.spec_config(), w.spec_width(), w.spec_height(), x, y)
            ==> w.tile_at(x, y) == (Tile { terrain: TerrainType::Grass, walkable: true }),
{
}

/// Law: entity ids never repeat and are never reused. In a well-formed world
/// the live ids strictly increase along the entity layer and lie strictly
/// below the id counter; `spawn_entity` hands out exactly the counter's value
/// and increments it, and no operation ever decreases the counter, so an id
/// freed by `despawn_entity` can never be allocated again.
pub proof fn lemma_entity_ids_fresh(w: World)
    requires
        w.wf(),
    ensures
        forall|i: int, j: int| 0 <= i < j < w.spec_entities().len()
            ==> (#[trigger] w.spec_entities()[i]).id < (#[trigger] w.spec_entities()[j]).id,
        forall|i: int| 0 <= i < w.spec_entities().len()
            ==> (#[trigger] w.spec_entities()[i]).id < w.spec_next_entity_id(),
{
}

/// Law: `get_entities_in_region` selects by Chebyshev distance alone — an
/// entity appears in the selection exactly when it is live and within
/// distance `radius` of `center`, for every radius, including 0.
pub proof fn lemma_region_membership(w: World, center: Position, radius: int, e: Entity)
    requires
        w.wf(),
    ensures
        w.spec_entities().filter(in_region(center, radius)).contains(e) <==> (
        w.spec_entities().contains(e) && chebyshev(e.pos, center) <= radius),
{
    let s = w.spec_entities();
    let pred = in_region(center, radius);
    if s.filter(pred).contains(e) {
        let k = choose|k: int| 0 <= k < s.filter(pred).len() && s.filter(pred)[k] == e;
        s.lemma_filter_pred(pred, k);
        s.lemma_filter_contains_rev(pred, e);
    }
    if s.contains(e) && chebyshev(e.pos, center) <= radius {
        let i = choose|i: int| 0 <= i < s.len() && s[i] == e;
        s.lemma_filter_contains(pred, i);
    }
}

/// The position reached from `p` by the step `(dx, dy)` (meaningful when the
/// result is in bounds, where the coordinates fit an `i32` exactly).
pub open spec fn spec_moved_pos(p: Position, dx: int, dy: int) -> Position {
    Position { x: (p.x + dx) as i32, y: (p.y + dy) as i32 }
}

impl World {
    /// Whether a move of the entity with this id by `(dx, dy)` is admissible:
    /// the id is live and the destination is in bounds and walkable.
    pub open spec fn spec_move_ok(self, id: u32, dx: int, dy: int) -> bool {
        &&& self.has_entity(id)
        &&& {
            let e = self.entity_by_id(id);
            let nx = e.pos.x + dx;
            let ny = e.pos.y + dy;
            &&& in_bounds(self.spec_width(), self.spec_height(), nx, ny)
            &&& spec_tile(self.spec_config(), self.spec_width(), self.spec_height(), nx, ny).walkable
        }
    }
}

/// The horizontal step a wandering entity attempts at tick `t`: the tick
/// counter stands in for a random draw.
pub open spec fn wander_dx(t: u64) -> int {
    (t as int) % 3 - 1
}

/// The vertical step a wandering entity attempts at tick `t`.
pub open spec fn wander_dy(t: u64) -> int {
    ((t as int) / 3) % 3 - 1
}

/// The sign of a coordinate delta: one diagonal-capable step toward a target.
pub open spec fn sign(d: int) -> int {
    if d > 0 {
        1
    } else if d < 0 {
        -1
    } else {
        0
    }
}

/// The cell an entity at `pos` with the given goal aims for at tick `t`.
/// `Wander` steps pseudo-deterministically from the tick counter; `Patrol`
/// alternates its target between its two endpoints every 50 ticks and steps
/// one unit toward it on each axis; the remaining goals are recognized but
/// intentionally inert, so they aim for the current cell.
pub open spec fn spec_step_target(pos: Position, goal: AIGoal, t: u64) -> Position {
    match goal {
        AIGoal::Wander => Position {
            x: (pos.x + wander_dx(t)) as i32,
            y: (pos.y + wander_dy(t)) as i32,
        },
        AIGoal::Patrol { start, end } => {
            let tgt = if ((t as int) / 50) % 2 == 0 {
                start
            } else {
                end
            };
            Position {
                x: (pos.x + sign(tgt.x - pos.x)) as i32,
                y: (pos.y + sign(tgt.y - pos.y)) as i32,
            }
        },
        _ => pos,
    }
}

/// The cell where the NPC of slot `k` is placed at world setup.
pub open spec fn npc_pos(k: int) -> Position {
    Position { x: (5 + k) as i32, y: (5 + k) as i32 }
}

/// The name given to the NPC of slot `k` at world setup.
pub open spec fn npc_name(k: int) -> Seq<char> {
    if k == 0 {
        "NPC_0"@
    } else if k == 1 {
        "NPC_1"@
    } else if k == 2 {
        "NPC_2"@
    } else if k == 3 {
        "NPC_3"@
    } else {
        "NPC_4"@
    }
}

/// The slots, in order, of the initial NPCs whose cell is in bounds and
/// walkable under the given policy: exactly those spawn.
pub open spec fn npc_plan(cfg: WorldConfig, width: int, height: int, k: int) -> Seq<int>
    decreases 5 - k,
    when k <= 5
{
    if k >= 5 {
        Seq::empty()
    } else {
        let rest = npc_plan(cfg, width, height, k + 1);
        if in_bounds(width, height, 5 + k, 5 + k)
            && spec_tile(cfg, width, height, 5 + k, 5 + k).walkable {
            seq![k] + rest
        } else {
            rest
        }
    }
}

/// Whether one of the first `b` behavior entries is keyed by `id`.
pub open spec fn prefix_has_key(s: Seq<(u32, AIBehavior)>, b: int, id: u32) -> bool {
    exists|k: int| 0 <= k < b && (#[trigger] s[k]).0 == id
}

/// The intermediate state of one AI pass: the entities whose behavior entry
/// lies among the first `b` already hold their post-tick position, the rest
/// still hold their pre-tick position.
pub open spec fn ai_prefix_ok(pre: World, cur: World, b: int, t: u64) -> bool {
    &&& cur.spec_entities().len() == pre.spec_entities().len()
    &&& forall|i: int| 0 <= i < pre.spec_entities().len() ==> {
        let e0 = pre.spec_entities()[i];
        #[trigger] cur.spec_entities()[i] == if prefix_has_key(pre.spec_behaviors(), b, e0.id) {
            (Entity { pos: pre.spec_tick_pos(e0, t), ..e0 })
        } else {
            e0
        }
    }
}

impl World {
    /// The position entity `e` holds after the AI pass of tick `t`: its
    /// goal's target cell when that cell is in bounds and walkable, else its
    /// current cell; an entity without a behavior entry does not move.
    pub open spec fn spec_tick_pos(self, e: Entity, t: u64) -> Position {
        if self.has_behavior(e.id) {
            let goal = self.spec_behaviors()[self.behavior_index(e.id)].1.current_goal;
            let tgt = spec_step_target(e.pos, goal, t);
            if self.can_stand(tgt) {
                tgt
            } else {
                e.pos
            }
        } else {
            e.pos
        }
    }

    /// Advances the world by one tick: increments the tick counter, lets
    /// every behavior-driven entity attempt its goal's step (a blocked step
    /// is silently absorbed), and every 100 ticks, when more than one entity
    /// is live, appends one synthetic `Combat` event naming the first two
    /// entities by id.
    pub fn tick(&mut self)
        requires
            old(self).wf(),
            old(self).spec_tick_count() < u64::MAX,
        ensures
            final(self).wf(),
            final(self).spec_tick_count() == old(self).spec_tick_count() + 1,
            final(self).spec_width() == old(self).spec_width(),
            final(self).spec_height() == old(self).spec_height(),
            final(self).spec_config() == old(self).spec_config(),
            final(self).spec_behaviors() == old(self).spec_behaviors(),
            final(self).spec_next_entity_id() == old(self).spec_next_entity_id(),
            final(self).spec_entities().len() == old(self).spec_entities().len(),
            forall|i: int| 0 <= i < old(self).spec_entities().len() ==> {
                let e0 = old(self).spec_entities()[i];
                #[trigger] final(self).spec_entities()[i] == (Entity {
                    pos: old(self).spec_tick_pos(e0, (old(self).spec_tick_count() + 1) as u64),
                    ..e0
                })
            },
            if (old(self).spec_tick_count() + 1) % 100 == 0 && old(self).spec_entities().len() > 1
                && old(self).spec_next_event_id() < u64::MAX {
                &&& final(self).spec_events().len() == old(self).spec_events().len() + 1
                &&& forall|k: int| 0 <= k < old(self).spec_events().len()
                    ==> #[trigger] final(self).spec_events()[k] == old(self).spec_events()[k]
                &&& {
                    let ev = final(self).spec_events().last();
                    &&& ev.id == old(self).spec_next_event_id()
                    &&& ev.tick == old(self).spec_tick_count() + 1
                    &&& ev.event_type == EventType::Combat
                    &&& ev.participants@ == seq![
                        old(self).spec_entities()[0].id,
                        old(self).spec_entities()[1].id,
                    ]
                    &&& ev.location == (Position { x: 10, y: 10 })
                    &&& ev.description@ == "A skirmish occurred in the grasslands"@
                }
                &&& final(self).spec_next_event_id() == old(self).spec_next_event_id() + 1
            } else {
                &&& final(self).spec_events() == old(self).spec_events()
                &&& final(self).spec_next_event_id() == old(self).spec_next_event_id()
            },
    {
        self.current_tick = self.current_tick + 1;
        proof {
            let pre = *old(self);
            let post = *self;
            World::lemma_terrain_preserved(pre, post);
            World::lemma_behaviors_preserved(pre, post);
            World::lemma_events_preserved(pre, post);
            World::lemma_entities_preserved(pre, post);
        }
        self.update_ai();
        self.update_factions();
        if self.current_tick % 100 == 0 {
            self.generate_random_event();
        }
    }

    /// One AI pass at the current tick: every behavior entry, in table
    /// order, makes its entity attempt the step of its goal.
    fn update_ai(&mut self)
        requires
            old(self).wf(),
        ensures
            final(self).wf(),
            old(self).same_except_entities(*final(self)),
            final(self).spec_next_entity_id() == old(self).spec_next_entity_id(),
            final(self).spec_entities().len() == old(self).spec_entities().len(),
            forall|i: int| 0 <= i < old(self).spec_entities().len() ==> {
                let e0 = old(self).spec_entities()[i];
                #[trigger] final(self).spec_entities()[i] == (Entity {
                    pos: old(self).spec_tick_pos(e0, old(self).spec_tick_count()),
                    ..e0
                })
            },
    {
        let t = self.current_tick;
        let m = self.ai_behaviors.len();
        let mut b: usize = 0;
        while b < m
            invariant
                self.wf(),
                old(self).wf(),
                t == old(self).spec_tick_count(),
                m == old(self).spec_behaviors().len(),
                b <= m,
                old(self).same_except_entities(*self),
                self.spec_next_entity_id() == old(self).spec_next_entity_id(),
                ai_prefix_ok(*old(self), *self, b as int, t),
            decreases m - b,
        {
            let ghost prev = *self;
            let id = self.ai_behaviors[b].0;
            let goal = self.ai_behaviors[b].1.current_goal;
            proof {
                old(self).lemma_behavior_index_agrees(b as int);
                World::lemma_key_fresh_in_prefix(*old(self), b as int);
            }
            match goal {
                AIGoal::Wander => {
                    let dx: i32 = (t % 3) as i32 - 1;
                    let dy: i32 = ((t / 3) % 3) as i32 - 1;
                    let moved = self.move_entity(id, dx, dy);
                    proof {
                        let pre0 = *old(self);
                        assert(dx as int == wander_dx(t) && dy as int == wander_dy(t));
                        World::lemma_ai_step(pre0, prev, *self, b as int, t, dx as int, dy as int, moved);
                    }
                },
                AIGoal::Patrol { start, end } => {
                    let idx_opt = self.find_entity_index(id);
                    match idx_opt {
                        Some(i) => {
                            let epos = self.entity_layer[i].pos;
                            let target = if (t / 50) % 2 == 0 {
                                start
                            } else {
                                end
                            };
                            let dx64: i64 = target.x as i64 - epos.x as i64;
                            let dy64: i64 = target.y as i64 - epos.y as i64;
                            let dx: i32 = if dx64 > 0 {
                                1
                            } else if dx64 < 0 {
                                -1
                            } else {
                                0
                            };
                            let dy: i32 = if dy64 > 0 {
                                1
                            } else if dy64 < 0 {
                                -1
                            } else {
                                0
                            };
                            let moved = self.move_entity(id, dx, dy);
                            proof {
                                let pre0 = *old(self);
                                assert(prev.spec_entities()[i as int] == pre0.spec_entities()[i as int]);
                                pre0.lemma_entity_index_agrees(i as int);
                                assert(pre0.entity_by_id(id).pos == epos);
                                World::lemma_ai_step(
                                    pre0, prev, *self, b as int, t, dx as int, dy as int, moved,
                                );
                            }
                        },
                        None => {
                            proof {
                                let pre0 = *old(self);
                                World::lemma_ai_no_step(pre0, prev, *self, b as int, t);
                            }
                        },
                    }
                },
                _ => {
                    proof {
                        let pre0 = *old(self);
                        World::lemma_ai_inert(pre0, prev, *self, b as int, t);
                    }
                },
            }
            b = b + 1;
        }
        proof {
            let pre0 = *old(self);
            assert forall|i: int| 0 <= i < pre0.spec_entities().len() implies {
                let e0 = pre0.spec_entities()[i];
                #[trigger] self.spec_entities()[i] == (Entity {
                    pos: pre0.spec_tick_pos(e0, t),
                    ..e0
                })
            } by {
                let e0 = pre0.spec_entities()[i];
                if prefix_has_key(pre0.spec_behaviors(), m as int, e0.id) {
                } else {
                    assert(!pre0.has_behavior(e0.id));
                    assert(pre0.spec_tick_pos(e0, t) == e0.pos);
                    assert((Entity { pos: e0.pos, ..e0 }) == e0);
                }
            }
        }
    }

    /// Spawns one NPC with a `Wander` behavior, absorbing a blocked spawn.
    fn spawn_npc(&mut self, name: &str, x: i32, y: i32)
        requires
            old(self).wf(),
            old(self).spec_next_entity_id() < u32::MAX,
        ensures
            final(self).wf(),
            final(self).spec_width() == old(self).spec_width(),
            final(self).spec_height() == old(self).spec_height(),
            final(self).spec_config() == old(self).spec_config(),
            final(self).spec_events() == old(self).spec_events(),
            final(self).spec_next_event_id() == old(self).spec_next_event_id(),
            final(self).spec_tick_count() == old(self).spec_tick_count(),
            if old(self).can_stand((Position { x, y })) {
                &&& final(self).spec_entities().len() == old(self).spec_entities().len() + 1
                &&& forall|j: int| 0 <= j < old(self).spec_entities().len()
                    ==> #[trigger] final(self).spec_entities()[j] == old(self).spec_entities()[j]
                &&& {
                    let e = final(self).spec_entities().last();
                    &&& e.id == old(self).spec_next_entity_id()
                    &&& e.name@ == name@
                    &&& e.pos == (Position { x, y })
                    &&& e.entity_type == EntityType::NPC
                }
                &&& final(self).spec_next_entity_id() == old(self).spec_next_entity_id() + 1
                &&& final(self).spec_behaviors().len() == old(self).spec_behaviors().len() + 1
                &&& forall|j: int| 0 <= j < old(self).spec_behaviors().len()
                    ==> #[trigger] final(self).spec_behaviors()[j] == old(self).spec_behaviors()[j]
                &&& {
                    let be = final(self).spec_behaviors().last();
                    &&& be.0 == old(self).spec_next_entity_id()
                    &&& be.1.current_goal == AIGoal::Wander
                    &&& be.1.memory@ == Seq::<Memory>::empty()
                    &&& be.1.personality == (Personality {
                        aggression: 30,
                        curiosity: 70,
                        sociability: 50,
                    })
                }
            } else {
                &&& *final(self) == *old(self)
            },
    {
        let pos = Position::new(x, y);
        let id_opt = self.spawn_entity(String::from_str(name), pos, EntityType::NPC);
        let ghost mid = *self;
        match id_opt {
            Some(id) => {
                let behavior = AIBehavior {
                    current_goal: AIGoal::Wander,
                    memory: Vec::new(),
                    personality: Personality { aggression: 30, curiosity: 70, sociability: 50 },
                };
                self.ai_behaviors.push((id, behavior));
                proof {
                    let pre = *old(self);
                    let post = *self;
                    World::lemma_terrain_preserved(mid, post);
                    World::lemma_events_preserved(mid, post);
                    World::lemma_entities_preserved(mid, post);
                    let m = pre.spec_behaviors().len() as int;
                    assert(mid.spec_behaviors() == pre.spec_behaviors());
                    assert forall|i: int, j: int| 0 <= i < j < post.spec_behaviors().len()
                        implies (#[trigger] post.spec_behaviors()[i]).0
                            != (#[trigger] post.spec_behaviors()[j]).0 by {
                        if j < m {
                            assert(pre.spec_behaviors()[i].0 != pre.spec_behaviors()[j].0);
                        } else {
                            assert(post.spec_behaviors()[j].0 == id);
                            assert(post.spec_behaviors()[i] == pre.spec_behaviors()[i]);
                            assert(pre.spec_behaviors()[i].0 < pre.spec_next_entity_id());
                        }
                    }
                    assert forall|i: int| 0 <= i < post.spec_behaviors().len()
                        implies (#[trigger] post.spec_behaviors()[i]).0
                            < post.spec_next_entity_id() by {
                        if i < m {
                            assert(post.spec_behaviors()[i] == pre.spec_behaviors()[i]);
                            assert(pre.spec_behaviors()[i].0 < pre.spec_next_entity_id());
                        }
                    }
                }
            },
            None => {},
        }
    }

    /// Spawns the initial set of wandering NPCs: one per slot whose cell is
    /// spawnable under this world's policy, with names, ids and behavior
    /// entries assigned in slot order as `npc_plan` describes.
    #[verifier::rlimit(50)]
    pub fn spawn_initial_npcs(&mut self)
        requires
            old(self).wf(),
            old(self).spec_next_entity_id() <= u32::MAX - 5,
        ensures
            final(self).wf(),
            final(self).spec_width() == old(self).spec_width(),
            final(self).spec_height() == old(self).spec_height(),
            final(self).spec_config() == old(self).spec_config(),
            final(self).spec_events() == old(self).spec_events(),
            final(self).spec_next_event_id() == old(self).spec_next_event_id(),
            final(self).spec_tick_count() == old(self).spec_tick_count(),
            ({
                let plan = npc_plan(
                    old(self).spec_config(),
                    old(self).spec_width(),
                    old(self).spec_height(),
                    0,
                );
                &&& final(self).spec_entities().len() == old(self).spec_entities().len()
                    + plan.len()
                &&& forall|j: int| 0 <= j < old(self).spec_entities().len()
                    ==> #[trigger] final(self).spec_entities()[j] == old(self).spec_entities()[j]
                &&& forall|j: int| 0 <= j < plan.len() ==> {
                    let e = #[trigger] final(self).spec_entities()[old(
                        self,
                    ).spec_entities().len() + j];
                    &&& e.id == old(self).spec_next_entity_id() + j
                    &&& e.name@ == npc_name(plan[j])
                    &&& e.pos == npc_pos(plan[j])
                    &&& e.entity_type == EntityType::NPC
                }
                &&& final(self).spec_next_entity_id() == old(self).spec_next_entity_id()
                    + plan.len()
                &&& final(self).spec_behaviors().len() == old(self).spec_behaviors().len()
                    + plan.len()
                &&& forall|j: int| 0 <= j < old(self).spec_behaviors().len()
                    ==> #[trigger] final(self).spec_behaviors()[j] == old(self).spec_behaviors()[j]
                &&& forall|j: int| 0 <= j < plan.len() ==> {
                    let be = #[trigger] final(self).spec_behaviors()[old(
                        self,
                    ).spec_behaviors().len() + j];
                    &&& be.0 == old(self).spec_next_entity_id() + j
                    &&& be.1.current_goal == AIGoal::Wander
                    &&& be.1.memory@ == Seq::<Memory>::empty()
                    &&& be.1.personality == (Personality {
                        aggression: 30,
                        curiosity: 70,
                        sociability: 50,
                    })
                }
            }),
    {
        self.spawn_npc("NPC_0", 5, 5);
        self.spawn_npc("NPC_1", 6, 6);
        self.spawn_npc("NPC_2", 7, 7);
        self.spawn_npc("NPC_3", 8, 8);
        self.spawn_npc("NPC_4", 9, 9);
        proof {
            let pre = *old(self);
            let cfg = pre.spec_config();
            let w = pre.spec_width();
            let h = pre.spec_height();
            let p5 = npc_plan(cfg, w, h, 5);
            let p4 = npc_plan(cfg, w, h, 4);
            let p3 = npc_plan(cfg, w, h, 3);
            let p2 = npc_plan(cfg, w, h, 2);
            let p1 = npc_plan(cfg, w, h, 1);
            let p0 = npc_plan(cfg, w, h, 0);
            assert(p5 =~= Seq::<int>::empty());
            assert(npc_pos(0) == (Position { x: 5, y: 5 }));
            assert(npc_pos(1) == (Position { x: 6, y: 6 }));
            assert(npc_pos(2) == (Position { x: 7, y: 7 }));
            assert(npc_pos(3) == (Position { x: 8, y: 8 }));
            assert(npc_pos(4) == (Position { x: 9, y: 9 }));
        }
    }

    /// The diplomacy pass: a declared extension point with no behavior yet.
    fn update_factions(&mut self)
        ensures
            *final(self) == *old(self),
    {
    }

    /// The key of behavior entry `b` occurs nowhere among the earlier
    /// entries: behavior keys are distinct.
    proof fn lemma_key_fresh_in_prefix(pre: World, b: int)
        requires
            pre.wf(),
            0 <= b < pre.spec_behaviors().len(),
        ensures
            !prefix_has_key(pre.spec_behaviors(), b, pre.spec_behaviors()[b].0),
    {
        let id = pre.spec_behaviors()[b].0;
        if prefix_has_key(pre.spec_behaviors(), b, id) {
            let k = choose|k: int| 0 <= k < b && (#[trigger] pre.spec_behaviors()[k]).0 == id;
            assert(pre.spec_behaviors()[k].0 != pre.spec_behaviors()[b].0);
        }
    }

    /// Ids are carried over unchanged through an AI pass prefix.
    proof fn lemma_prefix_ids(pre: World, cur: World, b: int, t: u64)
        requires
            ai_prefix_ok(pre, cur, b, t),
        ensures
            forall|i: int| 0 <= i < cur.spec_entities().len()
                ==> (#[trigger] cur.spec_entities()[i]).id == pre.spec_entities()[i].id,
    {
        assert forall|i: int| 0 <= i < cur.spec_entities().len()
            implies (#[trigger] cur.spec_entities()[i]).id == pre.spec_entities()[i].id by {
            let e0 = pre.spec_entities()[i];
            assert(cur.spec_entities()[i] == if prefix_has_key(pre.spec_behaviors(), b, e0.id) {
                (Entity { pos: pre.spec_tick_pos(e0, t), ..e0 })
            } else {
                e0
            });
        }
    }

    /// One step of the AI pass: behavior entry `b` drove a `move_entity`
    /// attempt whose step agrees with the goal's target; the pass invariant
    /// advances from prefix `b` to prefix `b + 1`.
    proof fn lemma_ai_step(
        pre: World,
        prev: World,
        cur: World,
        b: int,
        t: u64,
        dx: int,
        dy: int,
        moved: bool,
    )
        requires
            pre.wf(),
            prev.wf(),
            0 <= b < pre.spec_behaviors().len(),
            pre.same_except_entities(prev),
            ai_prefix_ok(pre, prev, b, t),
            -1 <= dx <= 1,
            -1 <= dy <= 1,
            ({
                let bid = pre.spec_behaviors()[b].0;
                pre.has_entity(bid) ==> spec_step_target(
                    pre.entity_by_id(bid).pos,
                    pre.spec_behaviors()[b].1.current_goal,
                    t,
                ) == spec_moved_pos(pre.entity_by_id(bid).pos, dx, dy)
            }),
            moved == prev.spec_move_ok(pre.spec_behaviors()[b].0, dx, dy),
            moved ==> cur.spec_entities() =~= prev.spec_entities().update(
                prev.entity_index(pre.spec_behaviors()[b].0),
                (Entity {
                    pos: spec_moved_pos(
                        prev.entity_by_id(pre.spec_behaviors()[b].0).pos,
                        dx,
                        dy,
                    ),
                    ..prev.entity_by_id(pre.spec_behaviors()[b].0)
                }),
            ),
            !moved ==> cur == prev,
        ensures
            ai_prefix_ok(pre, cur, b + 1, t),
    {
        let bid = pre.spec_behaviors()[b].0;
        let bs = pre.spec_behaviors();
        World::lemma_key_fresh_in_prefix(pre, b);
        World::lemma_prefix_ids(pre, prev, b, t);
        pre.lemma_behavior_index_agrees(b);
        assert forall|i: int| 0 <= i < pre.spec_entities().len() implies {
            let e0 = pre.spec_entities()[i];
            #[trigger] cur.spec_entities()[i] == if prefix_has_key(bs, b + 1, e0.id) {
                (Entity { pos: pre.spec_tick_pos(e0, t), ..e0 })
            } else {
                e0
            }
        } by {
            let e0 = pre.spec_entities()[i];
            if e0.id == bid {
                assert(bs[b].0 == e0.id);
                assert(prefix_has_key(bs, b + 1, e0.id));
                assert(prev.spec_entities()[i] == e0);
                prev.lemma_entity_index_agrees(i);
                pre.lemma_entity_index_agrees(i);
                assert(prev.entity_by_id(bid) == e0);
                assert(pre.entity_by_id(bid) == e0);
                let goal = bs[b].1.current_goal;
                let tgt = spec_step_target(e0.pos, goal, t);
                assert(tgt == spec_moved_pos(e0.pos, dx, dy));
                assert(pre.spec_tick_pos(e0, t) == if pre.can_stand(tgt) {
                    tgt
                } else {
                    e0.pos
                });
                if moved {
                    assert(prev.spec_move_ok(bid, dx, dy));
                    assert(in_bounds(prev.spec_width(), prev.spec_height(), e0.pos.x + dx, e0.pos.y + dy));
                    assert(tgt.x == e0.pos.x + dx && tgt.y == e0.pos.y + dy);
                    assert(pre.can_stand(tgt));
                    assert(cur.spec_entities()[i] == (Entity { pos: tgt, ..e0 }));
                } else {
                    assert(!prev.spec_move_ok(bid, dx, dy));
                    assert(prev.has_entity(bid));
                    if pre.can_stand(tgt) {
                        assert(tgt.x == e0.pos.x + dx && tgt.y == e0.pos.y + dy);
                        assert(prev.spec_move_ok(bid, dx, dy));
                    }
                    assert(pre.spec_tick_pos(e0, t) == e0.pos);
                    assert(cur.spec_entities()[i] == e0);
                    assert((Entity { pos: e0.pos, ..e0 }) == e0);
                }
            } else {
                assert(prefix_has_key(bs, b + 1, e0.id) == prefix_has_key(bs, b, e0.id)) by {
                    if prefix_has_key(bs, b + 1, e0.id) {
                        let k = choose|k: int| 0 <= k < b + 1 && (#[trigger] bs[k]).0 == e0.id;
                        assert(k != b);
                        assert(0 <= k < b && bs[k].0 == e0.id);
                    }
                }
                if moved {
                    let i0 = prev.entity_index(bid);
                    assert(prev.has_entity(bid));
                    assert(prev.spec_entities()[i0].id == bid);
                    assert(pre.spec_entities()[i0].id == bid);
                    assert(i != i0);
                    assert(cur.spec_entities()[i] == prev.spec_entities()[i]);
                } else {
                    assert(cur.spec_entities()[i] == prev.spec_entities()[i]);
                }
            }
        }
    }

    /// Behavior entry `b` is keyed by an id with no live entity: nothing
    /// moves, and the pass invariant advances.
    proof fn lemma_ai_no_step(pre: World, prev: World, cur: World, b: int, t: u64)
        requires
            pre.wf(),
            prev.wf(),
            0 <= b < pre.spec_behaviors().len(),
            ai_prefix_ok(pre, prev, b, t),
            !prev.has_entity(pre.spec_behaviors()[b].0),
            cur == prev,
        ensures
            ai_prefix_ok(pre, cur, b + 1, t),
    {
        let bid = pre.spec_behaviors()[b].0;
        let bs = pre.spec_behaviors();
        World::lemma_prefix_ids(pre, prev, b, t);
        assert forall|i: int| 0 <= i < pre.spec_entities().len() implies {
            let e0 = pre.spec_entities()[i];
            #[trigger] cur.spec_entities()[i] == if prefix_has_key(bs, b + 1, e0.id) {
                (Entity { pos: pre.spec_tick_pos(e0, t), ..e0 })
            } else {
                e0
            }
        } by {
            let e0 = pre.spec_entities()[i];
            if e0.id == bid {
                assert(prev.spec_entities()[i].id == bid);
                assert(prev.has_entity(bid));
                assert(false);
            } else {
                assert(prefix_has_key(bs, b + 1, e0.id) == prefix_has_key(bs, b, e0.id)) by {
                    if prefix_has_key(bs, b + 1, e0.id) {
                        let k = choose|k: int| 0 <= k < b + 1 && (#[trigger] bs[k]).0 == e0.id;
                        assert(k != b);
                        assert(0 <= k < b && bs[k].0 == e0.id);
                    }
                }
            }
        }
    }

    /// Behavior entry `b` holds a recognized-but-inert goal: its entity aims
    /// for its own cell and stays, and the pass invariant advances.
    proof fn lemma_ai_inert(pre: World, prev: World, cur: World, b: int, t: u64)
        requires
            pre.wf(),
            prev.wf(),
            0 <= b < pre.spec_behaviors().len(),
            ai_prefix_ok(pre, prev, b, t),
            !(pre.spec_behaviors()[b].1.current_goal is Wander),
            !(pre.spec_behaviors()[b].1.current_goal is Patrol),
            cur == prev,
        ensures
            ai_prefix_ok(pre, cur, b + 1, t),
    {
        let bid = pre.spec_behaviors()[b].0;
        let bs = pre.spec_behaviors();
        World::lemma_key_fresh_in_prefix(pre, b);
        pre.lemma_behavior_index_agrees(b);
        assert forall|i: int| 0 <= i < pre.spec_entities().len() implies {
            let e0 = pre.spec_entities()[i];
            #[trigger] cur.spec_entities()[i] == if prefix_has_key(bs, b + 1, e0.id) {
                (Entity { pos: pre.spec_tick_pos(e0, t), ..e0 })
            } else {
                e0
            }
        } by {
            let e0 = pre.spec_entities()[i];
            if e0.id == bid {
                assert(bs[b].0 == e0.id);
                assert(prefix_has_key(bs, b + 1, e0.id));
                assert(prev.spec_entities()[i] == e0);
                assert(spec_step_target(e0.pos, bs[b].1.current_goal, t) == e0.pos);
                assert(pre.can_stand(e0.pos));
                assert(pre.spec_tick_pos(e0, t) == e0.pos);
                assert((Entity { pos: e0.pos, ..e0 }) == e0);
            } else {
                assert(prefix_has_key(bs, b + 1, e0.id) == prefix_has_key(bs, b, e0.id)) by {
                    if prefix_has_key(bs, b + 1, e0.id) {
                        let k = choose|k: int| 0 <= k < b + 1 && (#[trigger] bs[k]).0 == e0.id;
                        assert(k != b);
                        assert(0 <= k < b && bs[k].0 == e0.id);
                    }
                }
            }
        }
    }

    /// Appends one synthetic `Combat` event naming the first two entities by
    /// id, when more than one entity is live and the event id space allows
    /// it; the stub stands in for a future event-generation system.
    fn generate_random_event(&mut self)
        requires
            old(self).wf(),
        ensures
            final(self).wf(),
            final(self).spec_width() == old(self).spec_width(),
            final(self).spec_height() == old(self).spec_height(),
            final(self).spec_config() == old(self).spec_config(),
            final(self).spec_entities() == old(self).spec_entities(),
            final(self).spec_behaviors() == old(self).spec_behaviors(),
            final(self).spec_next_entity_id() == old(self).spec_next_entity_id(),
            final(self).spec_tick_count() == old(self).spec_tick_count(),
            if old(self).spec_entities().len() > 1 && old(self).spec_next_event_id() < u64::MAX
                && old(self).spec_next_event_id() <= old(self).spec_tick_count() {
                &&& final(self).spec_events().len() == old(self).spec_events().len() + 1
                &&& forall|k: int| 0 <= k < old(self).spec_events().len()
                    ==> #[trigger] final(self).spec_events()[k] == old(self).spec_events()[k]
                &&& {
                    let ev = final(self).spec_events().last();
                    &&& ev.id == old(self).spec_next_event_id()
                    &&& ev.tick == old(self).spec_tick_count()
                    &&& ev.event_type == EventType::Combat
                    &&& ev.participants@ == seq![
                        old(self).spec_entities()[0].id,
                        old(self).spec_entities()[1].id,
                    ]
                    &&& ev.location == (Position { x: 10, y: 10 })
                    &&& ev.description@ == "A skirmish occurred in the grasslands"@
                }
                &&& final(self).spec_next_event_id() == old(self).spec_next_event_id() + 1
            } else {
                &&& final(self).spec_events() == old(self).spec_events()
                &&& final(self).spec_next_event_id() == old(self).spec_next_event_id()
            },
    {
        if self.entity_layer.len() > 1 && self.next_event_id < u64::MAX
            && self.next_event_id <= self.current_tick {
            let first = self.entity_layer[0].id;
            let second = self.entity_layer[1].id;
            let event = HistoricalEvent {
                id: self.next_event_id,
                tick: self.current_tick,
                event_type: EventType::Combat,
                participants: vec![first, second],
                location: Position::new(10, 10),
                description: String::from_str("A skirmish occurred in the grasslands"),
            };
            self.next_event_id = self.next_event_id + 1;
            self.historical_events.push(event);
            proof {
                let pre = *old(self);
                let post = *self;
                World::lemma_terrain_preserved(pre, post);
                World::lemma_behaviors_preserved(pre, post);
                let n = pre.spec_events().len() as int;
                assert forall|i: int, j: int| 0 <= i < j < post.spec_events().len()
                    implies #[trigger] post.spec_events()[i].id
                        < #[trigger] post.spec_events()[j].id by {
                    if j < n {
                        assert(pre.spec_events()[i].id < pre.spec_events()[j].id);
                    } else {
                        assert(post.spec_events()[i] == pre.spec_events()[i]);
                        assert(pre.spec_events()[i].id < pre.spec_next_event_id());
                    }
                }
                assert forall|i: int| 0 <= i < post.spec_events().len()
                    implies #[trigger] post.spec_events()[i].id < post.spec_next_event_id() by {
                    if i < n {
                        assert(pre.spec_events()[i].id < pre.spec_next_event_id());
                    }
                }
            }
        }
    }
}

} // verus!
