//! Authoritative shared-world engine for a tile-based multiplayer simulation:
//! layered world state (terrain, entities, AI goals), a tick scheduler, spatial
//! viewport queries, a broadcast hub for fan-out of game events, per-session
//! state machines, and account/session management at the edge.

pub mod admin;
pub mod auth;
pub mod hub;
pub mod session;
pub mod types;
pub mod viewport;
pub mod world;
