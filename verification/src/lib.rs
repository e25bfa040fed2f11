//! The level-progression engine of a 2D action game.
//!
//! The engine owns the content of the active level: it spawns, saves, reloads
//! and replaces it, and it decides when a door lets the player through.
//! Physics, input, rendering and file access stay outside; they hand the
//! engine plain values and carry out the requests it returns.
//!
//! - [`component`]: the components of an entity and the bundles that spawn
//!   them together.
//! - [`model`]: the mathematical model of the entity graph.
//! - [`world`]: the entity graph, with doors, keys and locks.
//! - [`scene`]: the snapshot of a level and the way back to live entities.
//! - [`codec`]: the text of a saved level.
//! - [`level`]: the lifecycle of levels and the routing of collisions.
//! - [`command`]: the commands of the level editor.
//! - [`weapon`]: the magazine of a weapon.
//! - [`text`]: reading and writing numbers and words.
//! - [`laws`]: what holds of the engine whatever is done with it.

pub mod codec;
pub mod command;
pub mod component;
pub mod laws;
pub mod level;
pub mod model;
pub mod scene;
pub mod text;
pub mod weapon;
pub mod world;
