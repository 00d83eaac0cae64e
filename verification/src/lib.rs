//! Streaming cache for map imagery tiles.
//!
//! The crate decides which tiles a 3D viewer needs for a given camera tile
//! position and zoom level, schedules fetches in priority order under a
//! concurrency budget, tracks which tiles are requested and active, applies
//! overlay treatment to a small set of persistent tiles pinned at one fixed
//! zoom level, and evicts tiles that have not been seen for too long.

pub mod cache;
pub mod coords;
pub mod eviction;
pub mod overlay;
pub mod pixels;
pub mod scheduler;
mod seq_lemmas;
pub mod zoom;
