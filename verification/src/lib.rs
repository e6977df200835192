//! Rules engine of a turn-based planning aid: a static catalog of 32 mapped
//! locations, a reachability search over its adjacency graph under an energy
//! budget, and a turn-by-turn travel simulation under a per-turn speed cap.

pub mod geometry;
pub mod planet;
pub mod query;
pub mod travel;
