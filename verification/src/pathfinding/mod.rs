//! Click-to-move: 8-connected A* over the terrain surface grid, goal snapping
//! and string pulling.

pub mod frontier;
pub mod ground;
pub mod line;
pub mod request;
pub mod search;
pub mod search_model;
pub mod snap;
pub mod toll;
