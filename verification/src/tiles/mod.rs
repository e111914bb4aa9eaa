//! The chunked infinite tile world: tiles, chunks, their generators, the
//! streaming window and the prop scatter.

pub mod biome;
pub mod chunk;
pub mod coords;
pub mod generator;
pub mod manager;
pub mod props;
pub mod stairs;
pub mod streaming;
pub mod tile;
