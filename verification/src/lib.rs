//! The verified core of a voxel world: terrain and city generation, chunk
//! streaming, pathfinding, the voxel editor and the menu rules.

pub mod blocked;
pub mod camera;
pub mod city;
pub mod column_table;
pub mod columns;
pub mod dice;
pub mod editor;
pub mod gameplay;
pub mod grass;
pub mod grid;
pub mod grid_map;
pub mod ieee;
pub mod menu;
pub mod mesh_grid;
pub mod monitor;
pub mod overrides;
pub mod pathfinding;
pub mod physics;
pub mod quality;
pub mod terrain;
pub mod text;
pub mod tiles;
