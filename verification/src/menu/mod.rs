//! The front-end shell: save games, the flat test world, and the menu screens.

pub mod save;
pub mod screens;
pub mod testmap;
