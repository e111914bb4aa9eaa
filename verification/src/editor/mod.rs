//! The voxel model editor: palette, sub-voxel grid, body-part rig, project
//! files and the rules of the tools.

pub mod mesh;
pub mod overlay;
pub mod paint;
pub mod palette;
pub mod panels;
pub mod parts;
pub mod project;
pub mod rig;
pub mod sections;
pub mod state;
pub mod volume;
pub mod vox_writer;
pub mod voxel_map;
