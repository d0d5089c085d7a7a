pub mod blue_noise;
pub mod boxes;
pub mod cells;
pub mod commands;
pub mod lattice;
pub mod mesh;
pub mod normalize;
pub mod raster;
pub mod target;
