pub mod array_buffer;
pub mod chunk;
pub mod heightmap;
pub mod voxel;
pub mod voxel_world;
