pub mod chunk;
pub mod heightmap;
