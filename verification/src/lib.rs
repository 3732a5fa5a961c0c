//! Streams an infinite voxel world around a moving viewpoint: a priority
//! queue hands out the nearest pending chunks first, a deduplicating cache
//! guarantees each heightmap is synthesized at most once however many chunks
//! wait on it, a terrain builder turns heightmaps into voxel volumes, a
//! bounded dispatcher caps how much of that runs at once, and a greedy
//! mesher merges the finished voxels' visible faces into quads. Every piece
//! here carries a contract; the asynchronous plumbing, the noise sampling
//! and the rendering host live with the driver around the library.

pub mod cache;
pub mod coord;
pub mod generation;
pub mod trait_ext;
pub mod assoc;
pub mod associated_ord;
pub mod player;
pub mod queue;
pub mod render;
pub mod storage;
mod sync;
pub mod world;
