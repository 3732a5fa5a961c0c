use vstd::prelude::*;

use crate::coord::{Vec2u, Vec3u};
use crate::storage::array_buffer::VoxelBuffer;

verus! {

/// Edge length of the logical chunk cube, in voxels.
pub const CHUNK_SIZE: u32 = 64;

/// Edge length including the one-voxel padding shell on each side, kept so
/// boundary faces can be evaluated without consulting neighbouring chunks.
pub const PADDED_CHUNK_SIZE: u32 = CHUNK_SIZE + 2;

/// Cells in one padded horizontal footprint: the padded edge squared.
pub const PADDED_CHUNK_AREA: u32 = 4356;

/// Voxels in one padded chunk cube: the padded edge cubed.
pub const PADDED_CHUNK_VOLUME: u32 = 287496;

/// Linear index of a padded-footprint cell, rows along x.
pub open spec fn linearize2_spec(x: int, y: int) -> int {
    x + (PADDED_CHUNK_SIZE as int) * y
}

/// Linear index of a padded-cube voxel, rows along x, slabs along z.
pub open spec fn linearize3_spec(x: int, y: int, z: int) -> int {
    x + (PADDED_CHUNK_SIZE as int) * y + (PADDED_CHUNK_AREA as int) * z
}

pub fn linearize2(p: Vec2u) -> (r: usize)
    requires
        p.x < PADDED_CHUNK_SIZE,
        p.y < PADDED_CHUNK_SIZE,
    ensures
        r == linearize2_spec(p.x as int, p.y as int),
        r < PADDED_CHUNK_AREA,
{
    (p.x + PADDED_CHUNK_SIZE * p.y) as usize
}

pub fn linearize3(p: Vec3u) -> (r: usize)
    requires
        p.x < PADDED_CHUNK_SIZE,
        p.y < PADDED_CHUNK_SIZE,
        p.z < PADDED_CHUNK_SIZE,
    ensures
        r == linearize3_spec(p.x as int, p.y as int, p.z as int),
        r < PADDED_CHUNK_VOLUME,
{
    (p.x + PADDED_CHUNK_SIZE * p.y + PADDED_CHUNK_AREA * p.z) as usize
}

/// Inverse of `linearize2`.
pub fn delinearize2(i: usize) -> (r: Vec2u)
    requires
        i < PADDED_CHUNK_AREA,
    ensures
        r.x < PADDED_CHUNK_SIZE,
        r.y < PADDED_CHUNK_SIZE,
        r.x == (i as int) % (PADDED_CHUNK_SIZE as int),
        r.y == (i as int) / (PADDED_CHUNK_SIZE as int),
        linearize2_spec(r.x as int, r.y as int) == i,
{
    let x = (i as u32) % PADDED_CHUNK_SIZE;
    let y = (i as u32) / PADDED_CHUNK_SIZE;
    Vec2u { x, y }
}

/// The padded voxel volume of one chunk.
pub struct VoxelChunk {
    pub voxels: VoxelBuffer,
}

impl Default for VoxelChunk {
    /// A chunk whose voxels are all empty.
    fn default() -> (r: Self)
        ensures
            r.voxels.wf(),
            forall|i: int|
                0 <= i < r.voxels@.len() ==> r.voxels@[i] == (
                crate::storage::voxel::Voxel(0u16)),
    {
        VoxelChunk { voxels: VoxelBuffer::new() }
    }
}

} // verus!
