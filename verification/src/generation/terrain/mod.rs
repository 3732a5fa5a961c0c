pub mod flat;
pub mod standard;

use vstd::prelude::*;

use crate::coord::{Vec2u, Vec3i, Vec3u};
use crate::storage::array_buffer::{valid3, Extent3};
use crate::storage::chunk::{VoxelChunk, CHUNK_SIZE, PADDED_CHUNK_SIZE};
use crate::storage::heightmap::Heightmap;
use crate::storage::voxel::Voxel;

verus! {

/// The filled span of one column: the terrain height above the chunk's
/// vertical base, clamped into the padded vertical range.
pub open spec fn local_height_spec(height: i32, origin_y: i32) -> int {
    let relative = height - origin_y * (CHUNK_SIZE as int);
    if relative < 0 {
        0
    } else if relative > PADDED_CHUNK_SIZE as int {
        PADDED_CHUNK_SIZE as int
    } else {
        relative
    }
}

/// Turns a heightmap into terrain for one chunk of the vertical column:
/// every cell's span `[0, clamp(height - origin_y * edge, 0, padded_edge))`
/// becomes solid ground, and nothing else changes.
pub trait TerrainGenerator {
    fn generate_terrain(&self, origin: Vec3i, heightmap: &Heightmap, chunk: &mut VoxelChunk)
        requires
            heightmap.wf(),
            old(chunk).voxels.wf(),
        ensures
            final(chunk).voxels.wf(),
            forall|x: int, y: int, z: int|
                valid3(x, y, z) ==> final(chunk).voxels.spec_voxel_at(x, y, z) == (
                if y < local_height_spec(heightmap.height_at(x, z), origin.y) {
                    Voxel(3u16)
                } else {
                    old(chunk).voxels.spec_voxel_at(x, y, z)
                }),
;
}

/// The shared column-filling pass both terrain generators run.
pub fn fill_terrain_columns(origin: Vec3i, heightmap: &Heightmap, chunk: &mut VoxelChunk)
    requires
        heightmap.wf(),
        old(chunk).voxels.wf(),
    ensures
        final(chunk).voxels.wf(),
        forall|x: int, y: int, z: int|
            valid3(x, y, z) ==> final(chunk).voxels.spec_voxel_at(x, y, z) == (
            if y < local_height_spec(heightmap.height_at(x, z), origin.y) {
                Voxel(3u16)
            } else {
                old(chunk).voxels.spec_voxel_at(x, y, z)
            }),
{
    let mut cz: u32 = 0;
    while cz < PADDED_CHUNK_SIZE
        invariant
            0 <= cz <= PADDED_CHUNK_SIZE,
            heightmap.wf(),
            chunk.voxels.wf(),
            forall|x: int, y: int, z: int|
                valid3(x, y, z) ==> chunk.voxels.spec_voxel_at(x, y, z) == (
                if z < cz && y < local_height_spec(heightmap.height_at(x, z), origin.y) {
                    Voxel(3u16)
                } else {
                    old(chunk).voxels.spec_voxel_at(x, y, z)
                }),
        decreases PADDED_CHUNK_SIZE - cz,
    {
        let mut cx: u32 = 0;
        while cx < PADDED_CHUNK_SIZE
            invariant
                0 <= cz < PADDED_CHUNK_SIZE,
                0 <= cx <= PADDED_CHUNK_SIZE,
                heightmap.wf(),
                chunk.voxels.wf(),
                forall|x: int, y: int, z: int|
                    valid3(x, y, z) ==> chunk.voxels.spec_voxel_at(x, y, z) == (
                    if (z < cz || (z == cz && x < cx)) && y < local_height_spec(
                        heightmap.height_at(x, z),
                        origin.y,
                    ) {
                        Voxel(3u16)
                    } else {
                        old(chunk).voxels.spec_voxel_at(x, y, z)
                    }),
            decreases PADDED_CHUNK_SIZE - cx,
        {
            let height = heightmap.get(Vec2u { x: cx, y: cz });
            let relative = height as i64 - (origin.y as i64) * (CHUNK_SIZE as i64);
            let local_height: u32 = if relative < 0 {
                0
            } else if relative > PADDED_CHUNK_SIZE as i64 {
                PADDED_CHUNK_SIZE
            } else {
                relative as u32
            };
            assert(local_height as int == local_height_spec(
                heightmap.height_at(cx as int, cz as int),
                origin.y,
            ));
            let ghost before = chunk.voxels;
            chunk.voxels.fill_extent(
                Extent3 {
                    minimum: Vec3u { x: cx, y: 0, z: cz },
                    shape: Vec3u { x: 1, y: local_height, z: 1 },
                },
                Voxel(3),
            );
            proof {
                assert forall|x: int, y: int, z: int| valid3(x, y, z) implies
                    chunk.voxels.spec_voxel_at(x, y, z) == (
                if (z < cz || (z == cz && x < cx + 1)) && y < local_height_spec(
                    heightmap.height_at(x, z),
                    origin.y,
                ) {
                    Voxel(3u16)
                } else {
                    old(chunk).voxels.spec_voxel_at(x, y, z)
                }) by {
                    assert(chunk.voxels.spec_voxel_at(x, y, z) == (
                    if x == cx && 0 <= y < local_height && z == cz {
                        Voxel(3u16)
                    } else {
                        before.spec_voxel_at(x, y, z)
                    }));
                }
            }
            cx = cx + 1;
        }
        cz = cz + 1;
    }
}

} // verus!
