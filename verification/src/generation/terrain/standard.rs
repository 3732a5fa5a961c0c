use vstd::prelude::*;

use crate::coord::Vec3i;
use crate::generation::terrain::{fill_terrain_columns, local_height_spec, TerrainGenerator};
use crate::storage::array_buffer::valid3;
use crate::storage::chunk::VoxelChunk;
use crate::storage::heightmap::Heightmap;
use crate::storage::voxel::Voxel;

verus! {

/// The shipped terrain: heights come from layered coherent noise, sampled
/// outside the verified core (see `generation::heightmap`), and columns are
/// filled the same way as every other generator.
#[derive(Default)]
pub struct StandardTerrainGenerator;

impl TerrainGenerator for StandardTerrainGenerator {
    fn generate_terrain(&self, origin: Vec3i, heightmap: &Heightmap, chunk: &mut VoxelChunk)
        ensures
            forall|x: int, y: int, z: int|
                valid3(x, y, z) ==> final(chunk).voxels.spec_voxel_at(x, y, z) == (
                if y < local_height_spec(heightmap.height_at(x, z), origin.y) {
                    Voxel(3u16)
                } else {
                    old(chunk).voxels.spec_voxel_at(x, y, z)
                }),
    {
        fill_terrain_columns(origin, heightmap, chunk);
    }
}

} // verus!
