use vstd::prelude::*;

use crate::coord::{Vec2i, Vec3i};
use crate::generation::terrain::{fill_terrain_columns, local_height_spec, TerrainGenerator};
use crate::storage::array_buffer::valid3;
use crate::storage::chunk::{VoxelChunk, PADDED_CHUNK_AREA};
use crate::storage::heightmap::Heightmap;
use crate::storage::voxel::Voxel;

verus! {

/// Terrain with one constant height everywhere, for trying the pipeline out.
pub struct FlatTerrainGenerator {
    pub height: i32,
}

impl FlatTerrainGenerator {
    /// The heightmap of this terrain: its constant height in every cell,
    /// whatever the origin.
    pub fn generate_heightmap(&self, _origin: Vec2i) -> (r: Heightmap)
        ensures
            r.wf(),
            forall|i: int| 0 <= i < r@.len() ==> r@[i] == self.height,
    {
        let mut samples: Vec<i32> = Vec::new();
        let mut i: usize = 0;
        while i < (PADDED_CHUNK_AREA as usize)
            invariant
                0 <= i <= PADDED_CHUNK_AREA,
                samples@.len() == i,
                forall|j: int| 0 <= j < i ==> samples@[j] == self.height,
            decreases PADDED_CHUNK_AREA - i,
        {
            samples.push(self.height);
            i = i + 1;
        }
        Heightmap::from_samples(samples)
    }
}

impl TerrainGenerator for FlatTerrainGenerator {
    fn generate_terrain(&self, origin: Vec3i, heightmap: &Heightmap, chunk: &mut VoxelChunk)
        ensures
            forall|x: int, y: int, z: int|
                valid3(x, y, z) ==> final(chunk).voxels.spec_voxel_at(x, y, z) == (
                if y < local_height_spec(heightmap.height_at(x, z), origin.y) {
                    Voxel(3u16)
                } else {
                    old(chunk).voxels.spec_voxel_at(x, y, z)
                }),
    {
        fill_terrain_columns(origin, heightmap, chunk);
    }
}

impl Default for FlatTerrainGenerator {
    fn default() -> (r: Self)
        ensures
            r.height == 0,
    {
        FlatTerrainGenerator { height: 0 }
    }
}

} // verus!
