use vstd::prelude::*;

use std::sync::Arc;

use crate::cache::FutureTaskCache;
use crate::coord::{Vec2i, Vec3i};
use crate::generation::heightmap::{generate_heightmap, GenerateHeightmapResult};
use crate::generation::terrain::flat::FlatTerrainGenerator;
use crate::generation::terrain::standard::StandardTerrainGenerator;
use crate::generation::terrain::{local_height_spec, TerrainGenerator};
use crate::queue::{DistanceOrderedQueue, Queue};
use crate::storage::array_buffer::valid3;
use crate::storage::chunk::VoxelChunk;
use crate::storage::heightmap::Heightmap;
use crate::storage::voxel::Voxel;
use crate::storage::voxel_world::VoxelWorld;
use crate::trait_ext::{order_key_le, DistanceOrd};
use crate::world::chunk::ChunkEntityMap;

verus! {

/// Marks the queue of chunk coordinates waiting for terrain generation.
pub struct GenerateChunk;

pub type ChunkGenerationQueue = DistanceOrderedQueue<Vec3i, GenerateChunk>;

/// The closed set of interchangeable terrain policies, chosen at
/// construction time and dispatched by one match.
pub enum TerrainStrategy {
    Flat(FlatTerrainGenerator),
    Standard(StandardTerrainGenerator),
}

/// Owns the heightmap cache and the terrain policy, and turns a heightmap
/// plus a vertical chunk coordinate into a filled voxel chunk.
pub struct ChunkGenerator<F> {
    pub heightmap_cache: FutureTaskCache<F, Heightmap>,
    pub terrain_generator: TerrainStrategy,
}

impl<F> ChunkGenerator<F> {
    /// Looks the origin's heightmap up in this generator's cache; see
    /// `generation::heightmap::generate_heightmap`.
    pub fn generate_heightmap(&self, origin: Vec2i) -> (r: GenerateHeightmapResult<F>)
        requires
            self.heightmap_cache.wf(),
        ensures
            match r {
                GenerateHeightmapResult::CacheHit(h) => self.heightmap_cache.results_map().dom().contains(
                    origin,
                ) && h == self.heightmap_cache.results_map()[origin],
                GenerateHeightmapResult::Loading(f) => !self.heightmap_cache.results_map().dom().contains(
                    origin,
                ) && self.heightmap_cache.futures_map().dom().contains(origin) && f
                    == self.heightmap_cache.futures_map()[origin],
                GenerateHeightmapResult::NeedsSpawn => !self.heightmap_cache.results_map().dom().contains(
                    origin,
                ) && !self.heightmap_cache.futures_map().dom().contains(origin),
            },
    {
        generate_heightmap(&self.heightmap_cache, origin)
    }

    /// Builds the chunk at `origin` from its column's heightmap: solid
    /// ground up to the clamped height, empty above.
    pub fn generate_chunk(&self, origin: Vec3i, heightmap: &Heightmap) -> (r: VoxelChunk)
        requires
            heightmap.wf(),
        ensures
            r.voxels.wf(),
            forall|x: int, y: int, z: int|
                valid3(x, y, z) ==> r.voxels.spec_voxel_at(x, y, z) == (
                if y < local_height_spec(heightmap.height_at(x, z), origin.y) {
                    Voxel(3u16)
                } else {
                    Voxel(0u16)
                }),
    {
        let mut chunk = VoxelChunk::default();
        match &self.terrain_generator {
            TerrainStrategy::Flat(generator) => generator.generate_terrain(
                origin,
                heightmap,
                &mut chunk,
            ),
            TerrainStrategy::Standard(generator) => generator.generate_terrain(
                origin,
                heightmap,
                &mut chunk,
            ),
        }
        chunk
    }
}

impl<F> Default for ChunkGenerator<F> {
    fn default() -> (r: Self)
        ensures
            r.heightmap_cache.wf(),
            r.heightmap_cache.futures_map() == Map::<Vec2i, Arc<F>>::empty(),
            r.heightmap_cache.results_map() == Map::<Vec2i, Arc<Heightmap>>::empty(),
            r.terrain_generator == (TerrainStrategy::Standard(StandardTerrainGenerator)),
    {
        ChunkGenerator {
            heightmap_cache: FutureTaskCache::new(),
            terrain_generator: TerrainStrategy::Standard(StandardTerrainGenerator),
        }
    }
}

/// How many new tasks one invocation may spawn: the configured cap, less the
/// tasks already running.
pub open spec fn spec_budget(limit: int, running: int) -> int {
    if running < limit {
        limit - running
    } else {
        0
    }
}

/// Pops up to `limit - running` nearest-first coordinates from the
/// generation queue; each one with a registered renderable slot is returned
/// for spawning, and the rest are silently discarded. Coordinates beyond the
/// budget stay queued.
pub fn plan_generation_dispatch(
    queue: &mut ChunkGenerationQueue,
    entity_map: &ChunkEntityMap,
    running: usize,
    limit: usize,
) -> (r: Vec<(Vec3i, u64)>)
    requires
        old(queue).wf(),
        entity_map.wf(),
    ensures
        final(queue).wf(),
        final(queue).center() == old(queue).center(),
        r@.len() <= spec_budget(limit as int, running as int),
        final(queue).size() == old(queue).size() - (
        if spec_budget(limit as int, running as int) <= old(queue).size() {
            spec_budget(limit as int, running as int)
        } else {
            old(queue).size() as int
        }),
        forall|i: int|
            0 <= i < r@.len() ==> {
                &&& entity_map@.dom().contains((#[trigger] r@[i]).0)
                &&& r@[i].1 == entity_map@[r@[i].0]
                &&& old(queue).contents().contains(r@[i].0)
            },
        forall|t: Vec3i|
            final(queue).contents().contains(t) ==> old(queue).contents().contains(t),
        forall|i: int, j: int|
            0 <= i < j < r@.len() ==> order_key_le(
                (#[trigger] r@[i]).0.distance_ord_spec(old(queue).center()),
                (#[trigger] r@[j]).0.distance_ord_spec(old(queue).center()),
            ),
        forall|t: Vec3i|
            #![trigger old(queue).contents().contains(t)]
            old(queue).contents().contains(t) && !final(queue).contents().contains(t)
                && entity_map@.dom().contains(t) ==> exists|i: int|
                0 <= i < r@.len() && (#[trigger] r@[i]) == (t, entity_map@[t]),
        forall|a: int, b: int|
            0 <= a < b < r@.len() ==> (#[trigger] r@[a]).0 != (#[trigger] r@[b]).0,
        r@.no_duplicates(),
        forall|i: int, u: Vec3i|
            0 <= i < r@.len() && final(queue).contents().contains(u) ==> order_key_le(
                (#[trigger] r@[i]).0.distance_ord_spec(old(queue).center()),
                #[trigger] u.distance_ord_spec(old(queue).center()),
            ),
{
    let budget = if running < limit {
        limit - running
    } else {
        0
    };
    let queue_len = queue.len();
    let to_pop = if budget < queue_len {
        budget
    } else {
        queue_len
    };
    let mut r: Vec<(Vec3i, u64)> = Vec::new();
    let mut i: usize = 0;
    while i < to_pop
        invariant
            queue.wf(),
            queue.center() == old(queue).center(),
            entity_map.wf(),
            0 <= i <= to_pop,
            to_pop == (if spec_budget(limit as int, running as int) <= old(queue).size() {
                spec_budget(limit as int, running as int)
            } else {
                old(queue).size() as int
            }),
            to_pop <= old(queue).size(),
            r@.len() <= i,
            queue.size() == old(queue).size() - i,
            forall|j: int|
                0 <= j < r@.len() ==> {
                    &&& entity_map@.dom().contains((#[trigger] r@[j]).0)
                    &&& r@[j].1 == entity_map@[r@[j].0]
                    &&& old(queue).contents().contains(r@[j].0)
                },
            forall|t: Vec3i| queue.contents().contains(t) ==> old(queue).contents().contains(t),
            forall|j: int, u: Vec3i|
                0 <= j < r@.len() && queue.contents().contains(u) ==> order_key_le(
                    (#[trigger] r@[j]).0.distance_ord_spec(old(queue).center()),
                    #[trigger] u.distance_ord_spec(old(queue).center()),
                ),
            forall|a: int, b: int|
                0 <= a < b < r@.len() ==> order_key_le(
                    (#[trigger] r@[a]).0.distance_ord_spec(old(queue).center()),
                    (#[trigger] r@[b]).0.distance_ord_spec(old(queue).center()),
                ),
            forall|j: int|
                0 <= j < r@.len() ==> !queue.contents().contains((#[trigger] r@[j]).0),
            forall|a: int, b: int|
                0 <= a < b < r@.len() ==> (#[trigger] r@[a]).0 != (#[trigger] r@[b]).0,
            forall|t: Vec3i|
                #![trigger old(queue).contents().contains(t)]
                old(queue).contents().contains(t) && !queue.contents().contains(t)
                    && entity_map@.dom().contains(t) ==> exists|i: int|
                    0 <= i < r@.len() && (#[trigger] r@[i]) == (t, entity_map@[t]),
        decreases to_pop - i,
    {
        let ghost pre_queue = *queue;
        let ghost pre_r = r@;
        match queue.pop() {
            Some(position) => {
                let slot = entity_map.get(&position);
                if let Some(entity) = slot {
                    r.push((position, entity));
                }
                proof {
                    assert forall|j: int|
                        0 <= j < r@.len() implies !queue.contents().contains(
                        (#[trigger] r@[j]).0,
                    ) by {
                        if j < pre_r.len() {
                            assert(r@[j] == pre_r[j]);
                            assert(!pre_queue.contents().contains(pre_r[j].0));
                        }
                    }
                    assert forall|a: int, b: int|
                        0 <= a < b < r@.len() implies (#[trigger] r@[a]).0 != (
                    #[trigger] r@[b]).0 by {
                        if b < pre_r.len() {
                            assert(r@[a] == pre_r[a] && r@[b] == pre_r[b]);
                        } else {
                            assert(r@[a] == pre_r[a]);
                            assert(!pre_queue.contents().contains(pre_r[a].0));
                            assert(pre_queue.contents().contains(position));
                        }
                    }
                    assert forall|t: Vec3i|
                        #![trigger old(queue).contents().contains(t)]
                        old(queue).contents().contains(t) && !queue.contents().contains(t)
                            && entity_map@.dom().contains(t) implies exists|i: int|
                        0 <= i < r@.len() && (#[trigger] r@[i]) == (t, entity_map@[t]) by {
                        if t == position {
                            assert(r@[r@.len() - 1] == (t, entity_map@[t]));
                        } else {
                            assert(!pre_queue.contents().contains(t));
                            assert(exists|i: int|
                                0 <= i < pre_r.len() && (#[trigger] pre_r[i]) == (
                                t,
                                entity_map@[t],
                            ));
                            let w = choose|i: int|
                                0 <= i < pre_r.len() && (#[trigger] pre_r[i]) == (
                                t,
                                entity_map@[t],
                            );
                            assert(r@[w] == (t, entity_map@[t]));
                        }
                    }
                }
            },
            None => {
                proof {
                    assert(false);
                }
            },
        }
        i = i + 1;
    }
    proof {
        assert forall|a: int, b: int|
            0 <= a < r@.len() && 0 <= b < r@.len() && a != b implies r@[a] != r@[b] by {
            if a < b {
                assert(r@[a].0 != r@[b].0);
            } else {
                assert(r@[b].0 != r@[a].0);
            }
        }
        assert(r@.no_duplicates());
    }
    r
}

/// Applies one finished generation task: the chunk is published into world
/// storage and its coordinate queued for meshing.
pub fn apply_generated_chunk(
    world: &mut VoxelWorld,
    mesh_queue: &mut crate::render::mesh::chunk::MeshChunkQueue,
    position: Vec3i,
    chunk: VoxelChunk,
)
    requires
        old(world).wf(),
        old(mesh_queue).wf(),
    ensures
        final(world).wf(),
        final(mesh_queue).wf(),
        final(world)@.dom() == old(world)@.dom().insert(position),
        final(world)@[position] == chunk,
        forall|k: Vec3i|
            k != position && old(world)@.dom().contains(k) ==> final(world)@.dom().contains(k)
                && final(world)@[k] == old(world)@[k],
        final(mesh_queue).contents() == old(mesh_queue).contents().insert(position),
        final(mesh_queue).center() == old(mesh_queue).center(),
{
    world.insert(position, chunk);
    mesh_queue.push(position);
}

} // verus!
