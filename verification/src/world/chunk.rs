use vstd::prelude::*;

use crate::assoc::AssocVec;
use crate::coord::Vec3i;
use crate::generation::chunk::ChunkGenerationQueue;
use crate::queue::Queue;
use crate::render::mesh::chunk::MeshChunkQueue;
use crate::storage::voxel_world::VoxelWorld;

verus! {

/// A chunk's presence in the scene: its coordinate, and whether a mesh has
/// been built for it at least once.
pub struct Chunk {
    pub position: Vec3i,
    pub is_loaded: bool,
}

/// Marks the queue of chunk coordinates the viewer wants loaded.
pub struct LoadChunk;

/// Marks the queue of chunk coordinates the viewer no longer wants.
pub struct DropChunk;

pub type LoadChunkQueue = crate::queue::UnorderedQueue<Vec3i, LoadChunk>;

pub type DropChunkQueue = crate::queue::UnorderedQueue<Vec3i, DropChunk>;

/// Which renderable slot, by the host's numeric id, holds each chunk
/// coordinate.
pub struct ChunkEntityMap {
    map: AssocVec<Vec3i, u64>,
}

impl View for ChunkEntityMap {
    type V = Map<Vec3i, u64>;

    closed spec fn view(&self) -> Map<Vec3i, u64> {
        self.map@
    }
}

impl ChunkEntityMap {
    pub closed spec fn wf(&self) -> bool {
        self.map.wf()
    }

    /// A well-formed map holds finitely many slots, so callers can conclude
    /// how insertion and removal change its size.
    pub proof fn lemma_dom_finite(&self)
        requires
            self.wf(),
        ensures
            self@.dom().finite(),
    {
        self.map.lemma_len();
    }

    pub fn insert(&mut self, position: Vec3i, entity: u64)
        requires
            old(self).wf(),
        ensures
            final(self).wf(),
            final(self)@ == old(self)@.insert(position, entity),
    {
        self.map.insert(position, entity);
    }

    pub fn get(&self, position: &Vec3i) -> (r: Option<u64>)
        requires
            self.wf(),
        ensures
            match r {
                Some(e) => self@.dom().contains(*position) && e == self@[*position],
                None => !self@.dom().contains(*position),
            },
    {
        match self.map.get(position) {
            Some(e) => Some(*e),
            None => None,
        }
    }

    pub fn contains(&self, position: &Vec3i) -> (r: bool)
        requires
            self.wf(),
        ensures
            r == self@.dom().contains(*position),
    {
        self.map.contains(position)
    }

    pub fn remove(&mut self, position: &Vec3i) -> (r: Option<u64>)
        requires
            old(self).wf(),
        ensures
            final(self).wf(),
            final(self)@ == old(self)@.remove(*position),
            r matches Some(e) ==> old(self)@.dom().contains(*position) && e == old(self)@[
                *position],
            r is None ==> !old(self)@.dom().contains(*position),
    {
        self.map.remove(position)
    }

    /// Every mapped coordinate, in insertion order.
    pub fn keys(&self) -> (r: Vec<Vec3i>)
        requires
            self.wf(),
        ensures
            forall|i: int| 0 <= i < r@.len() ==> self@.dom().contains(#[trigger] r@[i]),
            forall|k: Vec3i| self@.dom().contains(k) ==> r@.contains(k),
    {
        self.map.keys()
    }
}

impl Default for ChunkEntityMap {
    fn default() -> (r: Self)
        ensures
            r.wf(),
            r@ == Map::<Vec3i, u64>::empty(),
    {
        ChunkEntityMap { map: AssocVec::new() }
    }
}

/// Admits one wanted chunk coordinate with the renderable slot the host
/// created for it: the slot is recorded, and the coordinate is routed to
/// generation if no terrain exists for it yet, else straight to meshing.
/// A coordinate that already has a slot is left alone.
pub fn admit_chunk(
    entity_map: &mut ChunkEntityMap,
    world: &VoxelWorld,
    generation_queue: &mut ChunkGenerationQueue,
    mesh_queue: &mut MeshChunkQueue,
    position: Vec3i,
    entity: u64,
) -> (admitted: bool)
    requires
        old(entity_map).wf(),
        world.wf(),
        old(generation_queue).wf(),
        old(mesh_queue).wf(),
    ensures
        final(entity_map).wf(),
        final(generation_queue).wf(),
        final(mesh_queue).wf(),
        admitted == !old(entity_map)@.dom().contains(position),
        !admitted ==> final(entity_map)@ == old(entity_map)@ && final(generation_queue).contents()
            == old(generation_queue).contents() && final(mesh_queue).contents() == old(mesh_queue).contents(),
        admitted ==> final(entity_map)@ == old(entity_map)@.insert(position, entity),
        admitted && !world@.dom().contains(position) ==> final(generation_queue).contents() == old(generation_queue).contents().insert(position) && final(mesh_queue).contents() == old(mesh_queue).contents(),
        admitted && world@.dom().contains(position) ==> final(mesh_queue).contents() == old(mesh_queue).contents().insert(position) && final(generation_queue).contents() == old(generation_queue).contents(),
        final(generation_queue).center() == old(generation_queue).center(),
        final(mesh_queue).center() == old(mesh_queue).center(),
{
    if entity_map.contains(&position) {
        return false;
    }
    entity_map.insert(position, entity);
    if !world.contains(&position) {
        generation_queue.push(position);
    } else {
        mesh_queue.push(position);
    }
    true
}

/// Drops one no-longer-wanted chunk coordinate: it leaves both work queues,
/// its terrain leaves world storage, and the renderable slot to tear down,
/// if one was recorded, is handed back.
pub fn drop_chunk(
    entity_map: &mut ChunkEntityMap,
    world: &mut VoxelWorld,
    generation_queue: &mut ChunkGenerationQueue,
    mesh_queue: &mut MeshChunkQueue,
    position: Vec3i,
) -> (entity: Option<u64>)
    requires
        old(entity_map).wf(),
        old(world).wf(),
        old(generation_queue).wf(),
        old(mesh_queue).wf(),
    ensures
        final(entity_map).wf(),
        final(world).wf(),
        final(generation_queue).wf(),
        final(mesh_queue).wf(),
        final(generation_queue).contents() == old(generation_queue).contents().remove(position),
        final(mesh_queue).contents() == old(mesh_queue).contents().remove(position),
        final(generation_queue).center() == old(generation_queue).center(),
        final(mesh_queue).center() == old(mesh_queue).center(),
        match entity {
            Some(e) => old(entity_map)@.dom().contains(position) && e == old(entity_map)@[position]
                && final(entity_map)@ == old(entity_map)@.remove(position) && final(world)@ == old(world)@.remove(position),
            None => !old(entity_map)@.dom().contains(position) && final(entity_map)@ == old(entity_map)@ && final(world)@ == old(world)@,
        },
{
    generation_queue.remove(&position);
    mesh_queue.remove(&position);
    match entity_map.remove(&position) {
        Some(entity) => {
            world.remove(&position);
            proof {
                assert(final(world)@ =~= old(world)@.remove(position));
                assert(final(entity_map)@ =~= old(entity_map)@.remove(position));
            }
            Some(entity)
        },
        None => {
            proof {
                assert(final(entity_map)@ =~= old(entity_map)@);
            }
            None
        },
    }
}

} // verus!
