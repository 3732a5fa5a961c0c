use vstd::prelude::*;

use crate::assoc::AssocVec;
use crate::coord::{Vec2i, Vec3i};
use crate::queue::Queue;
use crate::render::mesh::heightmap::MeshHeightmapQueue;
use crate::storage::chunk::CHUNK_SIZE;

verus! {

/// The far-terrain stand-in for one horizontal coordinate: the vertical span
/// its mesh covers, and the loaded chunks whose volume overlaps that span
/// and therefore hide it.
pub struct HeightmapMarker {
    pub position: Vec2i,
    pub minimum: i32,
    pub maximum: i32,
    pub blocking: AssocVec<Vec3i, ()>,
}

impl HeightmapMarker {
    pub closed spec fn wf(&self) -> bool {
        self.blocking.wf()
    }

    /// The loaded chunk coordinates currently recorded as covering this
    /// heightmap.
    pub closed spec fn blocking_set(&self) -> Set<Vec3i> {
        self.blocking@.dom()
    }

    pub fn new(position: Vec2i, minimum: i32, maximum: i32) -> (r: Self)
        ensures
            r.wf(),
            r.position == position,
            r.minimum == minimum,
            r.maximum == maximum,
            r.blocking_set() == Set::<Vec3i>::empty(),
    {
        HeightmapMarker { position, minimum, maximum, blocking: AssocVec::new() }
    }

    pub fn insert_blocking(&mut self, position: Vec3i)
        requires
            old(self).wf(),
        ensures
            final(self).wf(),
            final(self).blocking_set() == old(self).blocking_set().insert(position),
            final(self).position == old(self).position,
            final(self).minimum == old(self).minimum,
            final(self).maximum == old(self).maximum,
    {
        self.blocking.insert(position, ());
    }

    pub fn remove_blocking(&mut self, position: Vec3i)
        requires
            old(self).wf(),
        ensures
            final(self).wf(),
            final(self).blocking_set() == old(self).blocking_set().remove(position),
            final(self).position == old(self).position,
            final(self).minimum == old(self).minimum,
            final(self).maximum == old(self).maximum,
    {
        self.blocking.remove(&position);
    }

    /// Whether some recorded chunk's vertical volume overlaps this
    /// heightmap's span, so the far-terrain mesh should stay hidden.
    pub fn should_block(&self) -> (r: bool)
        requires
            self.wf(),
        ensures
            r == exists|p: Vec3i|
                self.blocking_set().contains(p) && (p.y + 1) * (CHUNK_SIZE as int) > self.minimum
                    && p.y * (CHUNK_SIZE as int) < self.maximum,
    {
        let candidates = self.blocking.keys();
        let mut i: usize = 0;
        while i < candidates.len()
            invariant
                0 <= i <= candidates@.len(),
                forall|j: int| 0 <= j < candidates@.len() ==> self.blocking_set().contains(
                    #[trigger] candidates@[j],
                ),
                forall|k: Vec3i| self.blocking_set().contains(k) ==> candidates@.contains(k),
                forall|j: int| 0 <= j < i ==> !((((#[trigger] candidates@[j]).y + 1) * (
                CHUNK_SIZE as int) > self.minimum) && (candidates@[j].y * (CHUNK_SIZE as int)
                    < self.maximum)),
            decreases candidates@.len() - i,
        {
            let p = candidates[i];
            let above = (p.y as i64 + 1) * (CHUNK_SIZE as i64);
            let below = p.y as i64 * (CHUNK_SIZE as i64);
            if above > self.minimum as i64 && below < self.maximum as i64 {
                return true;
            }
            i = i + 1;
        }
        proof {
            if exists|p: Vec3i|
                self.blocking_set().contains(p) && (p.y + 1) * (CHUNK_SIZE as int) > self.minimum
                    && p.y * (CHUNK_SIZE as int) < self.maximum {
                let p = choose|p: Vec3i|
                    self.blocking_set().contains(p) && (p.y + 1) * (CHUNK_SIZE as int)
                        > self.minimum && p.y * (CHUNK_SIZE as int) < self.maximum;
                let j = choose|j: int| 0 <= j < candidates@.len() && candidates@[j] == p;
                assert(false);
            }
        }
        false
    }
}

/// Marks the queue of horizontal coordinates whose far terrain the viewer
/// wants loaded.
pub struct LoadHeightmap;

/// Marks the queue of horizontal coordinates whose far terrain the viewer no
/// longer wants.
pub struct DropHeightmap;

pub type LoadHeightmapQueue = crate::queue::UnorderedQueue<Vec2i, LoadHeightmap>;

pub type DropHeightmapQueue = crate::queue::UnorderedQueue<Vec2i, DropHeightmap>;

/// Which renderable slot, by the host's numeric id, holds each horizontal
/// coordinate's far terrain.
pub struct HeightmapEntityMap {
    map: AssocVec<Vec2i, u64>,
}

impl View for HeightmapEntityMap {
    type V = Map<Vec2i, u64>;

    closed spec fn view(&self) -> Map<Vec2i, u64> {
        self.map@
    }
}

impl HeightmapEntityMap {
    pub closed spec fn wf(&self) -> bool {
        self.map.wf()
    }

    /// A well-formed map holds finitely many slots, so callers can conclude
    /// how insertion and removal change its size.
    pub proof fn lemma_dom_finite(&self)
        requires
            self.wf(),
        ensures
            self@.dom().finite(),
    {
        self.map.lemma_len();
    }

    pub fn insert(&mut self, position: Vec2i, entity: u64)
        requires
            old(self).wf(),
        ensures
            final(self).wf(),
            final(self)@ == old(self)@.insert(position, entity),
    {
        self.map.insert(position, entity);
    }

    pub fn get(&self, position: &Vec2i) -> (r: Option<u64>)
        requires
            self.wf(),
        ensures
            match r {
                Some(e) => self@.dom().contains(*position) && e == self@[*position],
                None => !self@.dom().contains(*position),
            },
    {
        match self.map.get(position) {
            Some(e) => Some(*e),
            None => None,
        }
    }

    pub fn contains(&self, position: &Vec2i) -> (r: bool)
        requires
            self.wf(),
        ensures
            r == self@.dom().contains(*position),
    {
        self.map.contains(position)
    }

    pub fn remove(&mut self, position: &Vec2i) -> (r: Option<u64>)
        requires
            old(self).wf(),
        ensures
            final(self).wf(),
            final(self)@ == old(self)@.remove(*position),
            r matches Some(e) ==> old(self)@.dom().contains(*position) && e == old(self)@[
                *position],
            r is None ==> !old(self)@.dom().contains(*position),
    {
        self.map.remove(position)
    }

    /// Every mapped coordinate, in insertion order.
    pub fn keys(&self) -> (r: Vec<Vec2i>)
        requires
            self.wf(),
        ensures
            forall|i: int| 0 <= i < r@.len() ==> self@.dom().contains(#[trigger] r@[i]),
            forall|k: Vec2i| self@.dom().contains(k) ==> r@.contains(k),
    {
        self.map.keys()
    }
}

impl Default for HeightmapEntityMap {
    fn default() -> (r: Self)
        ensures
            r.wf(),
            r@ == Map::<Vec2i, u64>::empty(),
    {
        HeightmapEntityMap { map: AssocVec::new() }
    }
}

/// Admits one wanted far-terrain coordinate with the renderable slot the
/// host created for it, and queues its mesh; a coordinate that already has a
/// slot is left alone.
pub fn admit_heightmap(
    entity_map: &mut HeightmapEntityMap,
    mesh_queue: &mut MeshHeightmapQueue,
    position: Vec2i,
    entity: u64,
) -> (admitted: bool)
    requires
        old(entity_map).wf(),
        old(mesh_queue).wf(),
    ensures
        final(entity_map).wf(),
        final(mesh_queue).wf(),
        final(mesh_queue).center() == old(mesh_queue).center(),
        admitted == !old(entity_map)@.dom().contains(position),
        !admitted ==> final(entity_map)@ == old(entity_map)@ && final(mesh_queue).contents()
            == old(mesh_queue).contents(),
        admitted ==> final(entity_map)@ == old(entity_map)@.insert(position, entity) && final(mesh_queue).contents() == old(mesh_queue).contents().insert(position),
{
    if entity_map.contains(&position) {
        return false;
    }
    entity_map.insert(position, entity);
    mesh_queue.push(position);
    true
}

/// Drops one no-longer-wanted far-terrain coordinate: it leaves the mesh
/// queue, and the renderable slot to tear down, if any, is handed back.
pub fn drop_heightmap(
    entity_map: &mut HeightmapEntityMap,
    mesh_queue: &mut MeshHeightmapQueue,
    position: Vec2i,
) -> (entity: Option<u64>)
    requires
        old(entity_map).wf(),
        old(mesh_queue).wf(),
    ensures
        final(entity_map).wf(),
        final(mesh_queue).wf(),
        final(mesh_queue).center() == old(mesh_queue).center(),
        final(mesh_queue).contents() == old(mesh_queue).contents().remove(position),
        final(entity_map)@ == old(entity_map)@.remove(position),
        match entity {
            Some(e) => old(entity_map)@.dom().contains(position) && e == old(entity_map)@[
                position],
            None => !old(entity_map)@.dom().contains(position),
        },
{
    mesh_queue.remove(&position);
    let r = entity_map.remove(&position);
    proof {
        assert(final(entity_map)@ =~= old(entity_map)@.remove(position));
    }
    r
}

} // verus!
