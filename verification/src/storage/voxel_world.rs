use vstd::prelude::*;

use std::sync::Arc;

use crate::assoc::AssocVec;
use crate::coord::Vec3i;
use crate::storage::chunk::VoxelChunk;
use crate::sync::arc_clone;

verus! {

/// The long-lived store of generated chunks, keyed by chunk coordinate. The
/// tick driver inserts and removes; workers read already published,
/// immutable chunks through shared ownership.
pub struct VoxelWorld {
    chunks: AssocVec<Vec3i, Arc<VoxelChunk>>,
}

impl View for VoxelWorld {
    type V = Map<Vec3i, Arc<VoxelChunk>>;

    closed spec fn view(&self) -> Map<Vec3i, Arc<VoxelChunk>> {
        self.chunks@
    }
}

impl VoxelWorld {
    pub closed spec fn wf(&self) -> bool {
        self.chunks.wf()
    }

    /// A well-formed world maps finitely many coordinates, so callers can
    /// conclude how `insert` and `remove` change `len`.
    pub proof fn lemma_dom_finite(&self)
        requires
            self.wf(),
        ensures
            self@.dom().finite(),
    {
        self.chunks.lemma_len();
    }

    pub fn get(&self, position: &Vec3i) -> (r: Option<Arc<VoxelChunk>>)
        requires
            self.wf(),
        ensures
            match r {
                Some(c) => self@.dom().contains(*position) && c == self@[*position],
                None => !self@.dom().contains(*position),
            },
    {
        match self.chunks.get(position) {
            Some(c) => Some(arc_clone(c)),
            None => None,
        }
    }

    pub fn insert(&mut self, position: Vec3i, chunk: VoxelChunk)
        requires
            old(self).wf(),
        ensures
            final(self).wf(),
            final(self)@.dom() == old(self)@.dom().insert(position),
            final(self)@[position] == chunk,
            forall|k: Vec3i|
                k != position && old(self)@.dom().contains(k) ==> final(self)@.dom().contains(k)
                    && final(self)@[k] == old(self)@[k],
    {
        let shared = Arc::new(chunk);
        self.chunks.insert(position, shared);
    }

    pub fn contains(&self, position: &Vec3i) -> (r: bool)
        requires
            self.wf(),
        ensures
            r == self@.dom().contains(*position),
    {
        self.chunks.contains(position)
    }

    pub fn remove(&mut self, position: &Vec3i) -> (r: Option<Arc<VoxelChunk>>)
        requires
            old(self).wf(),
        ensures
            final(self).wf(),
            final(self)@ == old(self)@.remove(*position),
            r matches Some(c) ==> old(self)@.dom().contains(*position) && c == old(self)@[
                *position],
            r is None ==> !old(self)@.dom().contains(*position),
    {
        self.chunks.remove(position)
    }

    pub fn len(&self) -> (r: usize)
        requires
            self.wf(),
        ensures
            r == self@.dom().len(),
    {
        self.chunks.len()
    }

    pub fn is_empty(&self) -> (r: bool)
        requires
            self.wf(),
        ensures
            r == (self@.dom().len() == 0),
    {
        self.chunks.is_empty()
    }
}

impl Default for VoxelWorld {
    fn default() -> (r: Self)
        ensures
            r.wf(),
            r@ == Map::<Vec3i, Arc<VoxelChunk>>::empty(),
    {
        VoxelWorld { chunks: AssocVec::new() }
    }
}

} // verus!
