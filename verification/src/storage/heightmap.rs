use vstd::prelude::*;

use crate::coord::Vec2u;
use crate::storage::chunk::{
    delinearize2, linearize2, linearize2_spec, PADDED_CHUNK_AREA, PADDED_CHUNK_SIZE,
};

verus! {

/// One terrain height per cell of a padded horizontal chunk footprint,
/// shared by every vertically stacked chunk at that coordinate. Cell (0, 0)
/// is equivalent to (-1, -1) in world position.
pub struct Heightmap {
    data: Vec<i32>,
}

impl View for Heightmap {
    type V = Seq<i32>;

    closed spec fn view(&self) -> Seq<i32> {
        self.data@
    }
}

impl Heightmap {
    pub open spec fn wf(&self) -> bool {
        self@.len() == PADDED_CHUNK_AREA
    }

    pub open spec fn height_at(&self, x: int, y: int) -> i32 {
        self@[linearize2_spec(x, y)]
    }

    /// A heightmap of height zero everywhere.
    pub fn new() -> (r: Self)
        ensures
            r.wf(),
            forall|i: int| 0 <= i < r@.len() ==> r@[i] == 0i32,
    {
        let mut data: Vec<i32> = Vec::new();
        let mut i: usize = 0;
        while i < (PADDED_CHUNK_AREA as usize)
            invariant
                0 <= i <= PADDED_CHUNK_AREA,
                data@.len() == i,
                forall|j: int| 0 <= j < i ==> data@[j] == 0i32,
            decreases PADDED_CHUNK_AREA - i,
        {
            data.push(0);
            i = i + 1;
        }
        Heightmap { data }
    }

    /// Wraps an already computed dense grid of heights, linearized with rows
    /// along x.
    pub fn from_samples(samples: Vec<i32>) -> (r: Self)
        requires
            samples@.len() == PADDED_CHUNK_AREA,
        ensures
            r.wf(),
            r@ == samples@,
    {
        Heightmap { data: samples }
    }

    pub fn get(&self, position: Vec2u) -> (r: i32)
        requires
            self.wf(),
            position.x < PADDED_CHUNK_SIZE,
            position.y < PADDED_CHUNK_SIZE,
        ensures
            r == self.height_at(position.x as int, position.y as int),
    {
        let index = linearize2(position);
        self.data[index]
    }

    pub fn get_mut(&mut self, position: Vec2u) -> (r: &mut i32)
        requires
            old(self).wf(),
            position.x < PADDED_CHUNK_SIZE,
            position.y < PADDED_CHUNK_SIZE,
        ensures
            *r == old(self).height_at(position.x as int, position.y as int),
            final(self)@ == old(self)@.update(
                linearize2_spec(position.x as int, position.y as int),
                *final(r),
            ),
            final(self).wf(),
    {
        let index = linearize2(position);
        &mut self.data[index]
    }

    /// Every cell with its position, in linear order.
    pub fn iter(&self) -> (r: Vec<(Vec2u, i32)>)
        requires
            self.wf(),
        ensures
            r@.len() == PADDED_CHUNK_AREA,
            forall|k: int|
                0 <= k < r@.len() ==> {
                    &&& (#[trigger] r@[k]).0.x < PADDED_CHUNK_SIZE
                    &&& r@[k].0.y < PADDED_CHUNK_SIZE
                    &&& linearize2_spec(r@[k].0.x as int, r@[k].0.y as int) == k
                    &&& r@[k].1 == self@[k]
                },
    {
        let mut r: Vec<(Vec2u, i32)> = Vec::new();
        let mut i: usize = 0;
        while i < (PADDED_CHUNK_AREA as usize)
            invariant
                self.wf(),
                0 <= i <= PADDED_CHUNK_AREA,
                r@.len() == i,
                forall|k: int|
                    0 <= k < i ==> {
                        &&& (#[trigger] r@[k]).0.x < PADDED_CHUNK_SIZE
                        &&& r@[k].0.y < PADDED_CHUNK_SIZE
                        &&& linearize2_spec(r@[k].0.x as int, r@[k].0.y as int) == k
                        &&& r@[k].1 == self@[k]
                    },
            decreases PADDED_CHUNK_AREA - i,
        {
            let position = delinearize2(i);
            r.push((position, self.data[i]));
            i = i + 1;
        }
        r
    }
}

impl Default for Heightmap {
    fn default() -> (r: Self)
        ensures
            r.wf(),
            forall|i: int| 0 <= i < r@.len() ==> r@[i] == 0i32,
    {
        Heightmap::new()
    }
}

} // verus!
