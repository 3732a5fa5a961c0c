use vstd::prelude::*;

use crate::coord::Vec3u;
use crate::storage::chunk::{
    linearize3, linearize3_spec, PADDED_CHUNK_SIZE, PADDED_CHUNK_VOLUME,
};
use crate::storage::voxel::Voxel;

verus! {

/// A local voxel position lies inside the padded cube.
pub open spec fn valid3(x: int, y: int, z: int) -> bool {
    0 <= x < PADDED_CHUNK_SIZE && 0 <= y < PADDED_CHUNK_SIZE && 0 <= z < PADDED_CHUNK_SIZE
}

/// Distinct in-bounds positions always map to distinct linear indices.
pub proof fn lemma_linearize3_injective(x1: int, y1: int, z1: int, x2: int, y2: int, z2: int)
    requires
        valid3(x1, y1, z1),
        valid3(x2, y2, z2),
        !(x1 == x2 && y1 == y2 && z1 == z2),
    ensures
        linearize3_spec(x1, y1, z1) != linearize3_spec(x2, y2, z2),
{
    let i1 = linearize3_spec(x1, y1, z1);
    let i2 = linearize3_spec(x2, y2, z2);
    if i1 == i2 {
        let r1 = x1 + 66 * y1;
        let r2 = x2 + 66 * y2;
        assert(i1 == 4356 * z1 + r1);
        assert(i2 == 4356 * z2 + r2);
        vstd::arithmetic::div_mod::lemma_fundamental_div_mod_converse_div(i1, 4356, z1, r1);
        vstd::arithmetic::div_mod::lemma_fundamental_div_mod_converse_div(i2, 4356, z2, r2);
        vstd::arithmetic::div_mod::lemma_fundamental_div_mod_converse_mod(i1, 4356, z1, r1);
        vstd::arithmetic::div_mod::lemma_fundamental_div_mod_converse_mod(i2, 4356, z2, r2);
        assert(z1 == z2 && r1 == r2);
        vstd::arithmetic::div_mod::lemma_fundamental_div_mod_converse_div(r1, 66, y1, x1);
        vstd::arithmetic::div_mod::lemma_fundamental_div_mod_converse_div(r2, 66, y2, x2);
        vstd::arithmetic::div_mod::lemma_fundamental_div_mod_converse_mod(r1, 66, y1, x1);
        vstd::arithmetic::div_mod::lemma_fundamental_div_mod_converse_mod(r2, 66, y2, x2);
        assert(y1 == y2 && x1 == x2);
        assert(false);
    }
}

/// An axis-aligned box of local voxel positions: minimum corner and shape.
#[derive(Clone, Copy, Debug, PartialEq, Eq, Structural)]
pub struct Extent3 {
    pub minimum: Vec3u,
    pub shape: Vec3u,
}

impl Extent3 {
    pub fn new(minimum: Vec3u, shape: Vec3u) -> (r: Self)
        ensures
            r == (Extent3 { minimum, shape }),
    {
        Extent3 { minimum, shape }
    }

    pub open spec fn contains_spec(self, x: int, y: int, z: int) -> bool {
        &&& self.minimum.x <= x < self.minimum.x + self.shape.x
        &&& self.minimum.y <= y < self.minimum.y + self.shape.y
        &&& self.minimum.z <= z < self.minimum.z + self.shape.z
    }

    /// The box stays inside the padded cube.
    pub open spec fn in_bounds(self) -> bool {
        &&& self.minimum.x + self.shape.x <= PADDED_CHUNK_SIZE
        &&& self.minimum.y + self.shape.y <= PADDED_CHUNK_SIZE
        &&& self.minimum.z + self.shape.z <= PADDED_CHUNK_SIZE
    }
}

/// The dense voxel array of one padded chunk, addressed by a 3D
/// linearization. Mutated only while terrain is built; immutable afterwards.
pub struct VoxelBuffer {
    data: Vec<Voxel>,
}

impl View for VoxelBuffer {
    type V = Seq<Voxel>;

    closed spec fn view(&self) -> Seq<Voxel> {
        self.data@
    }
}

impl VoxelBuffer {
    pub open spec fn wf(&self) -> bool {
        self@.len() == PADDED_CHUNK_VOLUME
    }

    pub open spec fn spec_voxel_at(&self, x: int, y: int, z: int) -> Voxel {
        self@[linearize3_spec(x, y, z)]
    }

    /// A buffer of empty voxels.
    pub fn new() -> (r: Self)
        ensures
            r.wf(),
            forall|i: int| 0 <= i < r@.len() ==> r@[i] == (Voxel(0u16)),
    {
        let mut data: Vec<Voxel> = Vec::new();
        let mut i: usize = 0;
        while i < (PADDED_CHUNK_VOLUME as usize)
            invariant
                0 <= i <= PADDED_CHUNK_VOLUME,
                data@.len() == i,
                forall|j: int| 0 <= j < i ==> data@[j] == (Voxel(0u16)),
            decreases PADDED_CHUNK_VOLUME - i,
        {
            data.push(Voxel(0));
            i = i + 1;
        }
        VoxelBuffer { data }
    }

    pub fn voxel_at_index(&self, index: usize) -> (r: Voxel)
        requires
            index < self@.len(),
        ensures
            r == self@[index as int],
    {
        self.data[index]
    }

    pub fn voxel_at_index_ref(&self, index: usize) -> (r: &Voxel)
        requires
            index < self@.len(),
        ensures
            *r == self@[index as int],
    {
        &self.data[index]
    }

    pub fn voxel_at_index_mut(&mut self, index: usize) -> (r: &mut Voxel)
        requires
            index < old(self)@.len(),
        ensures
            *r == old(self)@[index as int],
            final(self)@ == old(self)@.update(index as int, *final(r)),
    {
        &mut self.data[index]
    }

    pub fn voxel_at(&self, position: Vec3u) -> (r: Voxel)
        requires
            self.wf(),
            position.x < PADDED_CHUNK_SIZE,
            position.y < PADDED_CHUNK_SIZE,
            position.z < PADDED_CHUNK_SIZE,
        ensures
            r == self.spec_voxel_at(position.x as int, position.y as int, position.z as int),
    {
        let index = linearize3(position);
        self.data[index]
    }

    pub fn voxel_at_ref(&self, position: Vec3u) -> (r: &Voxel)
        requires
            self.wf(),
            position.x < PADDED_CHUNK_SIZE,
            position.y < PADDED_CHUNK_SIZE,
            position.z < PADDED_CHUNK_SIZE,
        ensures
            *r == self.spec_voxel_at(position.x as int, position.y as int, position.z as int),
    {
        let index = linearize3(position);
        &self.data[index]
    }

    pub fn voxel_at_mut(&mut self, position: Vec3u) -> (r: &mut Voxel)
        requires
            old(self).wf(),
            position.x < PADDED_CHUNK_SIZE,
            position.y < PADDED_CHUNK_SIZE,
            position.z < PADDED_CHUNK_SIZE,
        ensures
            *r == old(self).spec_voxel_at(
                position.x as int,
                position.y as int,
                position.z as int,
            ),
            final(self)@ == old(self)@.update(
                linearize3_spec(position.x as int, position.y as int, position.z as int),
                *final(r),
            ),
            final(self).wf(),
    {
        let index = linearize3(position);
        &mut self.data[index]
    }

    /// Fills the box with one material, leaving every voxel outside it as it
    /// was.
    pub fn fill_extent(&mut self, extent: Extent3, value: Voxel)
        requires
            old(self).wf(),
            extent.in_bounds(),
        ensures
            final(self).wf(),
            forall|x: int, y: int, z: int|
                valid3(x, y, z) ==> final(self).spec_voxel_at(x, y, z) == (
                if extent.contains_spec(x, y, z) {
                    value
                } else {
                    old(self).spec_voxel_at(x, y, z)
                }),
    {
        let x_end = extent.minimum.x + extent.shape.x;
        let y_end = extent.minimum.y + extent.shape.y;
        let z_end = extent.minimum.z + extent.shape.z;
        let mut z = extent.minimum.z;
        while z < z_end
            invariant
                self@.len() == PADDED_CHUNK_VOLUME,
                extent.in_bounds(),
                x_end == extent.minimum.x + extent.shape.x,
                y_end == extent.minimum.y + extent.shape.y,
                z_end == extent.minimum.z + extent.shape.z,
                extent.minimum.z <= z <= z_end,
                forall|a: int, b: int, c: int|
                    valid3(a, b, c) ==> self.spec_voxel_at(a, b, c) == (
                    if extent.contains_spec(a, b, c) && c < z {
                        value
                    } else {
                        old(self).spec_voxel_at(a, b, c)
                    }),
            decreases z_end - z,
        {
            let mut y = extent.minimum.y;
            while y < y_end
                invariant
                    self@.len() == PADDED_CHUNK_VOLUME,
                    extent.in_bounds(),
                    x_end == extent.minimum.x + extent.shape.x,
                    y_end == extent.minimum.y + extent.shape.y,
                    z_end == extent.minimum.z + extent.shape.z,
                    extent.minimum.z <= z < z_end,
                    extent.minimum.y <= y <= y_end,
                    forall|a: int, b: int, c: int|
                        valid3(a, b, c) ==> self.spec_voxel_at(a, b, c) == (
                        if extent.contains_spec(a, b, c) && (c < z || (c == z && b < y)) {
                            value
                        } else {
                            old(self).spec_voxel_at(a, b, c)
                        }),
                decreases y_end - y,
            {
                let mut x = extent.minimum.x;
                while x < x_end
                    invariant
                        self@.len() == PADDED_CHUNK_VOLUME,
                        extent.in_bounds(),
                        x_end == extent.minimum.x + extent.shape.x,
                        y_end == extent.minimum.y + extent.shape.y,
                        z_end == extent.minimum.z + extent.shape.z,
                        extent.minimum.z <= z < z_end,
                        extent.minimum.y <= y < y_end,
                        extent.minimum.x <= x <= x_end,
                        forall|a: int, b: int, c: int|
                            valid3(a, b, c) ==> self.spec_voxel_at(a, b, c) == (
                            if extent.contains_spec(a, b, c) && (c < z || (c == z && b < y) || (c
                                == z && b == y && a < x)) {
                                value
                            } else {
                                old(self).spec_voxel_at(a, b, c)
                            }),
                    decreases x_end - x,
                {
                    let ghost prev = self@;
                    let index = linearize3(Vec3u { x, y, z });
                    self.data.set(index, value);
                    proof {
                        assert forall|a: int, b: int, c: int| valid3(a, b, c) implies
                            self.spec_voxel_at(a, b, c) == (
                        if extent.contains_spec(a, b, c) && (c < z || (c == z && b < y) || (c == z
                            && b == y && a < x + 1)) {
                            value
                        } else {
                            old(self).spec_voxel_at(a, b, c)
                        }) by {
                            if a == x && b == y && c == z {
                            } else {
                                lemma_linearize3_injective(
                                    a,
                                    b,
                                    c,
                                    x as int,
                                    y as int,
                                    z as int,
                                );
                                assert(self@[linearize3_spec(a, b, c)] == prev[linearize3_spec(
                                    a,
                                    b,
                                    c,
                                )]);
                            }
                        }
                    }
                    x = x + 1;
                }
                y = y + 1;
            }
            z = z + 1;
        }
    }

    /// The raw padded voxel data, linearized.
    pub fn read_data(&self) -> (r: &Vec<Voxel>)
        ensures
            r@ == self@,
    {
        &self.data
    }
}

} // verus!
