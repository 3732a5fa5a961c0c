use vstd::prelude::*;

use crate::coord::{Vec2i, Vec2u};
use crate::queue::{DistanceOrderedQueue, Queue};
use crate::storage::heightmap::Heightmap;
use crate::trait_ext::{order_key_le, DistanceOrd};
use crate::world::heightmap::HeightmapEntityMap;

verus! {

/// Marks the queue of horizontal coordinates waiting for a far-terrain mesh.
pub struct MeshHeightmap;

pub type MeshHeightmapQueue = DistanceOrderedQueue<Vec2i, MeshHeightmap>;

/// How many cells of the padded footprint one far-terrain grid step spans.
pub const HEIGHTMAP_MESH_SUBDIVISIONS: u32 = 16;

/// Vertices per side of the far-terrain grid.
pub const GRID_VERTEX_COUNT: u32 = 18;

/// Grid vertex (x, z) carries the height of the heightmap cell on the
/// coarse sampling lattice, stored in the grid row by row.
pub open spec fn grid_sample_ok(heights: Seq<i32>, heightmap: &Heightmap, x: int, z: int) -> bool {
    heights[z * 18 + x] == heightmap.height_at((x / 4) * 16, (z / 4) * 16)
}

/// Samples the heightmap on the far-terrain grid, row by row, and reports
/// the least and greatest height seen: the vertical span the mesh covers.
pub fn heightmap_mesh_grid(heightmap: &Heightmap) -> (r: (Vec<i32>, i32, i32))
    requires
        heightmap.wf(),
    ensures
        r.0@.len() == GRID_VERTEX_COUNT * GRID_VERTEX_COUNT,
        forall|x: int, z: int|
            0 <= x < GRID_VERTEX_COUNT && 0 <= z < GRID_VERTEX_COUNT ==> #[trigger] grid_sample_ok(
                r.0@,
                heightmap,
                x,
                z,
            ),
        forall|k: int| 0 <= k < r.0@.len() ==> r.1 <= #[trigger] r.0@[k] <= r.2,
        exists|k: int| 0 <= k < r.0@.len() && r.0@[k] == r.1,
        exists|k: int| 0 <= k < r.0@.len() && r.0@[k] == r.2,
{
    let mut heights: Vec<i32> = Vec::new();
    let mut minimum: i32 = i32::MAX;
    let mut maximum: i32 = i32::MIN;
    let mut z: u32 = 0;
    while z < 18
        invariant
            heightmap.wf(),
            0 <= z <= 18,
            heights@.len() == z * 18,
            forall|xx: int, zz: int|
                0 <= xx < 18 && 0 <= zz < z ==> #[trigger] grid_sample_ok(
                    heights@,
                    heightmap,
                    xx,
                    zz,
                ),
            forall|k: int| 0 <= k < heights@.len() ==> minimum <= #[trigger] heights@[k] <= maximum,
            heights@.len() > 0 ==> exists|k: int|
                0 <= k < heights@.len() && heights@[k] == minimum,
            heights@.len() > 0 ==> exists|k: int|
                0 <= k < heights@.len() && heights@[k] == maximum,
            heights@.len() == 0 ==> minimum == i32::MAX && maximum == i32::MIN,
        decreases 18 - z,
    {
        let mut x: u32 = 0;
        while x < 18
            invariant
                heightmap.wf(),
                0 <= z < 18,
                0 <= x <= 18,
                heights@.len() == z * 18 + x,
                forall|xx: int, zz: int|
                    0 <= xx < 18 && 0 <= zz && (zz < z || (zz == z && xx < x))
                        ==> #[trigger] grid_sample_ok(heights@, heightmap, xx, zz),
                forall|k: int|
                    0 <= k < heights@.len() ==> minimum <= #[trigger] heights@[k] <= maximum,
                heights@.len() > 0 ==> exists|k: int|
                    0 <= k < heights@.len() && heights@[k] == minimum,
                heights@.len() > 0 ==> exists|k: int|
                    0 <= k < heights@.len() && heights@[k] == maximum,
                heights@.len() == 0 ==> minimum == i32::MAX && maximum == i32::MIN,
            decreases 18 - x,
        {
            let ghost before = heights@;
            let ghost pre_min = minimum;
            let ghost pre_max = maximum;
            let nearest_x = x / 4 * 4 * 4;
            let nearest_z = z / 4 * 4 * 4;
            let height = heightmap.get(Vec2u { x: nearest_x, y: nearest_z });
            if height < minimum {
                minimum = height;
            }
            if height > maximum {
                maximum = height;
            }
            heights.push(height);
            proof {
                assert(heights@[z * 18 + x] == height);
                if height < pre_min || before.len() == 0 {
                    assert(heights@[before.len() as int] == minimum);
                } else {
                    let k = choose|k: int| 0 <= k < before.len() && before[k] == pre_min;
                    assert(heights@[k] == minimum);
                }
                if height > pre_max || before.len() == 0 {
                    assert(heights@[before.len() as int] == maximum);
                } else {
                    let k = choose|k: int| 0 <= k < before.len() && before[k] == pre_max;
                    assert(heights@[k] == maximum);
                }
                assert forall|xx: int, zz: int|
                    0 <= xx < 18 && 0 <= zz && (zz < z || (zz == z && xx < x + 1)) implies
                    #[trigger] grid_sample_ok(heights@, heightmap, xx, zz) by {
                    if zz < z || (zz == z && xx < x) {
                        assert(grid_sample_ok(before, heightmap, xx, zz));
                        assert(zz * 18 + xx < before.len());
                        assert(heights@[zz * 18 + xx] == before[zz * 18 + xx]);
                    }
                }
            }
            x = x + 1;
        }
        z = z + 1;
    }
    proof {
        let kmin = choose|k: int| 0 <= k < heights@.len() && heights@[k] == minimum;
        assert(0 <= kmin < heights@.len() && heights@[kmin] == minimum);
        let kmax = choose|k: int| 0 <= k < heights@.len() && heights@[k] == maximum;
        assert(0 <= kmax < heights@.len() && heights@[kmax] == maximum);
    }
    (heights, minimum, maximum)
}

/// Quad (xx, yy) of the far-terrain grid contributes six indices over the
/// grid's vertices, in the winding the renderer expects.
pub open spec fn grid_quad_indices_ok(r: Seq<u32>, yy: int, xx: int) -> bool {
    let base = yy * 18 + xx;
    let o = (yy * 17 + xx) * 6;
    &&& r[o] == base + 19
    &&& r[o + 1] == base + 1
    &&& r[o + 2] == base + 18
    &&& r[o + 3] == base
    &&& r[o + 4] == base + 18
    &&& r[o + 5] == base + 1
}

/// The triangle indices of the far-terrain grid: six per grid quad.
pub fn heightmap_grid_indices() -> (r: Vec<u32>)
    ensures
        r@.len() == (GRID_VERTEX_COUNT - 1) * (GRID_VERTEX_COUNT - 1) * 6,
        forall|yy: int, xx: int|
            0 <= yy < GRID_VERTEX_COUNT - 1 && 0 <= xx < GRID_VERTEX_COUNT - 1
                ==> #[trigger] grid_quad_indices_ok(r@, yy, xx),
{
    let mut r: Vec<u32> = Vec::new();
    let mut y: u32 = 0;
    while y < 17
        invariant
            0 <= y <= 17,
            r@.len() == y * 17 * 6,
            forall|yy: int, xx: int|
                0 <= xx < 17 && 0 <= yy < y ==> #[trigger] grid_quad_indices_ok(r@, yy, xx),
        decreases 17 - y,
    {
        let mut x: u32 = 0;
        while x < 17
            invariant
                0 <= y < 17,
                0 <= x <= 17,
                r@.len() == (y * 17 + x) * 6,
                forall|yy: int, xx: int|
                    0 <= xx < 17 && 0 <= yy && (yy < y || (yy == y && xx < x))
                        ==> #[trigger] grid_quad_indices_ok(r@, yy, xx),
            decreases 17 - x,
        {
            let ghost before = r@;
            let quad = y * 18 + x;
            r.push(quad + 18 + 1);
            r.push(quad + 1);
            r.push(quad + 18);
            r.push(quad);
            r.push(quad + 18);
            r.push(quad + 1);
            proof {
                assert forall|yy: int, xx: int|
                    0 <= xx < 17 && 0 <= yy && (yy < y || (yy == y && xx < x + 1)) implies
                    #[trigger] grid_quad_indices_ok(r@, yy, xx) by {
                    if yy < y || (yy == y && xx < x) {
                        assert(grid_quad_indices_ok(before, yy, xx));
                        assert((yy * 17 + xx) * 6 + 5 < before.len());
                        assert(r@[(yy * 17 + xx) * 6] == before[(yy * 17 + xx) * 6]);
                        assert(r@[(yy * 17 + xx) * 6 + 1] == before[(yy * 17 + xx) * 6 + 1]);
                        assert(r@[(yy * 17 + xx) * 6 + 2] == before[(yy * 17 + xx) * 6 + 2]);
                        assert(r@[(yy * 17 + xx) * 6 + 3] == before[(yy * 17 + xx) * 6 + 3]);
                        assert(r@[(yy * 17 + xx) * 6 + 4] == before[(yy * 17 + xx) * 6 + 4]);
                        assert(r@[(yy * 17 + xx) * 6 + 5] == before[(yy * 17 + xx) * 6 + 5]);
                    } else {
                        assert(r@[(yy * 17 + xx) * 6] == quad + 19);
                    }
                }
            }
            x = x + 1;
        }
        y = y + 1;
    }
    r
}

/// Pops up to `limit - running` nearest-first horizontal coordinates from
/// the far-terrain mesh queue; each one with a registered renderable slot is
/// returned for spawning, and the rest are silently discarded.
pub fn plan_heightmap_mesh_dispatch(
    queue: &mut MeshHeightmapQueue,
    entity_map: &HeightmapEntityMap,
    running: usize,
    limit: usize,
) -> (r: Vec<(Vec2i, u64)>)
    requires
        old(queue).wf(),
        entity_map.wf(),
    ensures
        final(queue).wf(),
        final(queue).center() == old(queue).center(),
        r@.len() <= crate::generation::chunk::spec_budget(limit as int, running as int),
        final(queue).size() == old(queue).size() - (
        if crate::generation::chunk::spec_budget(limit as int, running as int) <= old(
            queue,
        ).size() {
            crate::generation::chunk::spec_budget(limit as int, running as int)
        } else {
            old(queue).size() as int
        }),
        forall|i: int|
            0 <= i < r@.len() ==> {
                &&& entity_map@.dom().contains((#[trigger] r@[i]).0)
                &&& r@[i].1 == entity_map@[r@[i].0]
                &&& old(queue).contents().contains(r@[i].0)
            },
        forall|t: Vec2i|
            final(queue).contents().contains(t) ==> old(queue).contents().contains(t),
        forall|i: int, j: int|
            0 <= i < j < r@.len() ==> order_key_le(
                (#[trigger] r@[i]).0.distance_ord_spec(old(queue).center()),
                (#[trigger] r@[j]).0.distance_ord_spec(old(queue).center()),
            ),
        forall|t: Vec2i|
            #![trigger old(queue).contents().contains(t)]
            old(queue).contents().contains(t) && !final(queue).contents().contains(t)
                && entity_map@.dom().contains(t) ==> exists|i: int|
                0 <= i < r@.len() && (#[trigger] r@[i]) == (t, entity_map@[t]),
        forall|a: int, b: int|
            0 <= a < b < r@.len() ==> (#[trigger] r@[a]).0 != (#[trigger] r@[b]).0,
        r@.no_duplicates(),
        forall|i: int, u: Vec2i|
            0 <= i < r@.len() && final(queue).contents().contains(u) ==> order_key_le(
                (#[trigger] r@[i]).0.distance_ord_spec(old(queue).center()),
                #[trigger] u.distance_ord_spec(old(queue).center()),
            ),
{
    let budget = if running < limit {
        limit - running
    } else {
        0
    };
    let queue_len = queue.len();
    let to_pop = if budget < queue_len {
        budget
    } else {
        queue_len
    };
    let mut r: Vec<(Vec2i, u64)> = Vec::new();
    let mut i: usize = 0;
    while i < to_pop
        invariant
            queue.wf(),
            queue.center() == old(queue).center(),
            entity_map.wf(),
            0 <= i <= to_pop,
            to_pop == (if crate::generation::chunk::spec_budget(limit as int, running as int)
                <= old(queue).size() {
                crate::generation::chunk::spec_budget(limit as int, running as int)
            } else {
                old(queue).size() as int
            }),
            to_pop <= old(queue).size(),
            r@.len() <= i,
            queue.size() == old(queue).size() - i,
            forall|j: int|
                0 <= j < r@.len() ==> {
                    &&& entity_map@.dom().contains((#[trigger] r@[j]).0)
                    &&& r@[j].1 == entity_map@[r@[j].0]
                    &&& old(queue).contents().contains(r@[j].0)
                },
            forall|t: Vec2i| queue.contents().contains(t) ==> old(queue).contents().contains(t),
            forall|j: int, u: Vec2i|
                0 <= j < r@.len() && queue.contents().contains(u) ==> order_key_le(
                    (#[trigger] r@[j]).0.distance_ord_spec(old(queue).center()),
                    #[trigger] u.distance_ord_spec(old(queue).center()),
                ),
            forall|a: int, b: int|
                0 <= a < b < r@.len() ==> order_key_le(
                    (#[trigger] r@[a]).0.distance_ord_spec(old(queue).center()),
                    (#[trigger] r@[b]).0.distance_ord_spec(old(queue).center()),
                ),
            forall|j: int|
                0 <= j < r@.len() ==> !queue.contents().contains((#[trigger] r@[j]).0),
            forall|a: int, b: int|
                0 <= a < b < r@.len() ==> (#[trigger] r@[a]).0 != (#[trigger] r@[b]).0,
            forall|t: Vec2i|
                #![trigger old(queue).contents().contains(t)]
                old(queue).contents().contains(t) && !queue.contents().contains(t)
                    && entity_map@.dom().contains(t) ==> exists|i: int|
                    0 <= i < r@.len() && (#[trigger] r@[i]) == (t, entity_map@[t]),
        decreases to_pop - i,
    {
        let ghost pre_queue = *queue;
        let ghost pre_r = r@;
        match queue.pop() {
            Some(position) => {
                let slot = entity_map.get(&position);
                if let Some(entity) = slot {
                    r.push((position, entity));
                }
                proof {
                    assert forall|j: int|
                        0 <= j < r@.len() implies !queue.contents().contains(
                        (#[trigger] r@[j]).0,
                    ) by {
                        if j < pre_r.len() {
                            assert(r@[j] == pre_r[j]);
                            assert(!pre_queue.contents().contains(pre_r[j].0));
                        }
                    }
                    assert forall|a: int, b: int|
                        0 <= a < b < r@.len() implies (#[trigger] r@[a]).0 != (
                    #[trigger] r@[b]).0 by {
                        if b < pre_r.len() {
                            assert(r@[a] == pre_r[a] && r@[b] == pre_r[b]);
                        } else {
                            assert(r@[a] == pre_r[a]);
                            assert(!pre_queue.contents().contains(pre_r[a].0));
                            assert(pre_queue.contents().contains(position));
                        }
                    }
                    assert forall|t: Vec2i|
                        #![trigger old(queue).contents().contains(t)]
                        old(queue).contents().contains(t) && !queue.contents().contains(t)
                            && entity_map@.dom().contains(t) implies exists|i: int|
                        0 <= i < r@.len() && (#[trigger] r@[i]) == (t, entity_map@[t]) by {
                        if t == position {
                            assert(r@[r@.len() - 1] == (t, entity_map@[t]));
                        } else {
                            assert(!pre_queue.contents().contains(t));
                            assert(exists|i: int|
                                0 <= i < pre_r.len() && (#[trigger] pre_r[i]) == (
                                t,
                                entity_map@[t],
                            ));
                            let w = choose|i: int|
                                0 <= i < pre_r.len() && (#[trigger] pre_r[i]) == (
                                t,
                                entity_map@[t],
                            );
                            assert(r@[w] == (t, entity_map@[t]));
                        }
                    }
                }
            },
            None => {
                proof {
                    assert(false);
                }
            },
        }
        i = i + 1;
    }
    proof {
        assert forall|a: int, b: int|
            0 <= a < r@.len() && 0 <= b < r@.len() && a != b implies r@[a] != r@[b] by {
            if a < b {
                assert(r@[a].0 != r@[b].0);
            } else {
                assert(r@[b].0 != r@[a].0);
            }
        }
        assert(r@.no_duplicates());
    }
    r
}

} // verus!
