use vstd::prelude::*;

use crate::coord::Vec3i;
use crate::queue::{DistanceOrderedQueue, Queue};
use crate::storage::array_buffer::{valid3, VoxelBuffer};
use crate::storage::voxel::Voxel;
use crate::storage::voxel_world::VoxelWorld;
use crate::trait_ext::{order_key_le, DistanceOrd};
use crate::world::chunk::ChunkEntityMap;

verus! {

/// A merged face rectangle on one layer of the face grid: its minimum grid
/// cell, its extents, and the one material every merged face shares.
#[derive(Clone, Copy, Debug, PartialEq, Eq, Structural)]
pub struct LayerQuad {
    pub u: u32,
    pub v: u32,
    pub width: u32,
    pub height: u32,
    pub voxel: Voxel,
}

/// The grid index of cell (a, b) on a 64 by 64 face layer.
pub open spec fn grid_index(a: int, b: int) -> int {
    a + 64 * b
}

pub open spec fn layer_quad_covers(q: LayerQuad, a: int, b: int) -> bool {
    q.u <= a < q.u + q.width && q.v <= b < q.v + q.height
}

/// Cell (a, b) cannot extend a quad of material `m`: the mask never marked
/// it with `m`, or one of the first `upto` quads already claimed it.
pub open spec fn layer_cell_claimed(
    mask0: Seq<Option<Voxel>>,
    quads: Seq<LayerQuad>,
    upto: int,
    a: int,
    b: int,
    m: Voxel,
) -> bool {
    ||| mask0[grid_index(a, b)] != Some(m)
    ||| exists|j: int| 0 <= j < upto && #[trigger] layer_quad_covers(quads[j], a, b)
}

/// Some cell of row `b` within the quad's horizontal span is claimed, so the
/// quad cannot grow downward into that row.
pub open spec fn layer_row_claimed(
    mask0: Seq<Option<Voxel>>,
    quads: Seq<LayerQuad>,
    upto: int,
    u: int,
    width: int,
    b: int,
    m: Voxel,
) -> bool {
    exists|a: int| u <= a < u + width && #[trigger] layer_cell_claimed(mask0, quads, upto, a, b, m)
}

/// Some cell of row `b` within the span no longer matches `m` in the mask.
spec fn row_mismatch(mask: Seq<Option<Voxel>>, u: int, width: int, b: int, m: Voxel) -> bool {
    exists|a: int| u <= a < u + width && #[trigger] mask[grid_index(a, b)] != Some(m)
}

/// A claim against the first `upto` quads of `pre` is a claim against any
/// sequence that extends that prefix.
proof fn lemma_layer_claimed_prefix(
    mask0: Seq<Option<Voxel>>,
    pre: Seq<LayerQuad>,
    cur: Seq<LayerQuad>,
    upto: int,
    a: int,
    b: int,
    m: Voxel,
)
    requires
        0 <= upto <= pre.len(),
        upto <= cur.len(),
        forall|j: int| 0 <= j < upto ==> cur[j] == pre[j],
        layer_cell_claimed(mask0, pre, upto, a, b, m),
    ensures
        layer_cell_claimed(mask0, cur, upto, a, b, m),
{
    if mask0[grid_index(a, b)] == Some(m) {
        let w = choose|j: int| 0 <= j < upto && #[trigger] layer_quad_covers(pre[j], a, b);
        assert(cur[w] == pre[w]);
        assert(layer_quad_covers(cur[w], a, b));
    }
}

/// Distinct cells of the face grid have distinct indices.
proof fn lemma_grid_index_injective(a1: int, b1: int, a2: int, b2: int)
    requires
        0 <= a1 < 64,
        0 <= b1 < 64,
        0 <= a2 < 64,
        0 <= b2 < 64,
        !(a1 == a2 && b1 == b2),
    ensures
        grid_index(a1, b1) != grid_index(a2, b2),
{
    if grid_index(a1, b1) == grid_index(a2, b2) {
        vstd::arithmetic::div_mod::lemma_fundamental_div_mod_converse_div(
            grid_index(a1, b1),
            64,
            b1,
            a1,
        );
        vstd::arithmetic::div_mod::lemma_fundamental_div_mod_converse_div(
            grid_index(a2, b2),
            64,
            b2,
            a2,
        );
        vstd::arithmetic::div_mod::lemma_fundamental_div_mod_converse_mod(
            grid_index(a1, b1),
            64,
            b1,
            a1,
        );
        vstd::arithmetic::div_mod::lemma_fundamental_div_mod_converse_mod(
            grid_index(a2, b2),
            64,
            b2,
            a2,
        );
        assert(false);
    }
}

/// Merges the visible faces recorded in one layer mask into greedy
/// rectangles: every marked cell ends up in exactly one returned quad, each
/// quad covers only cells marked with its own material, quads are emitted
/// in row-major scan order of their corners, no quad could grow rightward
/// or downward past unclaimed matching cells, and the mask is consumed
/// (left fully cleared).
pub fn greedy_layer(mask: &mut Vec<Option<Voxel>>) -> (r: Vec<LayerQuad>)
    requires
        old(mask)@.len() == 4096,
    ensures
        final(mask)@.len() == 4096,
        forall|c: int| 0 <= c < 4096 ==> final(mask)@[c] is None,
        forall|i: int|
            0 <= i < r@.len() ==> {
                &&& (#[trigger] r@[i]).u + r@[i].width <= 64
                &&& r@[i].v + r@[i].height <= 64
                &&& r@[i].width >= 1
                &&& r@[i].height >= 1
            },
        forall|i: int, a: int, b: int|
            0 <= i < r@.len() && #[trigger] layer_quad_covers(r@[i], a, b) ==> old(mask)@[
                grid_index(a, b)] == Some(r@[i].voxel),
        forall|a: int, b: int|
            0 <= a < 64 && 0 <= b < 64 && old(mask)@[grid_index(a, b)] is Some ==> exists|i: int|
                0 <= i < r@.len() && #[trigger] layer_quad_covers(r@[i], a, b),
        forall|i: int, j: int, a: int, b: int|
            #![trigger layer_quad_covers(r@[i], a, b), layer_quad_covers(r@[j], a, b)]
            0 <= i < j < r@.len() && layer_quad_covers(r@[i], a, b) ==> !layer_quad_covers(
                r@[j],
                a,
                b,
            ),
        forall|i: int|
            0 <= i < r@.len() ==> ((#[trigger] r@[i]).u + r@[i].width == 64 || layer_cell_claimed(
                old(mask)@,
                r@,
                i,
                r@[i].u + r@[i].width,
                r@[i].v as int,
                r@[i].voxel,
            )),
        forall|i: int|
            0 <= i < r@.len() ==> ((#[trigger] r@[i]).v + r@[i].height == 64 || layer_row_claimed(
                old(mask)@,
                r@,
                i,
                r@[i].u as int,
                r@[i].width as int,
                r@[i].v + r@[i].height,
                r@[i].voxel,
            )),
        forall|i: int, a: int, b: int|
            #![trigger r@[i], old(mask)@[grid_index(a, b)]]
            0 <= i < r@.len() && 0 <= a < 64 && 0 <= b < 64 && (b < r@[i].v || (b == r@[i].v && a
                < r@[i].u)) && old(mask)@[grid_index(a, b)] is Some ==> exists|j: int|
                0 <= j < i && #[trigger] layer_quad_covers(r@[j], a, b),
{
    let ghost mask0 = mask@;
    let mut quads: Vec<LayerQuad> = Vec::new();
    let mut v: u32 = 0;
    while v < 64
        invariant
            0 <= v <= 64,
            mask@.len() == 4096,
            mask0.len() == 4096,
            forall|a: int, b: int|
                0 <= a < 64 && 0 <= b < 64 ==> ((#[trigger] mask@[grid_index(a, b)]) is Some
                    ==> mask@[grid_index(a, b)] == mask0[grid_index(a, b)]),
            forall|a: int, b: int|
                0 <= a < 64 && 0 <= b < v ==> (#[trigger] mask@[grid_index(a, b)]) is None,
            forall|i: int|
                0 <= i < quads@.len() ==> {
                    &&& (#[trigger] quads@[i]).u + quads@[i].width <= 64
                    &&& quads@[i].v + quads@[i].height <= 64
                    &&& quads@[i].width >= 1
                    &&& quads@[i].height >= 1
                },
            forall|i: int, a: int, b: int|
                0 <= i < quads@.len() && #[trigger] layer_quad_covers(quads@[i], a, b) ==> mask0[
                    grid_index(a, b)] == Some(quads@[i].voxel),
            forall|i: int, a: int, b: int|
                0 <= i < quads@.len() && #[trigger] layer_quad_covers(quads@[i], a, b) ==> mask@[
                    grid_index(a, b)] is None,
            forall|a: int, b: int|
                0 <= a < 64 && 0 <= b < 64 && mask0[grid_index(a, b)] is Some && (
                #[trigger] mask@[grid_index(a, b)]) is None ==> exists|i: int|
                    0 <= i < quads@.len() && #[trigger] layer_quad_covers(quads@[i], a, b),
            forall|i: int, j: int, a: int, b: int|
                #![trigger layer_quad_covers(quads@[i], a, b), layer_quad_covers(quads@[j], a, b)]
                0 <= i < j < quads@.len() && layer_quad_covers(quads@[i], a, b)
                    ==> !layer_quad_covers(quads@[j], a, b),
            forall|i: int|
                0 <= i < quads@.len() ==> ((#[trigger] quads@[i]).u + quads@[i].width == 64
                    || layer_cell_claimed(
                    mask0,
                    quads@,
                    i,
                    quads@[i].u + quads@[i].width,
                    quads@[i].v as int,
                    quads@[i].voxel,
                )),
            forall|i: int|
                0 <= i < quads@.len() ==> ((#[trigger] quads@[i]).v + quads@[i].height == 64
                    || layer_row_claimed(
                    mask0,
                    quads@,
                    i,
                    quads@[i].u as int,
                    quads@[i].width as int,
                    quads@[i].v + quads@[i].height,
                    quads@[i].voxel,
                )),
            forall|i: int, a: int, b: int|
                #![trigger quads@[i], mask0[grid_index(a, b)]]
                0 <= i < quads@.len() && 0 <= a < 64 && 0 <= b < 64 && (b < quads@[i].v || (b
                    == quads@[i].v && a < quads@[i].u)) && mask0[grid_index(a, b)] is Some
                    ==> exists|j: int| 0 <= j < i && #[trigger] layer_quad_covers(quads@[j], a, b),
        decreases 64 - v,
    {
        let mut u: u32 = 0;
        while u < 64
            invariant
                0 <= v < 64,
                0 <= u <= 64,
                mask@.len() == 4096,
                mask0.len() == 4096,
                forall|a: int, b: int|
                    0 <= a < 64 && 0 <= b < 64 ==> ((#[trigger] mask@[grid_index(a, b)]) is Some
                        ==> mask@[grid_index(a, b)] == mask0[grid_index(a, b)]),
                forall|a: int, b: int|
                    0 <= a < 64 && 0 <= b < 64 && (b < v || (b == v && a < u)) ==> (
                    #[trigger] mask@[grid_index(a, b)]) is None,
                forall|i: int|
                    0 <= i < quads@.len() ==> {
                        &&& (#[trigger] quads@[i]).u + quads@[i].width <= 64
                        &&& quads@[i].v + quads@[i].height <= 64
                        &&& quads@[i].width >= 1
                        &&& quads@[i].height >= 1
                    },
                forall|i: int, a: int, b: int|
                    0 <= i < quads@.len() && #[trigger] layer_quad_covers(quads@[i], a, b)
                        ==> mask0[grid_index(a, b)] == Some(quads@[i].voxel),
                forall|i: int, a: int, b: int|
                    0 <= i < quads@.len() && #[trigger] layer_quad_covers(quads@[i], a, b)
                        ==> mask@[grid_index(a, b)] is None,
                forall|a: int, b: int|
                    0 <= a < 64 && 0 <= b < 64 && mask0[grid_index(a, b)] is Some && (
                    #[trigger] mask@[grid_index(a, b)]) is None ==> exists|i: int|
                        0 <= i < quads@.len() && #[trigger] layer_quad_covers(quads@[i], a, b),
                forall|i: int, j: int, a: int, b: int|
                    #![trigger layer_quad_covers(quads@[i], a, b), layer_quad_covers(quads@[j], a, b)]
                    0 <= i < j < quads@.len() && layer_quad_covers(quads@[i], a, b)
                        ==> !layer_quad_covers(quads@[j], a, b),
                forall|i: int|
                    0 <= i < quads@.len() ==> ((#[trigger] quads@[i]).u + quads@[i].width == 64
                        || layer_cell_claimed(
                        mask0,
                        quads@,
                        i,
                        quads@[i].u + quads@[i].width,
                        quads@[i].v as int,
                        quads@[i].voxel,
                    )),
                forall|i: int|
                    0 <= i < quads@.len() ==> ((#[trigger] quads@[i]).v + quads@[i].height == 64
                        || layer_row_claimed(
                        mask0,
                        quads@,
                        i,
                        quads@[i].u as int,
                        quads@[i].width as int,
                        quads@[i].v + quads@[i].height,
                        quads@[i].voxel,
                    )),
                forall|i: int, a: int, b: int|
                    #![trigger quads@[i], mask0[grid_index(a, b)]]
                    0 <= i < quads@.len() && 0 <= a < 64 && 0 <= b < 64 && (b < quads@[i].v || (b
                    == quads@[i].v && a < quads@[i].u)) && mask0[grid_index(a, b)] is Some
                        ==> exists|j: int| 0 <= j < i && #[trigger] layer_quad_covers(quads@[j], a, b),
            decreases 64 - u,
        {
            let here = mask[(u + 64 * v) as usize];
            match here {
                None => {
                },
                Some(material) => {
                    // Extend the run rightwards while the material matches.
                    let mut width: u32 = 1;
                    loop
                        invariant_except_break
                            0 <= v < 64,
                            0 <= u < 64,
                            1 <= width,
                            u + width <= 64,
                            mask@.len() == 4096,
                            forall|a: int|
                                u <= a < u + width ==> mask@[grid_index(a, v as int)] == Some(
                                    material,
                                ),
                        ensures
                            0 <= v < 64,
                            0 <= u < 64,
                            1 <= width,
                            u + width <= 64,
                            mask@.len() == 4096,
                            forall|a: int|
                                u <= a < u + width ==> mask@[grid_index(a, v as int)] == Some(
                                    material,
                                ),
                            u + width == 64 || mask@[grid_index(u + width, v as int)] != Some(
                                material,
                            ),
                        decreases 64 - u - width,
                    {
                        if u + width >= 64 {
                            break ;
                        }
                        let cell = mask[(u + width + 64 * v) as usize];
                        let extends = match cell {
                            Some(other) => other == material,
                            None => false,
                        };
                        if !extends {
                            break ;
                        }
                        width = width + 1;
                    }
                    // Extend downwards while whole rows keep matching.
                    let mut height: u32 = 1;
                    loop
                        invariant_except_break
                            0 <= v < 64,
                            0 <= u < 64,
                            1 <= width,
                            u + width <= 64,
                            1 <= height,
                            v + height <= 64,
                            mask@.len() == 4096,
                            forall|a: int, b: int|
                                u <= a < u + width && v <= b < v + height ==> mask@[grid_index(
                                    a,
                                    b,
                                )] == Some(material),
                        ensures
                            0 <= v < 64,
                            0 <= u < 64,
                            1 <= width,
                            u + width <= 64,
                            1 <= height,
                            v + height <= 64,
                            mask@.len() == 4096,
                            forall|a: int, b: int|
                                u <= a < u + width && v <= b < v + height ==> mask@[grid_index(
                                    a,
                                    b,
                                )] == Some(material),
                            v + height == 64 || row_mismatch(
                                mask@,
                                u as int,
                                width as int,
                                v + height,
                                material,
                            ),
                        decreases 64 - v - height,
                    {
                        if v + height >= 64 {
                            break ;
                        }
                        let ghost row: int = v as int + height as int;
                        let mut du: u32 = 0;
                        let mut row_matches = true;
                        while du < width
                            invariant
                                0 <= v < 64,
                                0 <= u < 64,
                                1 <= width,
                                u + width <= 64,
                                1 <= height,
                                v + height < 64,
                                row == v + height,
                                0 <= du <= width,
                                mask@.len() == 4096,
                                row_matches ==> forall|a: int|
                                    u <= a < u + du ==> mask@[grid_index(a, row)] == Some(
                                        material,
                                    ),
                                !row_matches ==> row_mismatch(
                                    mask@,
                                    u as int,
                                    width as int,
                                    row,
                                    material,
                                ),
                            decreases width - du,
                        {
                            let cell = mask[(u + du + 64 * (v + height)) as usize];
                            let cell_matches = match cell {
                                Some(other) => other == material,
                                None => false,
                            };
                            if !cell_matches {
                                proof {
                                    assert(mask@[grid_index(u + du, row)] != Some(material));
                                    assert(row_mismatch(
                                        mask@,
                                        u as int,
                                        width as int,
                                        row,
                                        material,
                                    ));
                                }
                                row_matches = false;
                                du = width;
                            } else {
                                du = du + 1;
                            }
                        }
                        if !row_matches {
                            break ;
                        }
                        height = height + 1;
                    }
                    // Clear the merged rectangle out of the mask.
                    let ghost pre_clear = mask@;
                    let mut dv: u32 = 0;
                    while dv < height
                        invariant
                            0 <= v < 64,
                            0 <= u < 64,
                            1 <= width,
                            u + width <= 64,
                            1 <= height,
                            v + height <= 64,
                            0 <= dv <= height,
                            mask@.len() == 4096,
                            pre_clear.len() == 4096,
                            forall|a: int, b: int|
                                0 <= a < 64 && 0 <= b < 64 ==> #[trigger] mask@[grid_index(a, b)]
                                    == (if u <= a < u + width && v <= b < v + dv {
                                    None
                                } else {
                                    pre_clear[grid_index(a, b)]
                                }),
                        decreases height - dv,
                    {
                        let mut du: u32 = 0;
                        while du < width
                            invariant
                                0 <= v < 64,
                                0 <= u < 64,
                                1 <= width,
                                u + width <= 64,
                                1 <= height,
                                v + height <= 64,
                                0 <= dv < height,
                                0 <= du <= width,
                                mask@.len() == 4096,
                                pre_clear.len() == 4096,
                                forall|a: int, b: int|
                                    0 <= a < 64 && 0 <= b < 64 ==> #[trigger] mask@[grid_index(
                                        a,
                                        b,
                                    )] == (if (u <= a < u + width && v <= b < v + dv) || (v + dv
                                        == b && u <= a < u + du) {
                                        None
                                    } else {
                                        pre_clear[grid_index(a, b)]
                                    }),
                            decreases width - du,
                        {
                            let ghost pre_set = mask@;
                            mask.set((u + du + 64 * (v + dv)) as usize, None);
                            proof {
                                assert forall|a: int, b: int| 0 <= a < 64 && 0 <= b < 64 implies
                                    #[trigger] mask@[grid_index(a, b)] == (if (u <= a < u + width
                                    && v <= b < v + dv) || (v + dv == b && u <= a < u + du + 1) {
                                    None
                                } else {
                                    pre_clear[grid_index(a, b)]
                                }) by {
                                    if a == u + du && b == v + dv {
                                    } else {
                                        lemma_grid_index_injective(
                                            a,
                                            b,
                                            u + du,
                                            v + dv,
                                        );
                                        assert(mask@[grid_index(a, b)] == pre_set[grid_index(
                                            a,
                                            b,
                                        )]);
                                    }
                                }
                            }
                            du = du + 1;
                        }
                        dv = dv + 1;
                    }
                    // Record the merged quad.
                    let ghost pre_quads = quads@;
                    quads.push(LayerQuad { u, v, width, height, voxel: material });
                    proof {
                        let q = (LayerQuad { u, v, width, height, voxel: material });
                        assert(quads@[quads@.len() - 1] == q);
                        assert forall|i: int, a: int, b: int|
                            0 <= i < quads@.len() && #[trigger] layer_quad_covers(quads@[i], a, b) implies mask0[grid_index(a, b)] == Some(quads@[i].voxel) by {
                            if i < pre_quads.len() as int {
                                assert(quads@[i] == pre_quads[i]);
                            } else {
                                assert(quads@[i] == q);
                                assert(pre_clear[grid_index(a, b)] == Some(material));
                                assert(mask0[grid_index(a, b)] == Some(material));
                            }
                        }
                        assert forall|i: int, a: int, b: int|
                            0 <= i < quads@.len() && #[trigger] layer_quad_covers(quads@[i], a, b) implies mask@[grid_index(a, b)] is None by {
                            if i < pre_quads.len() as int {
                                assert(quads@[i] == pre_quads[i]);
                                assert(pre_clear[grid_index(a, b)] is None);
                                if u <= a < u + width && v <= b < v + height {
                                } else {
                                    assert(mask@[grid_index(a, b)] == pre_clear[grid_index(a, b)]);
                                }
                            } else {
                                assert(quads@[i] == q);
                            }
                        }
                        assert forall|a: int, b: int|
                            0 <= a < 64 && 0 <= b < 64 && mask0[grid_index(a, b)] is Some && (
                            #[trigger] mask@[grid_index(a, b)]) is None implies exists|i: int|
                            0 <= i < quads@.len() && #[trigger] layer_quad_covers(quads@[i], a, b) by {
                            if u <= a < u + width && v <= b < v + height {
                                assert(layer_quad_covers(quads@[quads@.len() - 1], a, b));
                            } else {
                                assert(mask@[grid_index(a, b)] == pre_clear[grid_index(a, b)]);
                                let i = choose|i: int|
                                    0 <= i < pre_quads.len() && layer_quad_covers(
                                        #[trigger] pre_quads[i],
                                        a,
                                        b,
                                    );
                                assert(layer_quad_covers(quads@[i], a, b));
                            }
                        }
                        assert forall|i: int, j: int, a: int, b: int|
                            #![trigger layer_quad_covers(quads@[i], a, b), layer_quad_covers(quads@[j], a, b)]
                            0 <= i < j < quads@.len() && layer_quad_covers(quads@[i], a, b)
                                implies !layer_quad_covers(quads@[j], a, b) by {
                            if j < pre_quads.len() as int {
                                assert(quads@[i] == pre_quads[i]);
                                assert(quads@[j] == pre_quads[j]);
                            } else {
                                assert(quads@[j] == q);
                                assert(quads@[i] == pre_quads[i]);
                                if layer_quad_covers(quads@[i], a, b) && layer_quad_covers(
                                    q,
                                    a,
                                    b,
                                ) {
                                    assert(pre_clear[grid_index(a, b)] is None);
                                    assert(pre_clear[grid_index(a, b)] == Some(material));
                                }
                            }
                        }
                        assert forall|i: int, a: int, b: int|
                            #![trigger quads@[i], mask0[grid_index(a, b)]]
                            0 <= i < quads@.len() && 0 <= a < 64 && 0 <= b < 64 && (b
                                < quads@[i].v || (b == quads@[i].v && a < quads@[i].u)) && mask0[
                                grid_index(a, b)] is Some implies exists|j: int|
                            0 <= j < i && #[trigger] layer_quad_covers(quads@[j], a, b) by {
                            if i < pre_quads.len() as int {
                                assert(quads@[i] == pre_quads[i]);
                                assert(exists|j: int|
                                    0 <= j < i && #[trigger] layer_quad_covers(
                                        pre_quads[j],
                                        a,
                                        b,
                                    ));
                                let w = choose|j: int|
                                    0 <= j < i && #[trigger] layer_quad_covers(
                                        pre_quads[j],
                                        a,
                                        b,
                                    );
                                assert(quads@[w] == pre_quads[w]);
                                assert(layer_quad_covers(quads@[w], a, b));
                            } else {
                                assert(quads@[i] == q);
                                assert(pre_clear[grid_index(a, b)] is None);
                                assert(exists|j: int|
                                    0 <= j < pre_quads.len() && #[trigger] layer_quad_covers(
                                        pre_quads[j],
                                        a,
                                        b,
                                    ));
                                let w = choose|j: int|
                                    0 <= j < pre_quads.len() && #[trigger] layer_quad_covers(
                                        pre_quads[j],
                                        a,
                                        b,
                                    );
                                assert(quads@[w] == pre_quads[w]);
                                assert(layer_quad_covers(quads@[w], a, b));
                                assert(0 <= w < i);
                            }
                        }
                        assert forall|i: int|
                            0 <= i < quads@.len() implies ((#[trigger] quads@[i]).u
                                + quads@[i].width == 64 || layer_cell_claimed(
                                mask0,
                                quads@,
                                i,
                                quads@[i].u + quads@[i].width,
                                quads@[i].v as int,
                                quads@[i].voxel,
                            )) by {
                            if i < pre_quads.len() as int {
                                assert(quads@[i] == pre_quads[i]);
                                if pre_quads[i].u + pre_quads[i].width != 64 {
                                    assert(layer_cell_claimed(
                                        mask0,
                                        pre_quads,
                                        i,
                                        pre_quads[i].u + pre_quads[i].width,
                                        pre_quads[i].v as int,
                                        pre_quads[i].voxel,
                                    ));
                                    lemma_layer_claimed_prefix(
                                        mask0,
                                        pre_quads,
                                        quads@,
                                        i,
                                        pre_quads[i].u + pre_quads[i].width,
                                        pre_quads[i].v as int,
                                        pre_quads[i].voxel,
                                    );
                                }
                            } else {
                                assert(quads@[i] == q);
                                if u + width != 64 {
                                    assert(pre_clear[grid_index(u + width, v as int)] != Some(
                                        material,
                                    ));
                                    if mask0[grid_index(u + width, v as int)] == Some(material) {
                                        assert(pre_clear[grid_index(u + width, v as int)]
                                            is None);
                                        assert(exists|j: int|
                                            0 <= j < pre_quads.len()
                                                && #[trigger] layer_quad_covers(
                                                pre_quads[j],
                                                u + width,
                                                v as int,
                                            ));
                                        let w = choose|j: int|
                                            0 <= j < pre_quads.len()
                                                && #[trigger] layer_quad_covers(
                                                pre_quads[j],
                                                u + width,
                                                v as int,
                                            );
                                        assert(quads@[w] == pre_quads[w]);
                                        assert(layer_quad_covers(quads@[w], u + width, v as int));
                                    }
                                    assert(layer_cell_claimed(
                                        mask0,
                                        quads@,
                                        i,
                                        u + width,
                                        v as int,
                                        material,
                                    ));
                                }
                            }
                        }
                        assert forall|i: int|
                            0 <= i < quads@.len() implies ((#[trigger] quads@[i]).v
                                + quads@[i].height == 64 || layer_row_claimed(
                                mask0,
                                quads@,
                                i,
                                quads@[i].u as int,
                                quads@[i].width as int,
                                quads@[i].v + quads@[i].height,
                                quads@[i].voxel,
                            )) by {
                            if i < pre_quads.len() as int {
                                assert(quads@[i] == pre_quads[i]);
                                if pre_quads[i].v + pre_quads[i].height != 64 {
                                    assert(layer_row_claimed(
                                        mask0,
                                        pre_quads,
                                        i,
                                        pre_quads[i].u as int,
                                        pre_quads[i].width as int,
                                        pre_quads[i].v + pre_quads[i].height,
                                        pre_quads[i].voxel,
                                    ));
                                    let wa = choose|a: int|
                                        pre_quads[i].u <= a < pre_quads[i].u + pre_quads[i].width
                                            && #[trigger] layer_cell_claimed(
                                            mask0,
                                            pre_quads,
                                            i,
                                            a,
                                            pre_quads[i].v + pre_quads[i].height,
                                            pre_quads[i].voxel,
                                        );
                                    lemma_layer_claimed_prefix(
                                        mask0,
                                        pre_quads,
                                        quads@,
                                        i,
                                        wa,
                                        pre_quads[i].v + pre_quads[i].height,
                                        pre_quads[i].voxel,
                                    );
                                    assert(layer_row_claimed(
                                        mask0,
                                        quads@,
                                        i,
                                        quads@[i].u as int,
                                        quads@[i].width as int,
                                        quads@[i].v + quads@[i].height,
                                        quads@[i].voxel,
                                    ));
                                }
                            } else {
                                assert(quads@[i] == q);
                                if v + height != 64 {
                                    let row_below: int = v as int + height as int;
                                    assert(row_mismatch(
                                        pre_clear,
                                        u as int,
                                        width as int,
                                        row_below,
                                        material,
                                    ));
                                    let wa = choose|a: int|
                                        u <= a < u + width && #[trigger] pre_clear[grid_index(
                                            a,
                                            row_below,
                                        )] != Some(material);
                                    assert(0 <= wa < 64 && 0 <= row_below < 64);
                                    if mask0[grid_index(wa, row_below)] == Some(material) {
                                        assert(pre_clear[grid_index(wa, row_below)] is None);
                                        assert(exists|j: int|
                                            0 <= j < pre_quads.len()
                                                && #[trigger] layer_quad_covers(
                                                pre_quads[j],
                                                wa,
                                                row_below,
                                            ));
                                        let w = choose|j: int|
                                            0 <= j < pre_quads.len()
                                                && #[trigger] layer_quad_covers(
                                                pre_quads[j],
                                                wa,
                                                row_below,
                                            );
                                        assert(quads@[w] == pre_quads[w]);
                                        assert(layer_quad_covers(quads@[w], wa, row_below));
                                    }
                                    assert(layer_cell_claimed(
                                        mask0,
                                        quads@,
                                        i,
                                        wa,
                                        row_below,
                                        material,
                                    ));
                                    assert(layer_row_claimed(
                                        mask0,
                                        quads@,
                                        i,
                                        u as int,
                                        width as int,
                                        row_below,
                                        material,
                                    ));
                                }
                            }
                        }
                        assert forall|a: int, b: int|
                            0 <= a < 64 && 0 <= b < 64 && (b < v || (b == v && a < u + 1)) implies (
                        #[trigger] mask@[grid_index(a, b)]) is None by {
                            if u <= a < u + width && v <= b < v + height {
                            } else {
                                assert(mask@[grid_index(a, b)] == pre_clear[grid_index(a, b)]);
                            }
                        }
                    }
                },
            }
            u = u + 1;
        }
        v = v + 1;
    }
    proof {
        assert forall|c: int| 0 <= c < 4096 implies mask@[c] is None by {
            let b = c / 64;
            let a = c % 64;
            vstd::arithmetic::div_mod::lemma_fundamental_div_mod(c, 64);
            assert(0 <= a < 64 && 0 <= b < 64);
            assert(mask@[grid_index(a, b)] is None);
        }
        assert forall|a: int, b: int|
            0 <= a < 64 && 0 <= b < 64 && mask0[grid_index(a, b)] is Some implies exists|i: int|
            0 <= i < quads@.len() && #[trigger] layer_quad_covers(quads@[i], a, b) by {
            assert(mask@[grid_index(a, b)] is None);
        }
    }
    quads
}

/// The x component of the padded-cube cell that face-grid sample (n, u, v)
/// addresses for direction `d`: `n` runs along the face's axis, `u` and `v`
/// along its tangents.
pub open spec fn face_cell_x(d: int, n: int, u: int, v: int) -> int {
    if d / 2 == 0 {
        n
    } else {
        u
    }
}

pub open spec fn face_cell_y(d: int, n: int, u: int, v: int) -> int {
    if d / 2 == 0 {
        u
    } else if d / 2 == 1 {
        n
    } else {
        v
    }
}

pub open spec fn face_cell_z(d: int, n: int, u: int, v: int) -> int {
    if d / 2 == 2 {
        n
    } else {
        v
    }
}

/// Which way along its axis direction `d` looks: toward greater coordinates
/// for odd directions, lesser for even ones.
pub open spec fn face_step(d: int) -> int {
    if d % 2 == 1 {
        1
    } else {
        -1
    }
}

/// A face shows when its own voxel is visible and its neighbour does not
/// hide it: the neighbour is empty, or translucent in front of an opaque
/// voxel.
pub open spec fn face_exposed(voxel: Voxel, neighbour: Voxel) -> bool {
    &&& voxel.visibility_spec() != crate::storage::voxel::VoxelVisibility::Empty
    &&& (neighbour.visibility_spec() == crate::storage::voxel::VoxelVisibility::Empty || (
    neighbour.visibility_spec() == crate::storage::voxel::VoxelVisibility::Translucent
        && voxel.visibility_spec() == crate::storage::voxel::VoxelVisibility::Opaque))
}

/// The voxel behind face-grid sample (n, u, v) of direction `d`.
pub open spec fn face_voxel(buf: &VoxelBuffer, d: int, n: int, u: int, v: int) -> Voxel {
    buf.spec_voxel_at(face_cell_x(d, n, u, v), face_cell_y(d, n, u, v), face_cell_z(d, n, u, v))
}

/// Whether the face of interior cell (n, u, v) facing direction `d` is
/// visible, judged against the neighbouring voxel one step along the axis.
pub open spec fn face_visible(buf: &VoxelBuffer, d: int, n: int, u: int, v: int) -> bool {
    face_exposed(face_voxel(buf, d, n, u, v), face_voxel(buf, d, n + face_step(d), u, v))
}

/// A fresh, cleared face-layer mask, sized for reuse across every layer and
/// direction of an invocation.
pub fn new_mask_buffer() -> (r: Vec<Option<Voxel>>)
    ensures
        r@.len() == 4096,
        forall|c: int| 0 <= c < 4096 ==> r@[c] is None,
{
    let mut r: Vec<Option<Voxel>> = Vec::new();
    let mut i: usize = 0;
    while i < 4096
        invariant
            0 <= i <= 4096,
            r@.len() == i,
            forall|c: int| 0 <= c < i ==> r@[c] is None,
        decreases 4096 - i,
    {
        r.push(None);
        i = i + 1;
    }
    r
}

/// Records which interior faces of layer `n`, direction `d`, are visible,
/// overwriting every entry of the reused mask.
pub fn fill_face_mask(buf: &VoxelBuffer, d: usize, n: u32, mask: &mut Vec<Option<Voxel>>)
    requires
        buf.wf(),
        d < 6,
        1 <= n <= 64,
        old(mask)@.len() == 4096,
    ensures
        final(mask)@.len() == 4096,
        forall|a: int, b: int|
            0 <= a < 64 && 0 <= b < 64 ==> (#[trigger] final(mask)@[grid_index(a, b)]) == (
            if face_visible(buf, d as int, n as int, a + 1, b + 1) {
                Some(face_voxel(buf, d as int, n as int, a + 1, b + 1))
            } else {
                None::<Voxel>
            }),
{
    let positive = d % 2 == 1;
    let axis = d / 2;
    let neighbour_n = if positive {
        n + 1
    } else {
        n - 1
    };
    let mut b: u32 = 0;
    while b < 64
        invariant
            buf.wf(),
            d < 6,
            1 <= n <= 64,
            positive == (d % 2 == 1),
            axis == d / 2,
            neighbour_n == n + face_step(d as int),
            0 <= b <= 64,
            mask@.len() == 4096,
            forall|aa: int, bb: int|
                0 <= aa < 64 && 0 <= bb < b ==> (#[trigger] mask@[grid_index(aa, bb)]) == (
                if face_visible(buf, d as int, n as int, aa + 1, bb + 1) {
                    Some(face_voxel(buf, d as int, n as int, aa + 1, bb + 1))
                } else {
                    None::<Voxel>
                }),
        decreases 64 - b,
    {
        let mut a: u32 = 0;
        while a < 64
            invariant
                buf.wf(),
                d < 6,
                1 <= n <= 64,
                positive == (d % 2 == 1),
                axis == d / 2,
                neighbour_n == n + face_step(d as int),
                0 <= b < 64,
                0 <= a <= 64,
                mask@.len() == 4096,
                forall|aa: int, bb: int|
                    0 <= aa < 64 && 0 <= bb < 64 && (bb < b || (bb == b && aa < a)) ==> (
                    #[trigger] mask@[grid_index(aa, bb)]) == (
                    if face_visible(buf, d as int, n as int, aa + 1, bb + 1) {
                        Some(face_voxel(buf, d as int, n as int, aa + 1, bb + 1))
                    } else {
                        None::<Voxel>
                    }),
            decreases 64 - a,
        {
            let u = a + 1;
            let v = b + 1;
            let cell = if axis == 0 {
                crate::coord::Vec3u { x: n, y: u, z: v }
            } else if axis == 1 {
                crate::coord::Vec3u { x: u, y: n, z: v }
            } else {
                crate::coord::Vec3u { x: u, y: v, z: n }
            };
            let neighbour_cell = if axis == 0 {
                crate::coord::Vec3u { x: neighbour_n, y: u, z: v }
            } else if axis == 1 {
                crate::coord::Vec3u { x: u, y: neighbour_n, z: v }
            } else {
                crate::coord::Vec3u { x: u, y: v, z: neighbour_n }
            };
            let voxel = buf.voxel_at(cell);
            let neighbour = buf.voxel_at(neighbour_cell);
            let vis = voxel.get_visibility();
            let neighbour_vis = neighbour.get_visibility();
            let exposed = vis != crate::storage::voxel::VoxelVisibility::Empty && (neighbour_vis
                == crate::storage::voxel::VoxelVisibility::Empty || (neighbour_vis
                == crate::storage::voxel::VoxelVisibility::Translucent && vis
                == crate::storage::voxel::VoxelVisibility::Opaque));
            let ghost pre = mask@;
            mask.set(
                (a + 64 * b) as usize,
                if exposed {
                    Some(voxel)
                } else {
                    None
                },
            );
            proof {
                assert(voxel == face_voxel(buf, d as int, n as int, a + 1, b + 1));
                assert(neighbour == face_voxel(
                    buf,
                    d as int,
                    n as int + face_step(d as int),
                    a + 1,
                    b + 1,
                ));
                assert(exposed == face_visible(buf, d as int, n as int, a + 1, b + 1));
                assert forall|aa: int, bb: int|
                    0 <= aa < 64 && 0 <= bb < 64 && (bb < b || (bb == b && aa < a + 1)) implies (
                #[trigger] mask@[grid_index(aa, bb)]) == (
                if face_visible(buf, d as int, n as int, aa + 1, bb + 1) {
                    Some(face_voxel(buf, d as int, n as int, aa + 1, bb + 1))
                } else {
                    None::<Voxel>
                }) by {
                    if aa == a && bb == b {
                    } else {
                        lemma_grid_index_injective(aa, bb, a as int, b as int);
                        assert(mask@[grid_index(aa, bb)] == pre[grid_index(aa, bb)]);
                    }
                }
            }
            a = a + 1;
        }
        b = b + 1;
    }
}

/// One merged, axis-aligned surface rectangle of a chunk, in padded cell
/// coordinates: its minimum-corner cell, its tangent extents, and the one
/// material of every face it merged.
#[derive(Clone, Copy, Debug, PartialEq, Eq, Structural)]
pub struct Quad {
    pub minimum: crate::coord::Vec3u,
    pub width: u32,
    pub height: u32,
    pub voxel: Voxel,
}

/// The layer coordinate of a quad along direction `d`'s axis.
pub open spec fn quad_layer(d: int, q: Quad) -> int {
    if d / 2 == 0 {
        q.minimum.x as int
    } else if d / 2 == 1 {
        q.minimum.y as int
    } else {
        q.minimum.z as int
    }
}

/// The quad's minimum coordinate along the first tangent axis.
pub open spec fn quad_u0(d: int, q: Quad) -> int {
    if d / 2 == 0 {
        q.minimum.y as int
    } else {
        q.minimum.x as int
    }
}

/// The quad's minimum coordinate along the second tangent axis.
pub open spec fn quad_v0(d: int, q: Quad) -> int {
    if d / 2 == 2 {
        q.minimum.y as int
    } else {
        q.minimum.z as int
    }
}

/// Whether the quad covers tangent cell (u, v) of its layer.
pub open spec fn quad_covers(d: int, q: Quad, u: int, v: int) -> bool {
    quad_u0(d, q) <= u < quad_u0(d, q) + q.width && quad_v0(d, q) <= v < quad_v0(d, q) + q.height
}

/// Tangent cell (u, v) of layer `n` cannot extend a quad of direction `d`
/// and material `m`: its face is not visible with that material, or one of
/// the first `upto` quads already claimed it.
pub open spec fn face_cell_claimed(
    buf: &VoxelBuffer,
    d: int,
    quads: Seq<Quad>,
    upto: int,
    n: int,
    u: int,
    v: int,
    m: Voxel,
) -> bool {
    ||| !(face_visible(buf, d, n, u, v) && face_voxel(buf, d, n, u, v) == m)
    ||| exists|j: int|
        0 <= j < upto && quad_layer(d, #[trigger] quads[j]) == n && quad_covers(d, quads[j], u, v)
}

/// Some cell of row `v` within the quad's horizontal span is claimed, so the
/// quad cannot grow into that row.
pub open spec fn face_row_claimed(
    buf: &VoxelBuffer,
    d: int,
    quads: Seq<Quad>,
    upto: int,
    n: int,
    u0: int,
    width: int,
    v: int,
    m: Voxel,
) -> bool {
    exists|a: int|
        u0 <= a < u0 + width && #[trigger] face_cell_claimed(buf, d, quads, upto, n, a, v, m)
}

/// A claim against the first `upto` quads of `pre` is a claim against any
/// sequence that extends that prefix.
proof fn lemma_face_claimed_prefix(
    buf: &VoxelBuffer,
    d: int,
    pre: Seq<Quad>,
    cur: Seq<Quad>,
    upto: int,
    n: int,
    u: int,
    v: int,
    m: Voxel,
)
    requires
        0 <= upto <= pre.len(),
        upto <= cur.len(),
        forall|j: int| 0 <= j < upto ==> cur[j] == pre[j],
        face_cell_claimed(buf, d, pre, upto, n, u, v, m),
    ensures
        face_cell_claimed(buf, d, cur, upto, n, u, v, m),
{
    if face_visible(buf, d, n, u, v) && face_voxel(buf, d, n, u, v) == m {
        let w = choose|j: int|
            0 <= j < upto && quad_layer(d, #[trigger] pre[j]) == n && quad_covers(d, pre[j], u, v);
        assert(cur[w] == pre[w]);
        assert(quad_layer(d, cur[w]) == n && quad_covers(d, cur[w], u, v));
    }
}

/// Translates a claim on the face grid of one layer into the corresponding
/// claim on the direction's quads, through the grid-to-cell mapping of the
/// quads appended for that layer.
proof fn lemma_layer_claim_to_face(
    buf: &VoxelBuffer,
    d: int,
    n: int,
    layer_mask: Seq<Option<Voxel>>,
    layer_quads: Seq<LayerQuad>,
    upto: int,
    quads: Seq<Quad>,
    base: int,
    a: int,
    b: int,
    m: Voxel,
)
    requires
        0 <= a < 64,
        0 <= b < 64,
        0 <= upto <= layer_quads.len(),
        0 <= base,
        base + layer_quads.len() <= quads.len(),
        layer_mask[grid_index(a, b)] == (if face_visible(buf, d, n, a + 1, b + 1) {
            Some(face_voxel(buf, d, n, a + 1, b + 1))
        } else {
            None::<Voxel>
        }),
        forall|i: int|
            base <= i < base + layer_quads.len() ==> {
                &&& quad_layer(d, #[trigger] quads[i]) == n
                &&& quad_u0(d, quads[i]) == layer_quads[i - base].u + 1
                &&& quad_v0(d, quads[i]) == layer_quads[i - base].v + 1
                &&& quads[i].width == layer_quads[i - base].width
                &&& quads[i].height == layer_quads[i - base].height
            },
        layer_cell_claimed(layer_mask, layer_quads, upto, a, b, m),
    ensures
        face_cell_claimed(buf, d, quads, base + upto, n, a + 1, b + 1, m),
{
    if layer_mask[grid_index(a, b)] != Some(m) {
        assert(!(face_visible(buf, d, n, a + 1, b + 1) && face_voxel(buf, d, n, a + 1, b + 1)
            == m));
    } else {
        let w = choose|j: int| 0 <= j < upto && #[trigger] layer_quad_covers(layer_quads[j], a, b);
        assert(quad_layer(d, quads[base + w]) == n);
        assert(quad_covers(d, quads[base + w], a + 1, b + 1));
        assert(0 <= base + w < base + upto);
    }
}

/// What one direction's quads must satisfy: each quad lies on an interior
/// layer and covers only interior cells whose face in that direction is
/// visible with the quad's own material (the minimum corner's included);
/// every visible interior face is covered; no face is covered twice; quads
/// stand in row-major scan order of their corners within each layer; and no
/// quad could grow sideways or downward past unclaimed matching faces —
/// the greedy maximality that pins the merged quad count.
pub open spec fn quads_sound(buf: &VoxelBuffer, d: int, quads: Seq<Quad>) -> bool {
    &&& forall|i: int|
        0 <= i < quads.len() ==> {
            &&& 1 <= quad_layer(d, #[trigger] quads[i]) <= 64
            &&& 1 <= quad_u0(d, quads[i])
            &&& quad_u0(d, quads[i]) + quads[i].width <= 65
            &&& 1 <= quad_v0(d, quads[i])
            &&& quad_v0(d, quads[i]) + quads[i].height <= 65
            &&& quads[i].width >= 1
            &&& quads[i].height >= 1
        }
    &&& forall|i: int, u: int, v: int|
        0 <= i < quads.len() && #[trigger] quad_covers(d, quads[i], u, v) ==> face_visible(
            buf,
            d,
            quad_layer(d, quads[i]),
            u,
            v,
        ) && face_voxel(buf, d, quad_layer(d, quads[i]), u, v) == quads[i].voxel
    &&& forall|n: int, u: int, v: int|
        1 <= n <= 64 && 1 <= u <= 64 && 1 <= v <= 64 && #[trigger] face_visible(buf, d, n, u, v)
            ==> exists|i: int|
            0 <= i < quads.len() && quad_layer(d, #[trigger] quads[i]) == n && quad_covers(
                d,
                quads[i],
                u,
                v,
            )
    &&& forall|i: int, j: int, u: int, v: int|
        #![trigger quad_covers(d, quads[i], u, v), quad_covers(d, quads[j], u, v)]
        0 <= i < j < quads.len() && quad_layer(d, quads[i]) == quad_layer(d, quads[j])
            && quad_covers(d, quads[i], u, v) ==> !quad_covers(d, quads[j], u, v)
    &&& forall|i: int|
        0 <= i < quads.len() ==> (quad_u0(d, #[trigger] quads[i]) + quads[i].width == 65
            || face_cell_claimed(
            buf,
            d,
            quads,
            i,
            quad_layer(d, quads[i]),
            quad_u0(d, quads[i]) + quads[i].width,
            quad_v0(d, quads[i]),
            quads[i].voxel,
        ))
    &&& forall|i: int|
        0 <= i < quads.len() ==> (quad_v0(d, #[trigger] quads[i]) + quads[i].height == 65
            || face_row_claimed(
            buf,
            d,
            quads,
            i,
            quad_layer(d, quads[i]),
            quad_u0(d, quads[i]),
            quads[i].width as int,
            quad_v0(d, quads[i]) + quads[i].height,
            quads[i].voxel,
        ))
    &&& forall|i: int, u: int, v: int|
        0 <= i < quads.len() && 1 <= u <= 64 && 1 <= v <= 64 && (v < quad_v0(d, quads[i]) || (v
            == quad_v0(d, quads[i]) && u < quad_u0(d, quads[i]))) && #[trigger] face_visible(
            buf,
            d,
            quad_layer(d, quads[i]),
            u,
            v,
        ) ==> exists|j: int|
            0 <= j < i && quad_layer(d, #[trigger] quads[j]) == quad_layer(d, quads[i])
                && quad_covers(d, quads[j], u, v)
}

/// Meshes every interior layer of one face direction, reusing the caller's
/// layer mask as scratch.
#[verifier::rlimit(80)]
pub fn mesh_direction(buf: &VoxelBuffer, d: usize, mask: &mut Vec<Option<Voxel>>) -> (r: Vec<Quad>)
    requires
        buf.wf(),
        d < 6,
        old(mask)@.len() == 4096,
    ensures
        final(mask)@.len() == 4096,
        forall|c: int| 0 <= c < 4096 ==> final(mask)@[c] is None,
        quads_sound(buf, d as int, r@),
{
    let axis = d / 2;
    let mut quads: Vec<Quad> = Vec::new();
    let mut n: u32 = 1;
    while n <= 64
        invariant
            buf.wf(),
            d < 6,
            axis == d / 2,
            1 <= n <= 65,
            mask@.len() == 4096,
            n > 1 ==> forall|c: int| 0 <= c < 4096 ==> (#[trigger] mask@[c]) is None,
            forall|i: int|
                0 <= i < quads@.len() ==> {
                    &&& 1 <= quad_layer(d as int, #[trigger] quads@[i]) < n
                    &&& 1 <= quad_u0(d as int, quads@[i])
                    &&& quad_u0(d as int, quads@[i]) + quads@[i].width <= 65
                    &&& 1 <= quad_v0(d as int, quads@[i])
                    &&& quad_v0(d as int, quads@[i]) + quads@[i].height <= 65
                    &&& quads@[i].width >= 1
                    &&& quads@[i].height >= 1
                },
            forall|i: int, u: int, v: int|
                0 <= i < quads@.len() && #[trigger] quad_covers(d as int, quads@[i], u, v)
                    ==> face_visible(buf, d as int, quad_layer(d as int, quads@[i]), u, v)
                    && face_voxel(buf, d as int, quad_layer(d as int, quads@[i]), u, v)
                    == quads@[i].voxel,
            forall|nn: int, u: int, v: int|
                1 <= nn < n && 1 <= u <= 64 && 1 <= v <= 64 && #[trigger] face_visible(
                    buf,
                    d as int,
                    nn,
                    u,
                    v,
                ) ==> exists|i: int|
                    0 <= i < quads@.len() && quad_layer(d as int, #[trigger] quads@[i]) == nn
                        && quad_covers(d as int, quads@[i], u, v),
            forall|i: int, j: int, u: int, v: int|
                #![trigger quad_covers(d as int, quads@[i], u, v), quad_covers(d as int, quads@[j], u, v)]
                0 <= i < j < quads@.len() && quad_layer(d as int, quads@[i]) == quad_layer(
                    d as int,
                    quads@[j],
                ) && quad_covers(d as int, quads@[i], u, v) ==> !quad_covers(
                    d as int,
                    quads@[j],
                    u,
                    v,
                ),
            forall|i: int|
                0 <= i < quads@.len() ==> (quad_u0(d as int, #[trigger] quads@[i])
                    + quads@[i].width == 65 || face_cell_claimed(
                    buf,
                    d as int,
                    quads@,
                    i,
                    quad_layer(d as int, quads@[i]),
                    quad_u0(d as int, quads@[i]) + quads@[i].width,
                    quad_v0(d as int, quads@[i]),
                    quads@[i].voxel,
                )),
            forall|i: int|
                0 <= i < quads@.len() ==> (quad_v0(d as int, #[trigger] quads@[i])
                    + quads@[i].height == 65 || face_row_claimed(
                    buf,
                    d as int,
                    quads@,
                    i,
                    quad_layer(d as int, quads@[i]),
                    quad_u0(d as int, quads@[i]),
                    quads@[i].width as int,
                    quad_v0(d as int, quads@[i]) + quads@[i].height,
                    quads@[i].voxel,
                )),
            forall|i: int, uu: int, vv: int|
                0 <= i < quads@.len() && 1 <= uu <= 64 && 1 <= vv <= 64 && (vv < quad_v0(
                    d as int,
                    quads@[i],
                ) || (vv == quad_v0(d as int, quads@[i]) && uu < quad_u0(d as int, quads@[i])))
                    && #[trigger] face_visible(
                    buf,
                    d as int,
                    quad_layer(d as int, quads@[i]),
                    uu,
                    vv,
                ) ==> exists|j: int|
                    0 <= j < i && quad_layer(d as int, #[trigger] quads@[j]) == quad_layer(
                        d as int,
                        quads@[i],
                    ) && quad_covers(d as int, quads@[j], uu, vv),
        decreases 65 - n,
    {
        fill_face_mask(buf, d, n, mask);
        let ghost layer_mask = mask@;
        let layer_quads = greedy_layer(mask);
        let ghost pre_quads = quads@;
        let mut k: usize = 0;
        while k < layer_quads.len()
            invariant
                buf.wf(),
                d < 6,
                axis == d / 2,
                1 <= n <= 64,
                0 <= k <= layer_quads@.len(),
                layer_mask.len() == 4096,
                forall|a: int, b: int|
                    0 <= a < 64 && 0 <= b < 64 ==> (#[trigger] layer_mask[grid_index(a, b)]) == (
                    if face_visible(buf, d as int, n as int, a + 1, b + 1) {
                        Some(face_voxel(buf, d as int, n as int, a + 1, b + 1))
                    } else {
                        None::<Voxel>
                    }),
                forall|i: int|
                    0 <= i < layer_quads@.len() ==> {
                        &&& (#[trigger] layer_quads@[i]).u + layer_quads@[i].width <= 64
                        &&& layer_quads@[i].v + layer_quads@[i].height <= 64
                        &&& layer_quads@[i].width >= 1
                        &&& layer_quads@[i].height >= 1
                    },
                forall|i: int, a: int, b: int|
                    0 <= i < layer_quads@.len() && #[trigger] layer_quad_covers(
                        layer_quads@[i],
                        a,
                        b,
                    ) ==> layer_mask[grid_index(a, b)] == Some(layer_quads@[i].voxel),
                forall|a: int, b: int|
                    0 <= a < 64 && 0 <= b < 64 && layer_mask[grid_index(a, b)] is Some
                        ==> exists|i: int|
                        0 <= i < layer_quads@.len() && #[trigger] layer_quad_covers(
                            layer_quads@[i],
                            a,
                            b,
                        ),
                forall|i: int, j: int, a: int, b: int|
                    #![trigger layer_quad_covers(layer_quads@[i], a, b), layer_quad_covers(layer_quads@[j], a, b)]
                    0 <= i < j < layer_quads@.len() && layer_quad_covers(layer_quads@[i], a, b)
                        ==> !layer_quad_covers(layer_quads@[j], a, b),
                quads@.len() == pre_quads.len() + k,
                forall|i: int| 0 <= i < pre_quads.len() ==> quads@[i] == pre_quads[i],
                forall|i: int|
                    pre_quads.len() <= i < quads@.len() ==> {
                        &&& quad_layer(d as int, #[trigger] quads@[i]) == n
                        &&& quad_u0(d as int, quads@[i]) == layer_quads@[i - pre_quads.len()].u
                            + 1
                        &&& quad_v0(d as int, quads@[i]) == layer_quads@[i - pre_quads.len()].v
                            + 1
                        &&& quads@[i].width == layer_quads@[i - pre_quads.len()].width
                        &&& quads@[i].height == layer_quads@[i - pre_quads.len()].height
                        &&& quads@[i].voxel == layer_quads@[i - pre_quads.len()].voxel
                    },
                forall|i: int|
                    0 <= i < pre_quads.len() ==> 1 <= quad_layer(d as int, #[trigger] quads@[i])
                        < n,
            decreases layer_quads@.len() - k,
        {
            let lq = layer_quads[k];
            let minimum = if axis == 0 {
                crate::coord::Vec3u { x: n, y: lq.u + 1, z: lq.v + 1 }
            } else if axis == 1 {
                crate::coord::Vec3u { x: lq.u + 1, y: n, z: lq.v + 1 }
            } else {
                crate::coord::Vec3u { x: lq.u + 1, y: lq.v + 1, z: n }
            };
            quads.push(
                Quad { minimum, width: lq.width, height: lq.height, voxel: lq.voxel },
            );
            k = k + 1;
        }
        proof {
            assert forall|i: int| 0 <= i < quads@.len() implies {
                &&& 1 <= quad_layer(d as int, #[trigger] quads@[i]) < n + 1
                &&& 1 <= quad_u0(d as int, quads@[i])
                &&& quad_u0(d as int, quads@[i]) + quads@[i].width <= 65
                &&& 1 <= quad_v0(d as int, quads@[i])
                &&& quad_v0(d as int, quads@[i]) + quads@[i].height <= 65
                &&& quads@[i].width >= 1
                &&& quads@[i].height >= 1
            } by {
                if i < pre_quads.len() {
                    assert(quads@[i] == pre_quads[i]);
                } else {
                    let lq = layer_quads@[i - pre_quads.len()];
                    assert(lq.u + lq.width <= 64 && lq.v + lq.height <= 64 && lq.width >= 1
                        && lq.height >= 1);
                    assert(quad_u0(d as int, quads@[i]) == lq.u + 1);
                    assert(quad_v0(d as int, quads@[i]) == lq.v + 1);
                }
            }
            assert forall|i: int, u: int, v: int|
                0 <= i < quads@.len() && #[trigger] quad_covers(d as int, quads@[i], u, v) implies
                face_visible(buf, d as int, quad_layer(d as int, quads@[i]), u, v) && face_voxel(
                    buf,
                    d as int,
                    quad_layer(d as int, quads@[i]),
                    u,
                    v,
                ) == quads@[i].voxel by {
                if i >= pre_quads.len() {
                    let lq = layer_quads@[i - pre_quads.len()];
                    assert(quad_layer(d as int, quads@[i]) == n);
                    assert(quad_u0(d as int, quads@[i]) == lq.u + 1);
                    assert(quad_v0(d as int, quads@[i]) == lq.v + 1);
                    assert(lq.u + lq.width <= 64 && lq.v + lq.height <= 64);
                    assert(layer_quad_covers(lq, u - 1, v - 1));
                    assert(0 <= u - 1 < 64 && 0 <= v - 1 < 64);
                    assert(layer_mask[grid_index(u - 1, v - 1)] == Some(lq.voxel));
                    assert(layer_mask[grid_index(u - 1, v - 1)] == (
                    if face_visible(buf, d as int, n as int, u, v) {
                        Some(face_voxel(buf, d as int, n as int, u, v))
                    } else {
                        None::<Voxel>
                    }));
                } else {
                    assert(quads@[i] == pre_quads[i]);
                    assert(quad_covers(d as int, pre_quads[i], u, v));
                    assert(face_visible(
                        buf,
                        d as int,
                        quad_layer(d as int, pre_quads[i]),
                        u,
                        v,
                    ) && face_voxel(buf, d as int, quad_layer(d as int, pre_quads[i]), u, v)
                        == pre_quads[i].voxel);
                }
            }
            assert forall|nn: int, u: int, v: int|
                1 <= nn < n + 1 && 1 <= u <= 64 && 1 <= v <= 64 && #[trigger] face_visible(
                    buf,
                    d as int,
                    nn,
                    u,
                    v,
                ) implies exists|i: int|
                0 <= i < quads@.len() && quad_layer(d as int, #[trigger] quads@[i]) == nn
                    && quad_covers(d as int, quads@[i], u, v) by {
                if nn == n {
                    assert(0 <= u - 1 < 64 && 0 <= v - 1 < 64);
                    assert(layer_mask[grid_index(u - 1, v - 1)] == (
                    if face_visible(buf, d as int, n as int, u, v) {
                        Some(face_voxel(buf, d as int, n as int, u, v))
                    } else {
                        None::<Voxel>
                    }));
                    assert(layer_mask[grid_index(u - 1, v - 1)] is Some);
                    let i = choose|i: int|
                        0 <= i < layer_quads@.len() && #[trigger] layer_quad_covers(
                            layer_quads@[i],
                            u - 1,
                            v - 1,
                        );
                    let lq = layer_quads@[i];
                    assert(quads@[pre_quads.len() + i].width == lq.width);
                    assert(quad_u0(d as int, quads@[pre_quads.len() + i]) == lq.u + 1);
                    assert(quad_v0(d as int, quads@[pre_quads.len() + i]) == lq.v + 1);
                    assert(quad_layer(d as int, quads@[pre_quads.len() + i]) == nn);
                    assert(quad_covers(d as int, quads@[pre_quads.len() + i], u, v));
                } else {
                    assert(exists|i: int|
                        0 <= i < pre_quads.len() && quad_layer(d as int, #[trigger] pre_quads[i])
                            == nn && quad_covers(d as int, pre_quads[i], u, v));
                    let i = choose|i: int|
                        0 <= i < pre_quads.len() && quad_layer(d as int, #[trigger] pre_quads[i])
                            == nn && quad_covers(d as int, pre_quads[i], u, v);
                    assert(quads@[i] == pre_quads[i]);
                    assert(quad_covers(d as int, quads@[i], u, v));
                }
            }
            assert forall|i: int, j: int, u: int, v: int|
                #![trigger quad_covers(d as int, quads@[i], u, v), quad_covers(d as int, quads@[j], u, v)]
                0 <= i < j < quads@.len() && quad_layer(d as int, quads@[i]) == quad_layer(
                    d as int,
                    quads@[j],
                ) && quad_covers(d as int, quads@[i], u, v) implies !quad_covers(
                    d as int,
                    quads@[j],
                    u,
                    v,
                ) by {
                if j >= pre_quads.len() && i >= pre_quads.len() {
                    if quad_covers(d as int, quads@[j], u, v) {
                        assert(layer_quad_covers(layer_quads@[i - pre_quads.len()], u - 1, v - 1));
                        assert(layer_quad_covers(layer_quads@[j - pre_quads.len()], u - 1, v - 1));
                    }
                } else if j >= pre_quads.len() && i < pre_quads.len() {
                    assert(quad_layer(d as int, quads@[i]) < n);
                    assert(quad_layer(d as int, quads@[j]) == n);
                } else {
                    assert(quads@[i] == pre_quads[i]);
                    assert(quads@[j] == pre_quads[j]);
                    assert(quad_covers(d as int, pre_quads[i], u, v));
                    if quad_covers(d as int, pre_quads[j], u, v) {
                        assert(false);
                    }
                }
            }
            assert forall|i: int|
                0 <= i < quads@.len() implies (quad_u0(d as int, #[trigger] quads@[i])
                + quads@[i].width == 65 || face_cell_claimed(
                buf,
                d as int,
                quads@,
                i,
                quad_layer(d as int, quads@[i]),
                quad_u0(d as int, quads@[i]) + quads@[i].width,
                quad_v0(d as int, quads@[i]),
                quads@[i].voxel,
            )) by {
                if i < pre_quads.len() {
                    assert(quads@[i] == pre_quads[i]);
                    if quad_u0(d as int, pre_quads[i]) + pre_quads[i].width != 65 {
                        assert(face_cell_claimed(
                            buf,
                            d as int,
                            pre_quads,
                            i,
                            quad_layer(d as int, pre_quads[i]),
                            quad_u0(d as int, pre_quads[i]) + pre_quads[i].width,
                            quad_v0(d as int, pre_quads[i]),
                            pre_quads[i].voxel,
                        ));
                        lemma_face_claimed_prefix(
                            buf,
                            d as int,
                            pre_quads,
                            quads@,
                            i,
                            quad_layer(d as int, pre_quads[i]),
                            quad_u0(d as int, pre_quads[i]) + pre_quads[i].width,
                            quad_v0(d as int, pre_quads[i]),
                            pre_quads[i].voxel,
                        );
                    }
                } else {
                    let k2 = i - pre_quads.len();
                    let lq = layer_quads@[k2];
                    assert(quad_layer(d as int, quads@[i]) == n);
                    assert(quad_u0(d as int, quads@[i]) == lq.u + 1);
                    assert(quad_v0(d as int, quads@[i]) == lq.v + 1);
                    if lq.u + lq.width != 64 {
                        assert(lq.u + lq.width < 64);
                        assert(layer_cell_claimed(
                            layer_mask,
                            layer_quads@,
                            k2,
                            lq.u + lq.width,
                            lq.v as int,
                            lq.voxel,
                        ));
                        assert(layer_mask[grid_index(lq.u + lq.width, lq.v as int)] == (
                        if face_visible(buf, d as int, n as int, lq.u + lq.width + 1, lq.v + 1) {
                            Some(
                                face_voxel(buf, d as int, n as int, lq.u + lq.width + 1, lq.v + 1),
                            )
                        } else {
                            None::<Voxel>
                        }));
                        lemma_layer_claim_to_face(
                            buf,
                            d as int,
                            n as int,
                            layer_mask,
                            layer_quads@,
                            k2,
                            quads@,
                            pre_quads.len() as int,
                            lq.u + lq.width,
                            lq.v as int,
                            lq.voxel,
                        );
                        assert(face_cell_claimed(
                            buf,
                            d as int,
                            quads@,
                            i,
                            n as int,
                            lq.u + lq.width + 1,
                            lq.v + 1,
                            lq.voxel,
                        ));
                    }
                }
            }
            assert forall|i: int|
                0 <= i < quads@.len() implies (quad_v0(d as int, #[trigger] quads@[i])
                + quads@[i].height == 65 || face_row_claimed(
                buf,
                d as int,
                quads@,
                i,
                quad_layer(d as int, quads@[i]),
                quad_u0(d as int, quads@[i]),
                quads@[i].width as int,
                quad_v0(d as int, quads@[i]) + quads@[i].height,
                quads@[i].voxel,
            )) by {
                if i < pre_quads.len() {
                    assert(quads@[i] == pre_quads[i]);
                    if quad_v0(d as int, pre_quads[i]) + pre_quads[i].height != 65 {
                        assert(face_row_claimed(
                            buf,
                            d as int,
                            pre_quads,
                            i,
                            quad_layer(d as int, pre_quads[i]),
                            quad_u0(d as int, pre_quads[i]),
                            pre_quads[i].width as int,
                            quad_v0(d as int, pre_quads[i]) + pre_quads[i].height,
                            pre_quads[i].voxel,
                        ));
                        let wa = choose|a: int|
                            quad_u0(d as int, pre_quads[i]) <= a < quad_u0(d as int, pre_quads[i])
                                + pre_quads[i].width && #[trigger] face_cell_claimed(
                                buf,
                                d as int,
                                pre_quads,
                                i,
                                quad_layer(d as int, pre_quads[i]),
                                a,
                                quad_v0(d as int, pre_quads[i]) + pre_quads[i].height,
                                pre_quads[i].voxel,
                            );
                        lemma_face_claimed_prefix(
                            buf,
                            d as int,
                            pre_quads,
                            quads@,
                            i,
                            quad_layer(d as int, pre_quads[i]),
                            wa,
                            quad_v0(d as int, pre_quads[i]) + pre_quads[i].height,
                            pre_quads[i].voxel,
                        );
                        assert(face_cell_claimed(
                            buf,
                            d as int,
                            quads@,
                            i,
                            quad_layer(d as int, quads@[i]),
                            wa,
                            quad_v0(d as int, quads@[i]) + quads@[i].height,
                            quads@[i].voxel,
                        ));
                        assert(face_row_claimed(
                            buf,
                            d as int,
                            quads@,
                            i,
                            quad_layer(d as int, quads@[i]),
                            quad_u0(d as int, quads@[i]),
                            quads@[i].width as int,
                            quad_v0(d as int, quads@[i]) + quads@[i].height,
                            quads@[i].voxel,
                        ));
                    }
                } else {
                    let k2 = i - pre_quads.len();
                    let lq = layer_quads@[k2];
                    assert(quad_layer(d as int, quads@[i]) == n);
                    assert(quad_u0(d as int, quads@[i]) == lq.u + 1);
                    assert(quad_v0(d as int, quads@[i]) == lq.v + 1);
                    if lq.v + lq.height != 64 {
                        assert(lq.v + lq.height < 64);
                        assert(layer_row_claimed(
                            layer_mask,
                            layer_quads@,
                            k2,
                            lq.u as int,
                            lq.width as int,
                            lq.v + lq.height,
                            lq.voxel,
                        ));
                        let wa = choose|a: int|
                            lq.u <= a < lq.u + lq.width && #[trigger] layer_cell_claimed(
                                layer_mask,
                                layer_quads@,
                                k2,
                                a,
                                lq.v + lq.height,
                                lq.voxel,
                            );
                        assert(0 <= wa < 64);
                        assert(layer_mask[grid_index(wa, lq.v + lq.height)] == (
                        if face_visible(buf, d as int, n as int, wa + 1, lq.v + lq.height + 1) {
                            Some(
                                face_voxel(buf, d as int, n as int, wa + 1, lq.v + lq.height + 1),
                            )
                        } else {
                            None::<Voxel>
                        }));
                        lemma_layer_claim_to_face(
                            buf,
                            d as int,
                            n as int,
                            layer_mask,
                            layer_quads@,
                            k2,
                            quads@,
                            pre_quads.len() as int,
                            wa,
                            lq.v + lq.height,
                            lq.voxel,
                        );
                        assert(face_cell_claimed(
                            buf,
                            d as int,
                            quads@,
                            i,
                            n as int,
                            wa + 1,
                            lq.v + lq.height + 1,
                            lq.voxel,
                        ));
                        assert(face_row_claimed(
                            buf,
                            d as int,
                            quads@,
                            i,
                            n as int,
                            lq.u + 1,
                            lq.width as int,
                            lq.v + lq.height + 1,
                            lq.voxel,
                        ));
                    }
                }
            }
            assert forall|i: int, uu: int, vv: int|
                0 <= i < quads@.len() && 1 <= uu <= 64 && 1 <= vv <= 64 && (vv < quad_v0(
                    d as int,
                    quads@[i],
                ) || (vv == quad_v0(d as int, quads@[i]) && uu < quad_u0(d as int, quads@[i])))
                    && #[trigger] face_visible(
                    buf,
                    d as int,
                    quad_layer(d as int, quads@[i]),
                    uu,
                    vv,
                ) implies exists|j: int|
                0 <= j < i && quad_layer(d as int, #[trigger] quads@[j]) == quad_layer(
                    d as int,
                    quads@[i],
                ) && quad_covers(d as int, quads@[j], uu, vv) by {
                if i < pre_quads.len() {
                    assert(quads@[i] == pre_quads[i]);
                    assert(face_visible(
                        buf,
                        d as int,
                        quad_layer(d as int, pre_quads[i]),
                        uu,
                        vv,
                    ));
                    assert(exists|j: int|
                        0 <= j < i && quad_layer(d as int, #[trigger] pre_quads[j]) == quad_layer(
                            d as int,
                            pre_quads[i],
                        ) && quad_covers(d as int, pre_quads[j], uu, vv));
                    let w = choose|j: int|
                        0 <= j < i && quad_layer(d as int, #[trigger] pre_quads[j]) == quad_layer(
                            d as int,
                            pre_quads[i],
                        ) && quad_covers(d as int, pre_quads[j], uu, vv);
                    assert(quads@[w] == pre_quads[w]);
                    assert(quad_layer(d as int, quads@[w]) == quad_layer(d as int, quads@[i]));
                    assert(quad_covers(d as int, quads@[w], uu, vv));
                } else {
                    let k2 = i - pre_quads.len();
                    let lq = layer_quads@[k2];
                    assert(quad_layer(d as int, quads@[i]) == n);
                    assert(quad_u0(d as int, quads@[i]) == lq.u + 1);
                    assert(quad_v0(d as int, quads@[i]) == lq.v + 1);
                    assert(0 <= uu - 1 < 64 && 0 <= vv - 1 < 64);
                    assert(layer_mask[grid_index(uu - 1, vv - 1)] == (
                    if face_visible(buf, d as int, n as int, uu, vv) {
                        Some(face_voxel(buf, d as int, n as int, uu, vv))
                    } else {
                        None::<Voxel>
                    }));
                    assert(layer_mask[grid_index(uu - 1, vv - 1)] is Some);
                    assert(exists|j: int|
                        0 <= j < k2 && #[trigger] layer_quad_covers(
                            layer_quads@[j],
                            uu - 1,
                            vv - 1,
                        ));
                    let w = choose|j: int|
                        0 <= j < k2 && #[trigger] layer_quad_covers(
                            layer_quads@[j],
                            uu - 1,
                            vv - 1,
                        );
                    assert(quad_layer(d as int, quads@[pre_quads.len() + w]) == n);
                    assert(quad_u0(d as int, quads@[pre_quads.len() + w]) == layer_quads@[w].u
                        + 1);
                    assert(quad_v0(d as int, quads@[pre_quads.len() + w]) == layer_quads@[w].v
                        + 1);
                    assert(quads@[pre_quads.len() + w].width == layer_quads@[w].width);
                    assert(quads@[pre_quads.len() + w].height == layer_quads@[w].height);
                    assert(quad_covers(d as int, quads@[pre_quads.len() + w], uu, vv));
                    assert(pre_quads.len() + w < i);
                }
            }
        }
        n = n + 1;
    }
    quads
}

/// Mesh-merge soundness on a uniformly filled interior: for a buffer whose
/// interior cube holds one visible material and whose padding shell is
/// empty, any quad set satisfying `quads_sound` holds exactly one quad — on
/// the boundary layer the direction faces, covering the full 64 by 64
/// cross-section with the interior's material.
pub proof fn lemma_uniform_interior_single_quad(
    buf: &VoxelBuffer,
    d: int,
    quads: Seq<Quad>,
    m: Voxel,
)
    requires
        0 <= d < 6,
        buf.wf(),
        m.visibility_spec() != crate::storage::voxel::VoxelVisibility::Empty,
        forall|x: int, y: int, z: int|
            valid3(x, y, z) ==> buf.spec_voxel_at(x, y, z) == (if 1 <= x <= 64 && 1 <= y <= 64
                && 1 <= z <= 64 {
                m
            } else {
                Voxel(0u16)
            }),
        quads_sound(buf, d, quads),
    ensures
        quads.len() == 1,
        quad_layer(d, quads[0]) == (if d % 2 == 1 {
            64int
        } else {
            1int
        }),
        quad_u0(d, quads[0]) == 1,
        quad_v0(d, quads[0]) == 1,
        quads[0].width == 64,
        quads[0].height == 64,
        quads[0].voxel == m,
{
    let nstar: int = if d % 2 == 1 {
        64
    } else {
        1
    };
    assert forall|n: int, u: int, v: int|
        1 <= n <= 64 && 1 <= u <= 64 && 1 <= v <= 64 implies (face_visible(buf, d, n, u, v) <==> n
        == nstar) && (face_visible(buf, d, n, u, v) ==> face_voxel(buf, d, n, u, v) == m) by {
        let cx = face_cell_x(d, n, u, v);
        let cy = face_cell_y(d, n, u, v);
        let cz = face_cell_z(d, n, u, v);
        assert(valid3(cx, cy, cz));
        assert(buf.spec_voxel_at(cx, cy, cz) == m);
        let n2 = n + face_step(d);
        let ex = face_cell_x(d, n2, u, v);
        let ey = face_cell_y(d, n2, u, v);
        let ez = face_cell_z(d, n2, u, v);
        assert(valid3(ex, ey, ez));
        if 1 <= n2 <= 64 {
            assert(buf.spec_voxel_at(ex, ey, ez) == m);
        } else {
            assert(buf.spec_voxel_at(ex, ey, ez) == (Voxel(0u16)));
        }
    }
    assert forall|i: int| 0 <= i < quads.len() implies quad_layer(d, #[trigger] quads[i]) == nstar
        && quads[i].voxel == m by {
        assert(quad_covers(d, quads[i], quad_u0(d, quads[i]), quad_v0(d, quads[i])));
        assert(face_visible(buf, d, quad_layer(d, quads[i]), quad_u0(d, quads[i]), quad_v0(d, quads[i])));
    }
    assert(face_visible(buf, d, nstar, 1, 1));
    assert(exists|i: int|
        0 <= i < quads.len() && quad_layer(d, #[trigger] quads[i]) == nstar && quad_covers(
            d,
            quads[i],
            1,
            1,
        ));
    assert(quads.len() >= 1);
    let q0 = quads[0];
    assert(quad_layer(d, q0) == nstar && q0.voxel == m);
    if quad_v0(d, q0) > 1 || (quad_v0(d, q0) == 1 && quad_u0(d, q0) > 1) {
        assert(face_visible(buf, d, quad_layer(d, q0), 1, 1));
        assert(exists|j: int|
            0 <= j < 0 && quad_layer(d, #[trigger] quads[j]) == quad_layer(d, q0) && quad_covers(
                d,
                quads[j],
                1,
                1,
            ));
        assert(false);
    }
    assert(quad_u0(d, q0) == 1 && quad_v0(d, q0) == 1);
    if quad_u0(d, q0) + q0.width != 65 {
        assert(quad_u0(d, q0) + q0.width <= 64);
        assert(face_cell_claimed(buf, d, quads, 0, nstar, quad_u0(d, q0) + q0.width, 1, m));
        assert(face_visible(buf, d, nstar, quad_u0(d, q0) + q0.width, 1));
        assert(face_voxel(buf, d, nstar, quad_u0(d, q0) + q0.width, 1) == m);
        assert(false);
    }
    if quad_v0(d, q0) + q0.height != 65 {
        assert(quad_v0(d, q0) + q0.height <= 64);
        assert(face_row_claimed(buf, d, quads, 0, nstar, 1, q0.width as int, 1 + q0.height, m));
        let wa = choose|a: int|
            1 <= a < 1 + q0.width && #[trigger] face_cell_claimed(
                buf,
                d,
                quads,
                0,
                nstar,
                a,
                1 + q0.height,
                m,
            );
        assert(1 <= wa <= 64 && 1 <= 1 + q0.height <= 64);
        assert(face_visible(buf, d, nstar, wa, 1 + q0.height));
        assert(face_voxel(buf, d, nstar, wa, 1 + q0.height) == m);
        assert(false);
    }
    assert(q0.width == 64 && q0.height == 64);
    if quads.len() > 1 {
        let q1 = quads[1];
        assert(quad_layer(d, q1) == nstar);
        assert(quad_covers(d, q1, quad_u0(d, q1), quad_v0(d, q1)));
        assert(1 <= quad_u0(d, q1) < 65 && 1 <= quad_v0(d, q1) < 65);
        assert(quad_covers(d, q0, quad_u0(d, q1), quad_v0(d, q1)));
        assert(!quad_covers(d, quads[1], quad_u0(d, q1), quad_v0(d, q1)));
        assert(false);
    }
}

/// Mesh-merge soundness, whole-mesh form: meshing a uniformly filled
/// interior yields exactly six quads, one full-cross-section quad per face
/// direction. The premises are exactly what `generate_chunk_mesh` ensures.
pub proof fn lemma_uniform_interior_six_quads(buf: &VoxelBuffer, mesh: &ChunkMesh, m: Voxel)
    requires
        buf.wf(),
        m.visibility_spec() != crate::storage::voxel::VoxelVisibility::Empty,
        forall|x: int, y: int, z: int|
            valid3(x, y, z) ==> buf.spec_voxel_at(x, y, z) == (if 1 <= x <= 64 && 1 <= y <= 64
                && 1 <= z <= 64 {
                m
            } else {
                Voxel(0u16)
            }),
        mesh.groups@.len() == 6,
        forall|d: int| 0 <= d < 6 ==> quads_sound(buf, d, (#[trigger] mesh.groups@[d])@),
    ensures
        forall|d: int|
            0 <= d < 6 ==> {
                &&& (#[trigger] mesh.groups@[d])@.len() == 1
                &&& mesh.groups@[d]@[0].width == 64
                &&& mesh.groups@[d]@[0].height == 64
                &&& mesh.groups@[d]@[0].voxel == m
            },
{
    assert forall|d: int| 0 <= d < 6 implies {
        &&& (#[trigger] mesh.groups@[d])@.len() == 1
        &&& mesh.groups@[d]@[0].width == 64
        &&& mesh.groups@[d]@[0].height == 64
        &&& mesh.groups@[d]@[0].voxel == m
    } by {
        lemma_uniform_interior_single_quad(buf, d, mesh.groups@[d]@, m);
    }
}

/// A chunk's surface as merged quads, one group per face direction.
pub struct ChunkMesh {
    pub groups: Vec<Vec<Quad>>,
}

/// Meshes a finished voxel chunk: greedy-merged quads for all six face
/// directions, over the interior only — the padding shell contributes
/// neighbour visibility but never emits quads. The caller owns the reusable
/// scratch mask, which comes back cleared.
pub fn generate_chunk_mesh(buf: &VoxelBuffer, mask: &mut Vec<
    Option<Voxel>,
>) -> (r: ChunkMesh)
    requires
        buf.wf(),
        old(mask)@.len() == 4096,
    ensures
        final(mask)@.len() == 4096,
        forall|c: int| 0 <= c < 4096 ==> final(mask)@[c] is None,
        r.groups@.len() == 6,
        forall|d: int| 0 <= d < 6 ==> quads_sound(buf, d, (#[trigger] r.groups@[d])@),
{
    let mut groups: Vec<Vec<Quad>> = Vec::new();
    let mut d: usize = 0;
    while d < 6
        invariant
            buf.wf(),
            0 <= d <= 6,
            mask@.len() == 4096,
            d > 0 ==> forall|c: int| 0 <= c < 4096 ==> (#[trigger] mask@[c]) is None,
            groups@.len() == d,
            forall|e: int| 0 <= e < d ==> quads_sound(buf, e, (#[trigger] groups@[e])@),
        decreases 6 - d,
    {
        let quads = mesh_direction(buf, d, mask);
        groups.push(quads);
        d = d + 1;
    }
    ChunkMesh { groups }
}

/// The corner-space plane a quad's face lies on: one past its layer when
/// the direction looks toward greater coordinates, the layer itself
/// otherwise.
pub open spec fn quad_plane(d: int, q: Quad) -> int {
    quad_layer(d, q) + (if d % 2 == 1 {
        1int
    } else {
        0int
    })
}

/// The x component of corner `k` (0 to 3) of a quad's rectangle, in padded
/// corner space: corners pair the two tangent extremes, minimum first.
pub open spec fn quad_corner_x(d: int, q: Quad, k: int) -> int {
    if d / 2 == 0 {
        quad_plane(d, q)
    } else {
        quad_u0(d, q) + (if k % 2 == 1 {
            q.width as int
        } else {
            0int
        })
    }
}

pub open spec fn quad_corner_y(d: int, q: Quad, k: int) -> int {
    if d / 2 == 0 {
        quad_u0(d, q) + (if k % 2 == 1 {
            q.width as int
        } else {
            0int
        })
    } else if d / 2 == 1 {
        quad_plane(d, q)
    } else {
        quad_v0(d, q) + (if k / 2 == 1 {
            q.height as int
        } else {
            0int
        })
    }
}

pub open spec fn quad_corner_z(d: int, q: Quad, k: int) -> int {
    if d / 2 == 2 {
        quad_plane(d, q)
    } else {
        quad_v0(d, q) + (if k / 2 == 1 {
            q.height as int
        } else {
            0int
        })
    }
}

/// The four corner positions of a quad's rectangle, in padded corner space,
/// minimum corner first; the renderer scales and offsets them.
pub fn quad_mesh_positions(d: usize, q: Quad) -> (r: Vec<crate::coord::Vec3u>)
    requires
        d < 6,
        q.minimum.x < 65,
        q.minimum.y < 65,
        q.minimum.z < 65,
        q.width <= 64,
        q.height <= 64,
    ensures
        r@.len() == 4,
        forall|k: int|
            0 <= k < 4 ==> {
                &&& (#[trigger] r@[k]).x == quad_corner_x(d as int, q, k)
                &&& r@[k].y == quad_corner_y(d as int, q, k)
                &&& r@[k].z == quad_corner_z(d as int, q, k)
            },
{
    let axis = d / 2;
    let plane = if d % 2 == 1 {
        (if axis == 0 {
            q.minimum.x
        } else if axis == 1 {
            q.minimum.y
        } else {
            q.minimum.z
        }) + 1
    } else {
        if axis == 0 {
            q.minimum.x
        } else if axis == 1 {
            q.minimum.y
        } else {
            q.minimum.z
        }
    };
    let u0 = if axis == 0 {
        q.minimum.y
    } else {
        q.minimum.x
    };
    let v0 = if axis == 2 {
        q.minimum.y
    } else {
        q.minimum.z
    };
    let mut r: Vec<crate::coord::Vec3u> = Vec::new();
    let mut k: usize = 0;
    while k < 4
        invariant
            d < 6,
            axis == d / 2,
            0 <= k <= 4,
            u0 + q.width <= u32::MAX,
            v0 + q.height <= u32::MAX,
            plane == quad_plane(d as int, q),
            u0 == quad_u0(d as int, q),
            v0 == quad_v0(d as int, q),
            r@.len() == k,
            forall|j: int|
                0 <= j < k ==> {
                    &&& (#[trigger] r@[j]).x == quad_corner_x(d as int, q, j)
                    &&& r@[j].y == quad_corner_y(d as int, q, j)
                    &&& r@[j].z == quad_corner_z(d as int, q, j)
                },
        decreases 4 - k,
    {
        let uu = if k % 2 == 1 {
            u0 + q.width
        } else {
            u0
        };
        let vv = if k / 2 == 1 {
            v0 + q.height
        } else {
            v0
        };
        let corner = if axis == 0 {
            crate::coord::Vec3u { x: plane, y: uu, z: vv }
        } else if axis == 1 {
            crate::coord::Vec3u { x: uu, y: plane, z: vv }
        } else {
            crate::coord::Vec3u { x: uu, y: vv, z: plane }
        };
        r.push(corner);
        k = k + 1;
    }
    r
}

/// The six triangle indices of one quad, two triangles over its four
/// corners, offset by the vertices already emitted.
pub fn quad_mesh_indices(start: u32) -> (r: Vec<u32>)
    requires
        start + 3 <= u32::MAX,
    ensures
        r@.len() == 6,
        r@[0] == start,
        r@[1] == start + 1,
        r@[2] == start + 2,
        r@[3] == start + 2,
        r@[4] == start + 1,
        r@[5] == start + 3,
{
    let mut r: Vec<u32> = Vec::new();
    r.push(start);
    r.push(start + 1);
    r.push(start + 2);
    r.push(start + 2);
    r.push(start + 1);
    r.push(start + 3);
    r
}

/// The unit normal of every face in direction `d`.
pub fn face_normal(d: usize) -> (r: (i32, i32, i32))
    requires
        d < 6,
    ensures
        r.0 == (if d / 2 == 0 { face_step(d as int) } else { 0int }),
        r.1 == (if d / 2 == 1 { face_step(d as int) } else { 0int }),
        r.2 == (if d / 2 == 2 { face_step(d as int) } else { 0int }),
{
    let sign: i32 = if d % 2 == 1 {
        1
    } else {
        -1
    };
    if d / 2 == 0 {
        (sign, 0, 0)
    } else if d / 2 == 1 {
        (0, sign, 0)
    } else {
        (0, 0, sign)
    }
}

/// Marks the queue of chunk coordinates waiting to be meshed.
pub struct MeshChunk;

pub type MeshChunkQueue = DistanceOrderedQueue<Vec3i, MeshChunk>;

/// Pops up to `limit - running` nearest-first coordinates from the meshing
/// queue; each one that still has both a renderable slot and generated
/// terrain is returned for spawning, and the rest are silently discarded.
pub fn plan_mesh_dispatch(
    queue: &mut MeshChunkQueue,
    entity_map: &ChunkEntityMap,
    world: &VoxelWorld,
    running: usize,
    limit: usize,
) -> (r: Vec<(Vec3i, u64)>)
    requires
        old(queue).wf(),
        entity_map.wf(),
        world.wf(),
    ensures
        final(queue).wf(),
        final(queue).center() == old(queue).center(),
        r@.len() <= crate::generation::chunk::spec_budget(limit as int, running as int),
        final(queue).size() == old(queue).size() - (
        if crate::generation::chunk::spec_budget(limit as int, running as int) <= old(queue).size() {
            crate::generation::chunk::spec_budget(limit as int, running as int)
        } else {
            old(queue).size() as int
        }),
        forall|i: int|
            0 <= i < r@.len() ==> {
                &&& entity_map@.dom().contains((#[trigger] r@[i]).0)
                &&& r@[i].1 == entity_map@[r@[i].0]
                &&& world@.dom().contains(r@[i].0)
                &&& old(queue).contents().contains(r@[i].0)
            },
        forall|t: Vec3i|
            final(queue).contents().contains(t) ==> old(queue).contents().contains(t),
        forall|i: int, j: int|
            0 <= i < j < r@.len() ==> order_key_le(
                (#[trigger] r@[i]).0.distance_ord_spec(old(queue).center()),
                (#[trigger] r@[j]).0.distance_ord_spec(old(queue).center()),
            ),
        forall|t: Vec3i|
            #![trigger old(queue).contents().contains(t)]
            old(queue).contents().contains(t) && !final(queue).contents().contains(t)
                && entity_map@.dom().contains(t) && world@.dom().contains(t) ==> exists|i: int|
                0 <= i < r@.len() && (#[trigger] r@[i]) == (t, entity_map@[t]),
        forall|a: int, b: int|
            0 <= a < b < r@.len() ==> (#[trigger] r@[a]).0 != (#[trigger] r@[b]).0,
        r@.no_duplicates(),
        forall|i: int, u: Vec3i|
            0 <= i < r@.len() && final(queue).contents().contains(u) ==> order_key_le(
                (#[trigger] r@[i]).0.distance_ord_spec(old(queue).center()),
                #[trigger] u.distance_ord_spec(old(queue).center()),
            ),
{
    let budget = if running < limit {
        limit - running
    } else {
        0
    };
    let queue_len = queue.len();
    let to_pop = if budget < queue_len {
        budget
    } else {
        queue_len
    };
    let mut r: Vec<(Vec3i, u64)> = Vec::new();
    let mut i: usize = 0;
    while i < to_pop
        invariant
            queue.wf(),
            queue.center() == old(queue).center(),
            entity_map.wf(),
            world.wf(),
            0 <= i <= to_pop,
            to_pop == (if crate::generation::chunk::spec_budget(limit as int, running as int)
                <= old(queue).size() {
                crate::generation::chunk::spec_budget(limit as int, running as int)
            } else {
                old(queue).size() as int
            }),
            to_pop <= old(queue).size(),
            r@.len() <= i,
            queue.size() == old(queue).size() - i,
            forall|j: int|
                0 <= j < r@.len() ==> {
                    &&& entity_map@.dom().contains((#[trigger] r@[j]).0)
                    &&& r@[j].1 == entity_map@[r@[j].0]
                    &&& world@.dom().contains(r@[j].0)
                    &&& old(queue).contents().contains(r@[j].0)
                },
            forall|t: Vec3i| queue.contents().contains(t) ==> old(queue).contents().contains(t),
            forall|j: int, u: Vec3i|
                0 <= j < r@.len() && queue.contents().contains(u) ==> order_key_le(
                    (#[trigger] r@[j]).0.distance_ord_spec(old(queue).center()),
                    #[trigger] u.distance_ord_spec(old(queue).center()),
                ),
            forall|a: int, b: int|
                0 <= a < b < r@.len() ==> order_key_le(
                    (#[trigger] r@[a]).0.distance_ord_spec(old(queue).center()),
                    (#[trigger] r@[b]).0.distance_ord_spec(old(queue).center()),
                ),
            forall|j: int|
                0 <= j < r@.len() ==> !queue.contents().contains((#[trigger] r@[j]).0),
            forall|a: int, b: int|
                0 <= a < b < r@.len() ==> (#[trigger] r@[a]).0 != (#[trigger] r@[b]).0,
            forall|t: Vec3i|
                #![trigger old(queue).contents().contains(t)]
                old(queue).contents().contains(t) && !queue.contents().contains(t)
                    && entity_map@.dom().contains(t) && world@.dom().contains(t)
                    ==> exists|i: int|
                    0 <= i < r@.len() && (#[trigger] r@[i]) == (t, entity_map@[t]),
        decreases to_pop - i,
    {
        let ghost pre_queue = *queue;
        let ghost pre_r = r@;
        match queue.pop() {
            Some(position) => {
                let slot = entity_map.get(&position);
                let stored = world.contains(&position);
                if let Some(entity) = slot {
                    if stored {
                        r.push((position, entity));
                    }
                }
                proof {
                    assert forall|j: int|
                        0 <= j < r@.len() implies !queue.contents().contains(
                        (#[trigger] r@[j]).0,
                    ) by {
                        if j < pre_r.len() {
                            assert(r@[j] == pre_r[j]);
                            assert(!pre_queue.contents().contains(pre_r[j].0));
                        }
                    }
                    assert forall|a: int, b: int|
                        0 <= a < b < r@.len() implies (#[trigger] r@[a]).0 != (
                    #[trigger] r@[b]).0 by {
                        if b < pre_r.len() {
                            assert(r@[a] == pre_r[a] && r@[b] == pre_r[b]);
                        } else {
                            assert(r@[a] == pre_r[a]);
                            assert(!pre_queue.contents().contains(pre_r[a].0));
                            assert(pre_queue.contents().contains(position));
                        }
                    }
                    assert forall|t: Vec3i|
                        #![trigger old(queue).contents().contains(t)]
                        old(queue).contents().contains(t) && !queue.contents().contains(t)
                            && entity_map@.dom().contains(t) && world@.dom().contains(t) implies
                        exists|i: int|
                        0 <= i < r@.len() && (#[trigger] r@[i]) == (t, entity_map@[t]) by {
                        if t == position {
                            assert(r@[r@.len() - 1] == (t, entity_map@[t]));
                        } else {
                            assert(!pre_queue.contents().contains(t));
                            assert(exists|i: int|
                                0 <= i < pre_r.len() && (#[trigger] pre_r[i]) == (
                                t,
                                entity_map@[t],
                            ));
                            let w = choose|i: int|
                                0 <= i < pre_r.len() && (#[trigger] pre_r[i]) == (
                                t,
                                entity_map@[t],
                            );
                            assert(r@[w] == (t, entity_map@[t]));
                        }
                    }
                }
            },
            None => {
                proof {
                    assert(false);
                }
            },
        }
        i = i + 1;
    }
    proof {
        assert forall|a: int, b: int|
            0 <= a < r@.len() && 0 <= b < r@.len() && a != b implies r@[a] != r@[b] by {
            if a < b {
                assert(r@[a].0 != r@[b].0);
            } else {
                assert(r@[b].0 != r@[a].0);
            }
        }
        assert(r@.no_duplicates());
    }
    r
}

} // verus!
