use vstd::prelude::*;

use crate::coord::{Vec2i, Vec2u, Vec3i, Vec3u};
use crate::world::chunk::ChunkEntityMap;
use crate::world::heightmap::HeightmapEntityMap;

verus! {

/// The chunk box the viewer wants loaded around a center chunk.
pub open spec fn in_view_box(center: Vec3i, radius: Vec3u, p: Vec3i) -> bool {
    &&& center.x - radius.x <= p.x <= center.x + radius.x
    &&& center.y - radius.y <= p.y <= center.y + radius.y
    &&& center.z - radius.z <= p.z <= center.z + radius.z
}

/// The horizontal box the viewer wants far terrain loaded in.
pub open spec fn in_far_view_box(center: Vec2i, radius: Vec2u, p: Vec2i) -> bool {
    &&& center.x - radius.x <= p.x <= center.x + radius.x
    &&& center.y - radius.y <= p.y <= center.y + radius.y
}

/// Every chunk coordinate within the view radius of the center, to be pushed
/// onto the load queue each tick.
pub fn view_volume(center: Vec3i, radius: Vec3u) -> (r: Vec<Vec3i>)
    requires
        i32::MIN <= center.x - radius.x,
        center.x + radius.x <= i32::MAX,
        i32::MIN <= center.y - radius.y,
        center.y + radius.y <= i32::MAX,
        i32::MIN <= center.z - radius.z,
        center.z + radius.z <= i32::MAX,
    ensures
        forall|i: int| 0 <= i < r@.len() ==> in_view_box(center, radius, #[trigger] r@[i]),
        forall|p: Vec3i| in_view_box(center, radius, p) ==> r@.contains(p),
{
    let x_min = center.x as i64 - radius.x as i64;
    let x_max = center.x as i64 + radius.x as i64;
    let y_min = center.y as i64 - radius.y as i64;
    let y_max = center.y as i64 + radius.y as i64;
    let z_min = center.z as i64 - radius.z as i64;
    let z_max = center.z as i64 + radius.z as i64;
    let mut r: Vec<Vec3i> = Vec::new();
    let mut x = x_min;
    while x <= x_max
        invariant
            x_min <= x <= x_max + 1,
            x_min == center.x - radius.x,
            x_max == center.x + radius.x,
            y_min == center.y - radius.y,
            y_max == center.y + radius.y,
            z_min == center.z - radius.z,
            z_max == center.z + radius.z,
            i32::MIN <= x_min && x_max <= i32::MAX,
            i32::MIN <= y_min && y_max <= i32::MAX,
            i32::MIN <= z_min && z_max <= i32::MAX,
            forall|i: int| 0 <= i < r@.len() ==> in_view_box(center, radius, #[trigger] r@[i]),
            forall|p: Vec3i|
                in_view_box(center, radius, p) && p.x < x ==> r@.contains(p),
        decreases x_max + 1 - x,
    {
        let mut y = y_min;
        while y <= y_max
            invariant
                y_min <= y <= y_max + 1,
                x_min <= x <= x_max,
                x_min == center.x - radius.x,
                x_max == center.x + radius.x,
                y_min == center.y - radius.y,
                y_max == center.y + radius.y,
                z_min == center.z - radius.z,
                z_max == center.z + radius.z,
                i32::MIN <= x_min && x_max <= i32::MAX,
                i32::MIN <= y_min && y_max <= i32::MAX,
                i32::MIN <= z_min && z_max <= i32::MAX,
                forall|i: int| 0 <= i < r@.len() ==> in_view_box(center, radius, #[trigger] r@[i]),
                forall|p: Vec3i|
                    in_view_box(center, radius, p) && (p.x < x || (p.x == x && p.y < y))
                        ==> r@.contains(p),
            decreases y_max + 1 - y,
        {
            let mut z = z_min;
            while z <= z_max
                invariant
                    z_min <= z <= z_max + 1,
                    y_min <= y <= y_max,
                    x_min <= x <= x_max,
                    x_min == center.x - radius.x,
                    x_max == center.x + radius.x,
                    y_min == center.y - radius.y,
                    y_max == center.y + radius.y,
                    z_min == center.z - radius.z,
                    z_max == center.z + radius.z,
                    i32::MIN <= x_min && x_max <= i32::MAX,
                    i32::MIN <= y_min && y_max <= i32::MAX,
                    i32::MIN <= z_min && z_max <= i32::MAX,
                    forall|i: int|
                        0 <= i < r@.len() ==> in_view_box(center, radius, #[trigger] r@[i]),
                    forall|p: Vec3i|
                        in_view_box(center, radius, p) && (p.x < x || (p.x == x && p.y < y) || (p.x
                            == x && p.y == y && p.z < z)) ==> r@.contains(p),
                decreases z_max + 1 - z,
            {
                let ghost before = r@;
                r.push(Vec3i { x: x as i32, y: y as i32, z: z as i32 });
                proof {
                    assert forall|p: Vec3i|
                        in_view_box(center, radius, p) && (p.x < x || (p.x == x && p.y < y) || (p.x
                            == x && p.y == y && p.z < z + 1)) implies r@.contains(p) by {
                        if p.x == x && p.y == y && p.z == z {
                            assert(r@[r@.len() - 1] == p);
                        } else {
                            assert(before.contains(p));
                            let i = choose|i: int| 0 <= i < before.len() && before[i] == p;
                            assert(r@[i] == p);
                        }
                    }
                }
                z = z + 1;
            }
            y = y + 1;
        }
        x = x + 1;
    }
    r
}

/// Every horizontal coordinate within the far view radius of the center, to
/// be pushed onto the far-terrain load queue each tick.
pub fn far_view_area(center: Vec2i, radius: Vec2u) -> (r: Vec<Vec2i>)
    requires
        i32::MIN <= center.x - radius.x,
        center.x + radius.x <= i32::MAX,
        i32::MIN <= center.y - radius.y,
        center.y + radius.y <= i32::MAX,
    ensures
        forall|i: int| 0 <= i < r@.len() ==> in_far_view_box(center, radius, #[trigger] r@[i]),
        forall|p: Vec2i| in_far_view_box(center, radius, p) ==> r@.contains(p),
{
    let x_min = center.x as i64 - radius.x as i64;
    let x_max = center.x as i64 + radius.x as i64;
    let y_min = center.y as i64 - radius.y as i64;
    let y_max = center.y as i64 + radius.y as i64;
    let mut r: Vec<Vec2i> = Vec::new();
    let mut x = x_min;
    while x <= x_max
        invariant
            x_min <= x <= x_max + 1,
            x_min == center.x - radius.x,
            x_max == center.x + radius.x,
            y_min == center.y - radius.y,
            y_max == center.y + radius.y,
            i32::MIN <= x_min && x_max <= i32::MAX,
            i32::MIN <= y_min && y_max <= i32::MAX,
            forall|i: int| 0 <= i < r@.len() ==> in_far_view_box(center, radius, #[trigger] r@[i]),
            forall|p: Vec2i| in_far_view_box(center, radius, p) && p.x < x ==> r@.contains(p),
        decreases x_max + 1 - x,
    {
        let mut y = y_min;
        while y <= y_max
            invariant
                y_min <= y <= y_max + 1,
                x_min <= x <= x_max,
                x_min == center.x - radius.x,
                x_max == center.x + radius.x,
                y_min == center.y - radius.y,
                y_max == center.y + radius.y,
                i32::MIN <= x_min && x_max <= i32::MAX,
                i32::MIN <= y_min && y_max <= i32::MAX,
                forall|i: int|
                    0 <= i < r@.len() ==> in_far_view_box(center, radius, #[trigger] r@[i]),
                forall|p: Vec2i|
                    in_far_view_box(center, radius, p) && (p.x < x || (p.x == x && p.y < y))
                        ==> r@.contains(p),
            decreases y_max + 1 - y,
        {
            let ghost before = r@;
            r.push(Vec2i { x: x as i32, y: y as i32 });
            proof {
                assert forall|p: Vec2i|
                    in_far_view_box(center, radius, p) && (p.x < x || (p.x == x && p.y < y + 1))
                        implies r@.contains(p) by {
                    if p.x == x && p.y == y {
                        assert(r@[r@.len() - 1] == p);
                    } else {
                        assert(before.contains(p));
                        let i = choose|i: int| 0 <= i < before.len() && before[i] == p;
                        assert(r@[i] == p);
                    }
                }
            }
            y = y + 1;
        }
        x = x + 1;
    }
    r
}

/// A recorded chunk lies outside the drop distance on some axis.
pub open spec fn chunk_out_of_range(center: Vec3i, radius: Vec3u, padding: u32, p: Vec3i) -> bool {
    ||| abs_diff(center.x as int, p.x as int) > radius.x + padding
    ||| abs_diff(center.y as int, p.y as int) > radius.y + padding
    ||| abs_diff(center.z as int, p.z as int) > radius.z + padding
}

/// A recorded far-terrain coordinate lies outside the drop distance on some
/// axis.
pub open spec fn heightmap_out_of_range(center: Vec2i, radius: Vec2u, padding: u32, p: Vec2i) -> bool {
    ||| abs_diff(center.x as int, p.x as int) > radius.x + padding
    ||| abs_diff(center.y as int, p.y as int) > radius.y + padding
}

pub open spec fn abs_diff(a: int, b: int) -> int {
    if a >= b {
        a - b
    } else {
        b - a
    }
}

/// The recorded chunk coordinates that drifted outside the drop distance and
/// should be handed to the drop queue.
pub fn chunk_drop_candidates(
    entity_map: &ChunkEntityMap,
    center: Vec3i,
    radius: Vec3u,
    padding: u32,
) -> (r: Vec<Vec3i>)
    requires
        entity_map.wf(),
        radius.x + padding <= u32::MAX,
        radius.y + padding <= u32::MAX,
        radius.z + padding <= u32::MAX,
    ensures
        forall|i: int|
            0 <= i < r@.len() ==> entity_map@.dom().contains(#[trigger] r@[i])
                && chunk_out_of_range(center, radius, padding, r@[i]),
        forall|p: Vec3i|
            entity_map@.dom().contains(p) && chunk_out_of_range(center, radius, padding, p)
                ==> r@.contains(p),
{
    let keys = entity_map.keys();
    let mut r: Vec<Vec3i> = Vec::new();
    let mut i: usize = 0;
    while i < keys.len()
        invariant
            entity_map.wf(),
            0 <= i <= keys@.len(),
            radius.x + padding <= u32::MAX,
            radius.y + padding <= u32::MAX,
            radius.z + padding <= u32::MAX,
            forall|j: int| 0 <= j < keys@.len() ==> entity_map@.dom().contains(#[trigger] keys@[j]),
            forall|p: Vec3i| entity_map@.dom().contains(p) ==> keys@.contains(p),
            forall|j: int|
                0 <= j < r@.len() ==> entity_map@.dom().contains(#[trigger] r@[j])
                    && chunk_out_of_range(center, radius, padding, r@[j]),
            forall|j: int|
                0 <= j < i && chunk_out_of_range(center, radius, padding, #[trigger] keys@[j])
                    ==> r@.contains(keys@[j]),
        decreases keys@.len() - i,
    {
        let ghost before = r@;
        let p = keys[i];
        let dx = if center.x as i64 >= p.x as i64 {
            center.x as i64 - p.x as i64
        } else {
            p.x as i64 - center.x as i64
        };
        let dy = if center.y as i64 >= p.y as i64 {
            center.y as i64 - p.y as i64
        } else {
            p.y as i64 - center.y as i64
        };
        let dz = if center.z as i64 >= p.z as i64 {
            center.z as i64 - p.z as i64
        } else {
            p.z as i64 - center.z as i64
        };
        if dx > radius.x as i64 + padding as i64 || dy > radius.y as i64 + padding as i64 || dz
            > radius.z as i64 + padding as i64 {
            r.push(p);
        }
        proof {
            assert forall|j: int|
                0 <= j < i + 1 && chunk_out_of_range(center, radius, padding, #[trigger] keys@[j])
                    implies r@.contains(keys@[j]) by {
                if j < i {
                    assert(before.contains(keys@[j]));
                    let w = choose|w: int| 0 <= w < before.len() && before[w] == keys@[j];
                    assert(r@[w] == keys@[j]);
                } else {
                    assert(r@[r@.len() - 1] == keys@[j]);
                }
            }
        }
        i = i + 1;
    }
    proof {
        assert forall|p: Vec3i|
            entity_map@.dom().contains(p) && chunk_out_of_range(center, radius, padding, p) implies
            r@.contains(p) by {
            assert(keys@.contains(p));
            let j = choose|j: int| 0 <= j < keys@.len() && keys@[j] == p;
            assert(chunk_out_of_range(center, radius, padding, keys@[j]));
            assert(r@.contains(keys@[j]));
        }
    }
    r
}

/// The recorded far-terrain coordinates that drifted outside the drop
/// distance and should be handed to the drop queue.
pub fn heightmap_drop_candidates(
    entity_map: &HeightmapEntityMap,
    center: Vec2i,
    radius: Vec2u,
    padding: u32,
) -> (r: Vec<Vec2i>)
    requires
        entity_map.wf(),
        radius.x + padding <= u32::MAX,
        radius.y + padding <= u32::MAX,
    ensures
        forall|i: int|
            0 <= i < r@.len() ==> entity_map@.dom().contains(#[trigger] r@[i])
                && heightmap_out_of_range(center, radius, padding, r@[i]),
        forall|p: Vec2i|
            entity_map@.dom().contains(p) && heightmap_out_of_range(center, radius, padding, p)
                ==> r@.contains(p),
{
    let keys = entity_map.keys();
    let mut r: Vec<Vec2i> = Vec::new();
    let mut i: usize = 0;
    while i < keys.len()
        invariant
            entity_map.wf(),
            0 <= i <= keys@.len(),
            radius.x + padding <= u32::MAX,
            radius.y + padding <= u32::MAX,
            forall|j: int| 0 <= j < keys@.len() ==> entity_map@.dom().contains(#[trigger] keys@[j]),
            forall|p: Vec2i| entity_map@.dom().contains(p) ==> keys@.contains(p),
            forall|j: int|
                0 <= j < r@.len() ==> entity_map@.dom().contains(#[trigger] r@[j])
                    && heightmap_out_of_range(center, radius, padding, r@[j]),
            forall|j: int|
                0 <= j < i && heightmap_out_of_range(center, radius, padding, #[trigger] keys@[j])
                    ==> r@.contains(keys@[j]),
        decreases keys@.len() - i,
    {
        let ghost before = r@;
        let p = keys[i];
        let dx = if center.x as i64 >= p.x as i64 {
            center.x as i64 - p.x as i64
        } else {
            p.x as i64 - center.x as i64
        };
        let dy = if center.y as i64 >= p.y as i64 {
            center.y as i64 - p.y as i64
        } else {
            p.y as i64 - center.y as i64
        };
        if dx > radius.x as i64 + padding as i64 || dy > radius.y as i64 + padding as i64 {
            r.push(p);
        }
        proof {
            assert forall|j: int|
                0 <= j < i + 1 && heightmap_out_of_range(
                    center,
                    radius,
                    padding,
                    #[trigger] keys@[j],
                ) implies r@.contains(keys@[j]) by {
                if j < i {
                    assert(before.contains(keys@[j]));
                    let w = choose|w: int| 0 <= w < before.len() && before[w] == keys@[j];
                    assert(r@[w] == keys@[j]);
                } else {
                    assert(r@[r@.len() - 1] == keys@[j]);
                }
            }
        }
        i = i + 1;
    }
    proof {
        assert forall|p: Vec2i|
            entity_map@.dom().contains(p) && heightmap_out_of_range(center, radius, padding, p)
                implies r@.contains(p) by {
            assert(keys@.contains(p));
            let j = choose|j: int| 0 <= j < keys@.len() && keys@[j] == p;
            assert(heightmap_out_of_range(center, radius, padding, keys@[j]));
            assert(r@.contains(keys@[j]));
        }
    }
    r
}

} // verus!
