use vstd::prelude::*;

use crate::coord::{Vec2i, Vec2u, Vec3i, Vec3u};

verus! {

/// Extends a horizontal cell position with a vertical component.
pub trait UVec2Ext {
    fn extend_y(self, y: u32) -> Vec3u;
}

impl UVec2Ext for Vec2u {
    fn extend_y(self, y: u32) -> (r: Vec3u)
        ensures
            r == (Vec3u { x: self.x, y, z: self.y }),
    {
        Vec3u { x: self.x, y, z: self.y }
    }
}

/// Squared Euclidean length, as an exact integer.
pub trait LengthSquared: Sized {
    spec fn length_squared_spec(self) -> int;

    fn length_squared(self) -> (r: u128)
        ensures
            r as int == self.length_squared_spec(),
;
}

proof fn lemma_square_bounds(a: int)
    requires
        -0x8000_0000 <= a <= 0x8000_0000,
    ensures
        0 <= a * a <= 0x4000_0000_0000_0000,
{
    assert(0 <= a * a <= 0x4000_0000_0000_0000) by (nonlinear_arith)
        requires
            -0x8000_0000 <= a <= 0x8000_0000,
    ;
}

impl LengthSquared for Vec2i {
    open spec fn length_squared_spec(self) -> int {
        self.x * self.x + self.y * self.y
    }

    fn length_squared(self) -> (r: u128)
        ensures
            r as int == self.length_squared_spec(),
    {
        proof {
            lemma_square_bounds(self.x as int);
            lemma_square_bounds(self.y as int);
        }
        let x = self.x as i128;
        let y = self.y as i128;
        (x * x + y * y) as u128
    }
}

impl LengthSquared for Vec3i {
    open spec fn length_squared_spec(self) -> int {
        self.x * self.x + self.y * self.y + self.z * self.z
    }

    fn length_squared(self) -> (r: u128)
        ensures
            r as int == self.length_squared_spec(),
    {
        proof {
            lemma_square_bounds(self.x as int);
            lemma_square_bounds(self.y as int);
            lemma_square_bounds(self.z as int);
        }
        let x = self.x as i128;
        let y = self.y as i128;
        let z = self.z as i128;
        (x * x + y * y + z * z) as u128
    }
}

proof fn lemma_diff_square_bounds(a: int, b: int)
    requires
        -0x8000_0000 <= a <= 0x8000_0000,
        -0x8000_0000 <= b <= 0x8000_0000,
    ensures
        0 <= (a - b) * (a - b) <= 0x1_0000_0000_0000_0000,
{
    assert(0 <= (a - b) * (a - b) <= 0x1_0000_0000_0000_0000) by (nonlinear_arith)
        requires
            -0x8000_0000 <= a <= 0x8000_0000,
            -0x8000_0000 <= b <= 0x8000_0000,
    ;
}

/// Squared Euclidean distance between two points, as an exact integer.
pub trait DistanceSquared: LengthSquared {
    spec fn distance_squared_spec(self, rhs: Self) -> int;

    fn distance_squared(self, rhs: Self) -> (r: u128)
        ensures
            r as int == self.distance_squared_spec(rhs),
;
}

impl DistanceSquared for Vec2i {
    open spec fn distance_squared_spec(self, rhs: Self) -> int {
        (self.x - rhs.x) * (self.x - rhs.x) + (self.y - rhs.y) * (self.y - rhs.y)
    }

    fn distance_squared(self, rhs: Self) -> (r: u128)
        ensures
            r as int == self.distance_squared_spec(rhs),
    {
        proof {
            lemma_diff_square_bounds(self.x as int, rhs.x as int);
            lemma_diff_square_bounds(self.y as int, rhs.y as int);
        }
        let dx = self.x as i128 - rhs.x as i128;
        let dy = self.y as i128 - rhs.y as i128;
        (dx * dx + dy * dy) as u128
    }
}

impl DistanceSquared for Vec3i {
    open spec fn distance_squared_spec(self, rhs: Self) -> int {
        (self.x - rhs.x) * (self.x - rhs.x) + (self.y - rhs.y) * (self.y - rhs.y) + (self.z
            - rhs.z) * (self.z - rhs.z)
    }

    fn distance_squared(self, rhs: Self) -> (r: u128)
        ensures
            r as int == self.distance_squared_spec(rhs),
    {
        proof {
            lemma_diff_square_bounds(self.x as int, rhs.x as int);
            lemma_diff_square_bounds(self.y as int, rhs.y as int);
            lemma_diff_square_bounds(self.z as int, rhs.z as int);
        }
        let dx = self.x as i128 - rhs.x as i128;
        let dy = self.y as i128 - rhs.y as i128;
        let dz = self.z as i128 - rhs.z as i128;
        (dx * dx + dy * dy + dz * dz) as u128
    }
}

/// The order key a priority queue sorts by: squared distance to the center
/// first, then the coordinate itself as a deterministic tie-break.
#[derive(Clone, Copy, Debug, PartialEq, Eq, Structural)]
pub struct OrderKey {
    pub distance: u128,
    pub tie_a: i32,
    pub tie_b: i32,
    pub tie_c: i32,
}

/// Strict lexicographic order on (distance, tie_a, tie_b, tie_c).
pub open spec fn order_key_lt(a: OrderKey, b: OrderKey) -> bool {
    ||| a.distance < b.distance
    ||| (a.distance == b.distance && a.tie_a < b.tie_a)
    ||| (a.distance == b.distance && a.tie_a == b.tie_a && a.tie_b < b.tie_b)
    ||| (a.distance == b.distance && a.tie_a == b.tie_a && a.tie_b == b.tie_b && a.tie_c < b.tie_c)
}

pub open spec fn order_key_le(a: OrderKey, b: OrderKey) -> bool {
    order_key_lt(a, b) || a == b
}

impl OrderKey {
    pub fn lt(self, other: Self) -> (r: bool)
        ensures
            r == order_key_lt(self, other),
    {
        if self.distance != other.distance {
            self.distance < other.distance
        } else if self.tie_a != other.tie_a {
            self.tie_a < other.tie_a
        } else if self.tie_b != other.tie_b {
            self.tie_b < other.tie_b
        } else {
            self.tie_c < other.tie_c
        }
    }
}

/// The lexicographic key order is total: any two keys are comparable.
pub proof fn lemma_order_key_total(a: OrderKey, b: OrderKey)
    ensures
        order_key_le(a, b) || order_key_le(b, a),
        order_key_le(a, b) && order_key_le(b, a) ==> a == b,
{
}

/// The lexicographic key order is transitive.
pub proof fn lemma_order_key_transitive(a: OrderKey, b: OrderKey, c: OrderKey)
    ensures
        order_key_lt(a, b) && order_key_lt(b, c) ==> order_key_lt(a, c),
        order_key_le(a, b) && order_key_le(b, c) ==> order_key_le(a, c),
{
}

/// Exact structural equality, decidable in executable code.
pub trait ValueEq: Sized + Copy {
    fn value_eq(self, other: Self) -> (r: bool)
        ensures
            r == (self == other),
;
}

impl ValueEq for Vec2i {
    fn value_eq(self, other: Self) -> (r: bool)
        ensures
            r == (self == other),
    {
        self.x == other.x && self.y == other.y
    }
}

impl ValueEq for Vec3i {
    fn value_eq(self, other: Self) -> (r: bool)
        ensures
            r == (self == other),
    {
        self.x == other.x && self.y == other.y && self.z == other.z
    }
}

/// Derives the order key of a point relative to a movable center.
pub trait DistanceOrd: DistanceSquared + ValueEq {
    spec fn distance_ord_spec(self, center: Self) -> OrderKey;

    /// The key's distance component is exactly the squared distance to the center.
    proof fn lemma_distance_ord_distance(self, center: Self)
        ensures
            self.distance_ord_spec(center).distance as int == self.distance_squared_spec(center),
;

    /// With a fixed center, distinct points always get distinct keys.
    proof fn lemma_distance_ord_injective(self, other: Self, center: Self)
        ensures
            self.distance_ord_spec(center) == other.distance_ord_spec(center) ==> self == other,
;

    fn distance_ord(self, center: Self) -> (r: OrderKey)
        ensures
            r == self.distance_ord_spec(center),
;
}

impl DistanceOrd for Vec2i {
    open spec fn distance_ord_spec(self, center: Self) -> OrderKey {
        OrderKey {
            distance: self.distance_squared_spec(center) as u128,
            tie_a: self.x,
            tie_b: self.y,
            tie_c: 0,
        }
    }

    proof fn lemma_distance_ord_distance(self, center: Self)
        ensures
            self.distance_ord_spec(center).distance as int == self.distance_squared_spec(center),
    {
        lemma_diff_square_bounds(self.x as int, center.x as int);
        lemma_diff_square_bounds(self.y as int, center.y as int);
    }

    proof fn lemma_distance_ord_injective(self, other: Self, center: Self)
        ensures
            self.distance_ord_spec(center) == other.distance_ord_spec(center) ==> self == other,
    {
    }

    fn distance_ord(self, center: Self) -> (r: OrderKey)
        ensures
            r == self.distance_ord_spec(center),
    {
        proof {
            lemma_diff_square_bounds(self.x as int, center.x as int);
            lemma_diff_square_bounds(self.y as int, center.y as int);
        }
        OrderKey { distance: self.distance_squared(center), tie_a: self.x, tie_b: self.y, tie_c: 0 }
    }
}

impl DistanceOrd for Vec3i {
    open spec fn distance_ord_spec(self, center: Self) -> OrderKey {
        OrderKey {
            distance: self.distance_squared_spec(center) as u128,
            tie_a: self.x,
            tie_b: self.y,
            tie_c: self.z,
        }
    }

    proof fn lemma_distance_ord_distance(self, center: Self)
        ensures
            self.distance_ord_spec(center).distance as int == self.distance_squared_spec(center),
    {
        lemma_diff_square_bounds(self.x as int, center.x as int);
        lemma_diff_square_bounds(self.y as int, center.y as int);
        lemma_diff_square_bounds(self.z as int, center.z as int);
    }

    proof fn lemma_distance_ord_injective(self, other: Self, center: Self)
        ensures
            self.distance_ord_spec(center) == other.distance_ord_spec(center) ==> self == other,
    {
    }

    fn distance_ord(self, center: Self) -> (r: OrderKey)
        ensures
            r == self.distance_ord_spec(center),
    {
        proof {
            lemma_diff_square_bounds(self.x as int, center.x as int);
            lemma_diff_square_bounds(self.y as int, center.y as int);
            lemma_diff_square_bounds(self.z as int, center.z as int);
        }
        OrderKey {
            distance: self.distance_squared(center),
            tie_a: self.x,
            tie_b: self.y,
            tie_c: self.z,
        }
    }
}

} // verus!
