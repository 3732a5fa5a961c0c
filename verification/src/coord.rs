use vstd::prelude::*;

verus! {

/// A signed integer 2-vector: a horizontal (heightmap) coordinate in chunk space.
#[derive(Clone, Copy, Debug, PartialEq, Eq, Structural)]
pub struct Vec2i {
    pub x: i32,
    pub y: i32,
}

/// A signed integer 3-vector: a chunk coordinate in chunk space.
#[derive(Clone, Copy, Debug, PartialEq, Eq, Structural)]
pub struct Vec3i {
    pub x: i32,
    pub y: i32,
    pub z: i32,
}

/// An unsigned integer 2-vector: a local cell position inside a padded footprint.
#[derive(Clone, Copy, Debug, PartialEq, Eq, Structural)]
pub struct Vec2u {
    pub x: u32,
    pub y: u32,
}

/// An unsigned integer 3-vector: a local voxel position inside a padded chunk.
#[derive(Clone, Copy, Debug, PartialEq, Eq, Structural)]
pub struct Vec3u {
    pub x: u32,
    pub y: u32,
    pub z: u32,
}

impl Default for Vec2i {
    fn default() -> (r: Self)
        ensures
            r == (Vec2i { x: 0, y: 0 }),
    {
        Vec2i { x: 0, y: 0 }
    }
}

impl Default for Vec3i {
    fn default() -> (r: Self)
        ensures
            r == (Vec3i { x: 0, y: 0, z: 0 }),
    {
        Vec3i { x: 0, y: 0, z: 0 }
    }
}

impl Vec2i {
    pub fn new(x: i32, y: i32) -> (r: Self)
        ensures
            r == (Vec2i { x, y }),
    {
        Vec2i { x, y }
    }
}

impl Vec3i {
    pub fn new(x: i32, y: i32, z: i32) -> (r: Self)
        ensures
            r == (Vec3i { x, y, z }),
    {
        Vec3i { x, y, z }
    }

    /// The horizontal projection of a chunk coordinate, shared by a vertical column.
    pub fn xz(self) -> (r: Vec2i)
        ensures
            r == (Vec2i { x: self.x, y: self.z }),
    {
        Vec2i { x: self.x, y: self.z }
    }
}

impl Vec2u {
    pub fn new(x: u32, y: u32) -> (r: Self)
        ensures
            r == (Vec2u { x, y }),
    {
        Vec2u { x, y }
    }
}

impl Vec3u {
    pub fn new(x: u32, y: u32, z: u32) -> (r: Self)
        ensures
            r == (Vec3u { x, y, z }),
    {
        Vec3u { x, y, z }
    }
}

} // verus!
