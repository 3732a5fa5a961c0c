use vstd::prelude::*;

verus! {

/// A single cubic unit of volumetric space, holding a material identifier.
#[derive(Clone, Copy, Debug, PartialEq, Eq, Structural)]
pub struct Voxel(pub u16);

/// How a voxel takes part in face visibility.
#[derive(Clone, Copy, Debug, PartialEq, Eq, Structural)]
pub enum VoxelVisibility {
    Empty,
    Translucent,
    Opaque,
}

/// A flat display color, one byte per channel.
#[derive(Clone, Copy, Debug, PartialEq, Eq, Structural)]
pub struct Color {
    pub r: u8,
    pub g: u8,
    pub b: u8,
    pub a: u8,
}

impl Voxel {
    pub open spec fn visibility_spec(self) -> VoxelVisibility {
        if self.0 == 0 {
            VoxelVisibility::Empty
        } else if self.0 == 1 {
            VoxelVisibility::Translucent
        } else {
            VoxelVisibility::Opaque
        }
    }

    pub fn get_visibility(&self) -> (r: VoxelVisibility)
        ensures
            r == self.visibility_spec(),
    {
        if self.0 == 0 {
            VoxelVisibility::Empty
        } else if self.0 == 1 {
            VoxelVisibility::Translucent
        } else {
            VoxelVisibility::Opaque
        }
    }

    /// The flat color a merged face of this material displays.
    pub open spec fn color_spec(self) -> Color {
        if self.0 == 1 {
            Color { r: 64, g: 224, b: 208, a: 255 }
        } else if self.0 == 2 {
            Color { r: 64, g: 64, b: 64, a: 255 }
        } else if self.0 == 3 {
            Color { r: 0, g: 128, b: 0, a: 255 }
        } else {
            Color { r: 255, g: 255, b: 255, a: 255 }
        }
    }

    pub fn get_color(&self) -> (r: Color)
        ensures
            r == self.color_spec(),
    {
        if self.0 == 1 {
            Color { r: 64, g: 224, b: 208, a: 255 }
        } else if self.0 == 2 {
            Color { r: 64, g: 64, b: 64, a: 255 }
        } else if self.0 == 3 {
            Color { r: 0, g: 128, b: 0, a: 255 }
        } else {
            Color { r: 255, g: 255, b: 255, a: 255 }
        }
    }

    /// The value faces merge by: the material itself.
    pub fn merge_value(&self) -> (r: Voxel)
        ensures
            r == *self,
    {
        *self
    }

    /// The value a face merges by when seen from a neighbouring voxel.
    pub fn merge_value_facing_neighbour(&self) -> (r: Voxel)
        ensures
            r == *self,
    {
        *self
    }
}

impl Default for Voxel {
    /// The empty voxel.
    fn default() -> (r: Self)
        ensures
            r == (Voxel(0u16)),
    {
        Voxel(0)
    }
}

} // verus!
