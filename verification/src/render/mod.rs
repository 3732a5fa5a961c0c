pub mod mesh;

use vstd::prelude::*;

use crate::coord::{Vec2u, Vec3u};

verus! {

/// Limits and radii that drive loading, dropping and meshing.
pub struct RenderSettings {
    /// The radius within which chunks are loaded.
    pub view_radius: Vec3u,
    /// The buffer between the loading radius and drop radius.
    pub drop_padding: u32,
    /// The maximum number of concurrent meshing tasks.
    pub max_mesh_tasks: usize,
    /// The radius within which heightmaps are loaded.
    pub far_view_radius: Vec2u,
}

impl Default for RenderSettings {
    fn default() -> (r: Self)
        ensures
            r.view_radius == (Vec3u { x: 16, y: 4, z: 16 }),
            r.drop_padding == 2,
            r.max_mesh_tasks == 32,
            r.far_view_radius == (Vec2u { x: 20, y: 20 }),
    {
        RenderSettings {
            view_radius: Vec3u { x: 16, y: 4, z: 16 },
            drop_padding: 2,
            max_mesh_tasks: 32,
            far_view_radius: Vec2u { x: 20, y: 20 },
        }
    }
}

} // verus!
