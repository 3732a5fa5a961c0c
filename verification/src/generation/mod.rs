pub mod biomes;
pub mod chunk;
pub mod heightmap;
pub mod terrain;

use vstd::prelude::*;

verus! {

/// Limits on how much generation work may run at once.
pub struct GenerationSettings {
    pub max_generation_tasks: usize,
}

impl Default for GenerationSettings {
    fn default() -> (r: Self)
        ensures
            r.max_generation_tasks == 32,
    {
        GenerationSettings { max_generation_tasks: 32 }
    }
}

} // verus!
