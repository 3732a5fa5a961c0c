use vstd::prelude::*;

verus! {

/// A broad terrain class. Only two classes are wired up; the rest of the
/// catalogue is future work.
#[derive(Clone, Copy, Debug, PartialEq, Eq, Hash, Structural)]
pub enum Biome {
    TropicalRainforest,
    Tundra,
}

/// A source of per-region biome decisions, for generators that vary terrain
/// by climate. No generator implements it yet.
pub trait BiomeGenerator {
    fn get_biome(&self) -> Biome;
}

} // verus!
