use noise::{Clamp, Curve, Fbm, MultiFractal, NoiseFn, OpenSimplex};

use voxels::cache::FutureTaskCache;
use voxels::coord::{Vec2i, Vec2u, Vec3i, Vec3u};
use voxels::generation::chunk::{ChunkGenerator, TerrainStrategy};
use voxels::generation::heightmap::sample_positions;
use voxels::generation::terrain::flat::FlatTerrainGenerator;
use voxels::storage::chunk::{CHUNK_SIZE, PADDED_CHUNK_AREA, PADDED_CHUNK_SIZE};
use voxels::storage::heightmap::Heightmap;
use voxels::storage::voxel::Voxel;

fn flat_generator(height: i32) -> ChunkGenerator<u32> {
    ChunkGenerator {
        heightmap_cache: FutureTaskCache::new(),
        terrain_generator: TerrainStrategy::Flat(FlatTerrainGenerator { height }),
    }
}

/// The shipped layered-noise height sampler, as the renderer hosts it.
fn sample_height(x: f64, z: f64) -> i32 {
    let simplex = Fbm::<OpenSimplex>::new(0)
        .set_octaves(4)
        .set_frequency(0.005)
        .set_persistence(0.5)
        .set_lacunarity(2.0);
    let curve = Curve::new(simplex)
        .add_control_point(-1.0, 0.0)
        .add_control_point(-0.8, 0.0)
        .add_control_point(-0.75, -0.25)
        .add_control_point(-0.7, 0.0)
        .add_control_point(0.25, 0.0)
        .add_control_point(0.5, 0.75)
        .add_control_point(1.0, 1.0);
    let clamped = Clamp::new(curve).set_bounds(-1.0, 1.0);
    clamped.get([x, z]).mul_add(100.0, 0.0) as i32
}

fn synthesize(origin: Vec2i) -> Heightmap {
    let positions = sample_positions(origin);
    let samples: Vec<i32> = positions
        .iter()
        .map(|&(x, z)| sample_height(x as f64, z as f64))
        .collect();
    Heightmap::from_samples(samples)
}

#[test]
fn sample_positions_scale_by_the_chunk_edge() {
    let positions = sample_positions(Vec2i::new(2, -1));
    assert_eq!(positions.len(), PADDED_CHUNK_AREA as usize);
    assert_eq!(positions[0], (2 * CHUNK_SIZE as i64, -(CHUNK_SIZE as i64)));
    assert_eq!(
        positions[1],
        (2 * CHUNK_SIZE as i64 + 1, -(CHUNK_SIZE as i64))
    );
    let last = positions[positions.len() - 1];
    assert_eq!(last.0, 2 * CHUNK_SIZE as i64 + PADDED_CHUNK_SIZE as i64 - 1);
    assert_eq!(last.1, -(CHUNK_SIZE as i64) + PADDED_CHUNK_SIZE as i64 - 1);
}

#[test]
fn synthesis_is_deterministic() {
    let origin = Vec2i::new(3, -7);
    let first = synthesize(origin);
    let second = synthesize(origin);
    for y in 0..PADDED_CHUNK_SIZE {
        for x in 0..PADDED_CHUNK_SIZE {
            assert_eq!(
                first.get(Vec2u::new(x, y)),
                second.get(Vec2u::new(x, y)),
                "height differs at ({}, {})",
                x,
                y
            );
        }
    }
}

#[test]
fn terrain_fills_the_clamped_span() {
    // A constant height of 100 and a chunk one edge up: the filled span is
    // clamp(100 - 64, 0, 66) == 36 in every column.
    let generator = flat_generator(100);
    let heightmap = match &generator.terrain_generator {
        TerrainStrategy::Flat(flat) => flat.generate_heightmap(Vec2i::new(0, 0)),
        _ => unreachable!(),
    };
    let chunk = generator.generate_chunk(Vec3i::new(0, 1, 0), &heightmap);
    for &x in &[0u32, 1, 33, 65] {
        for &z in &[0u32, 17, 65] {
            for y in 0..PADDED_CHUNK_SIZE {
                let voxel = chunk.voxels.voxel_at(Vec3u::new(x, y, z));
                if y < 36 {
                    assert_eq!(voxel, Voxel(3), "({}, {}, {}) should be solid", x, y, z);
                } else {
                    assert_eq!(voxel, Voxel(0), "({}, {}, {}) should be empty", x, y, z);
                }
            }
        }
    }
}

#[test]
fn terrain_clamps_to_empty_and_full() {
    let below = flat_generator(-5);
    let heightmap = match &below.terrain_generator {
        TerrainStrategy::Flat(flat) => flat.generate_heightmap(Vec2i::new(0, 0)),
        _ => unreachable!(),
    };
    let empty = below.generate_chunk(Vec3i::new(0, 0, 0), &heightmap);
    assert_eq!(empty.voxels.voxel_at(Vec3u::new(5, 0, 5)), Voxel(0));

    let tall = flat_generator(1000);
    let heightmap = match &tall.terrain_generator {
        TerrainStrategy::Flat(flat) => flat.generate_heightmap(Vec2i::new(0, 0)),
        _ => unreachable!(),
    };
    let full = tall.generate_chunk(Vec3i::new(0, 2, 0), &heightmap);
    assert_eq!(
        full.voxels.voxel_at(Vec3u::new(5, PADDED_CHUNK_SIZE - 1, 5)),
        Voxel(3)
    );
}

#[test]
fn heightmap_cells_read_back() {
    let mut heightmap = Heightmap::new();
    assert_eq!(heightmap.get(Vec2u::new(65, 65)), 0);
    *heightmap.get_mut(Vec2u::new(2, 5)) = -44;
    assert_eq!(heightmap.get(Vec2u::new(2, 5)), -44);
    let cells = heightmap.iter();
    assert_eq!(cells.len(), PADDED_CHUNK_AREA as usize);
    let (position, height) = cells[2 + 66 * 5];
    assert_eq!(position, Vec2u::new(2, 5));
    assert_eq!(height, -44);
}
