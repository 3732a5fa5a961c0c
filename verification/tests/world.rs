use voxels::coord::{Vec2i, Vec2u, Vec3i, Vec3u};
use voxels::generation::chunk::{plan_generation_dispatch, ChunkGenerationQueue};
use voxels::player::{chunk_drop_candidates, far_view_area, view_volume};
use voxels::queue::Queue;
use voxels::render::mesh::chunk::{plan_mesh_dispatch, MeshChunkQueue};
use voxels::storage::chunk::VoxelChunk;
use voxels::storage::voxel_world::VoxelWorld;
use voxels::world::chunk::{admit_chunk, drop_chunk, ChunkEntityMap};
use voxels::world::heightmap::HeightmapMarker;

fn v3(x: i32, y: i32, z: i32) -> Vec3i {
    Vec3i::new(x, y, z)
}

#[test]
fn dispatch_respects_the_task_budget() {
    let mut queue = ChunkGenerationQueue::new(v3(0, 0, 0));
    let mut entity_map = ChunkEntityMap::default();
    for i in 0..10 {
        queue.push(v3(i, 0, 0));
        entity_map.insert(v3(i, 0, 0), 100 + i as u64);
    }
    // limit 8 with 5 already running leaves room for at most 3 new tasks.
    let planned = plan_generation_dispatch(&mut queue, &entity_map, 5, 8);
    assert_eq!(planned.len(), 3);
    assert_eq!(queue.len(), 7);
    // The nearest coordinates go first, each with its recorded slot.
    assert_eq!(planned[0], (v3(0, 0, 0), 100));
    assert_eq!(planned[1], (v3(1, 0, 0), 101));
    assert_eq!(planned[2], (v3(2, 0, 0), 102));
}

#[test]
fn dispatch_with_no_budget_spawns_nothing() {
    let mut queue = ChunkGenerationQueue::new(v3(0, 0, 0));
    queue.push(v3(1, 1, 1));
    let entity_map = ChunkEntityMap::default();
    let planned = plan_generation_dispatch(&mut queue, &entity_map, 8, 8);
    assert!(planned.is_empty());
    assert_eq!(queue.len(), 1);
    let planned = plan_generation_dispatch(&mut queue, &entity_map, 12, 8);
    assert!(planned.is_empty());
}

#[test]
fn dispatch_discards_slotless_coordinates() {
    let mut queue = ChunkGenerationQueue::new(v3(0, 0, 0));
    queue.push(v3(1, 0, 0));
    queue.push(v3(2, 0, 0));
    let mut entity_map = ChunkEntityMap::default();
    entity_map.insert(v3(2, 0, 0), 9);
    let planned = plan_generation_dispatch(&mut queue, &entity_map, 0, 8);
    assert_eq!(planned, vec![(v3(2, 0, 0), 9)]);
    assert!(queue.is_empty());
}

#[test]
fn mesh_dispatch_needs_terrain_too() {
    let mut queue = MeshChunkQueue::new(v3(0, 0, 0));
    queue.push(v3(1, 0, 0));
    queue.push(v3(2, 0, 0));
    let mut entity_map = ChunkEntityMap::default();
    entity_map.insert(v3(1, 0, 0), 4);
    entity_map.insert(v3(2, 0, 0), 5);
    let mut world = VoxelWorld::default();
    world.insert(v3(2, 0, 0), VoxelChunk::default());
    let planned = plan_mesh_dispatch(&mut queue, &entity_map, &world, 0, 8);
    assert_eq!(planned, vec![(v3(2, 0, 0), 5)]);
}

#[test]
fn admit_routes_between_generation_and_meshing() {
    let mut entity_map = ChunkEntityMap::default();
    let mut world = VoxelWorld::default();
    let mut generation = ChunkGenerationQueue::new(v3(0, 0, 0));
    let mut meshing = MeshChunkQueue::new(v3(0, 0, 0));

    assert!(admit_chunk(
        &mut entity_map,
        &world,
        &mut generation,
        &mut meshing,
        v3(1, 2, 3),
        77
    ));
    assert_eq!(generation.len(), 1);
    assert_eq!(meshing.len(), 0);
    // Admitting again is a no-op.
    assert!(!admit_chunk(
        &mut entity_map,
        &world,
        &mut generation,
        &mut meshing,
        v3(1, 2, 3),
        78
    ));
    assert_eq!(generation.len(), 1);

    // A chunk whose terrain already exists goes straight to meshing.
    world.insert(v3(4, 4, 4), VoxelChunk::default());
    assert!(admit_chunk(
        &mut entity_map,
        &world,
        &mut generation,
        &mut meshing,
        v3(4, 4, 4),
        79
    ));
    assert_eq!(meshing.len(), 1);
}

#[test]
fn drop_clears_every_trace() {
    let mut entity_map = ChunkEntityMap::default();
    let mut world = VoxelWorld::default();
    let mut generation = ChunkGenerationQueue::new(v3(0, 0, 0));
    let mut meshing = MeshChunkQueue::new(v3(0, 0, 0));
    admit_chunk(
        &mut entity_map,
        &world,
        &mut generation,
        &mut meshing,
        v3(9, 9, 9),
        11,
    );
    world.insert(v3(9, 9, 9), VoxelChunk::default());
    meshing.push(v3(9, 9, 9));

    let entity = drop_chunk(
        &mut entity_map,
        &mut world,
        &mut generation,
        &mut meshing,
        v3(9, 9, 9),
    );
    assert_eq!(entity, Some(11));
    assert!(generation.is_empty());
    assert!(meshing.is_empty());
    assert!(!world.contains(&v3(9, 9, 9)));
    assert!(!entity_map.contains(&v3(9, 9, 9)));
    assert!(world.is_empty());

    let entity = drop_chunk(
        &mut entity_map,
        &mut world,
        &mut generation,
        &mut meshing,
        v3(9, 9, 9),
    );
    assert_eq!(entity, None);
}

#[test]
fn world_stores_and_shares_chunks() {
    let mut world = VoxelWorld::default();
    assert!(world.is_empty());
    let mut chunk = VoxelChunk::default();
    *chunk.voxels.voxel_at_mut(Vec3u::new(1, 2, 3)) = voxels::storage::voxel::Voxel(2);
    world.insert(v3(0, 0, 0), chunk);
    assert_eq!(world.len(), 1);
    let shared = world.get(&v3(0, 0, 0)).expect("chunk should be stored");
    assert_eq!(
        shared.voxels.voxel_at(Vec3u::new(1, 2, 3)),
        voxels::storage::voxel::Voxel(2)
    );
    assert!(world.get(&v3(5, 5, 5)).is_none());
    world.remove(&v3(0, 0, 0));
    assert!(world.is_empty());
}

#[test]
fn view_volume_enumerates_the_whole_box() {
    let positions = view_volume(v3(10, 0, -10), Vec3u::new(2, 1, 1));
    assert_eq!(positions.len(), 5 * 3 * 3);
    assert!(positions.contains(&v3(8, -1, -11)));
    assert!(positions.contains(&v3(12, 1, -9)));
    assert!(positions.contains(&v3(10, 0, -10)));
    assert!(!positions.contains(&v3(13, 0, -10)));

    let area = far_view_area(Vec2i::new(0, 0), Vec2u::new(1, 1));
    assert_eq!(area.len(), 9);
    assert!(area.contains(&Vec2i::new(-1, 1)));
}

#[test]
fn drop_candidates_flags_only_out_of_range_chunks() {
    let mut entity_map = ChunkEntityMap::default();
    entity_map.insert(v3(0, 0, 0), 1);
    entity_map.insert(v3(7, 0, 0), 2);
    entity_map.insert(v3(0, 8, 0), 3);
    let candidates = chunk_drop_candidates(&entity_map, v3(0, 0, 0), Vec3u::new(4, 4, 4), 2);
    assert_eq!(candidates, vec![v3(7, 0, 0), v3(0, 8, 0)]);
}

#[test]
fn heightmap_marker_blocks_overlapping_chunks() {
    let mut marker = HeightmapMarker::new(Vec2i::new(0, 0), 10, 100);
    assert!(!marker.should_block());
    // A chunk spanning [64, 128) overlaps the span [10, 100).
    marker.insert_blocking(v3(0, 1, 0));
    assert!(marker.should_block());
    marker.remove_blocking(v3(0, 1, 0));
    assert!(!marker.should_block());
    // A chunk far above the span does not block.
    marker.insert_blocking(v3(0, 5, 0));
    assert!(!marker.should_block());
}
