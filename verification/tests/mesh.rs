use voxels::coord::{Vec2u, Vec3u};
use voxels::render::mesh::chunk::{
    face_normal, generate_chunk_mesh, new_mask_buffer, quad_mesh_indices, quad_mesh_positions,
};
use voxels::render::mesh::heightmap::{heightmap_grid_indices, heightmap_mesh_grid};
use voxels::storage::array_buffer::{Extent3, VoxelBuffer};
use voxels::storage::heightmap::Heightmap;
use voxels::storage::voxel::{Color, Voxel, VoxelVisibility};

#[test]
fn uniform_interior_meshes_to_six_quads() {
    let mut buffer = VoxelBuffer::new();
    buffer.fill_extent(
        Extent3::new(Vec3u::new(1, 1, 1), Vec3u::new(64, 64, 64)),
        Voxel(3),
    );
    let mut mask = new_mask_buffer();
    let mesh = generate_chunk_mesh(&buffer, &mut mask);
    assert_eq!(mesh.groups.len(), 6);

    let expected_minimums = [
        Vec3u::new(1, 1, 1),
        Vec3u::new(64, 1, 1),
        Vec3u::new(1, 1, 1),
        Vec3u::new(1, 64, 1),
        Vec3u::new(1, 1, 1),
        Vec3u::new(1, 1, 64),
    ];
    let mut color: Option<Color> = None;
    for (d, group) in mesh.groups.iter().enumerate() {
        assert_eq!(group.len(), 1, "direction {} should merge to one quad", d);
        let quad = group[0];
        assert_eq!(quad.width, 64);
        assert_eq!(quad.height, 64);
        assert_eq!(quad.voxel, Voxel(3));
        assert_eq!(quad.minimum, expected_minimums[d]);
        let quad_color = quad.voxel.get_color();
        if let Some(existing) = color {
            assert_eq!(existing, quad_color);
        }
        color = Some(quad_color);
    }
}

#[test]
fn empty_buffer_meshes_to_nothing() {
    let buffer = VoxelBuffer::new();
    let mut mask = new_mask_buffer();
    let mesh = generate_chunk_mesh(&buffer, &mut mask);
    for group in &mesh.groups {
        assert!(group.is_empty());
    }
}

#[test]
fn a_single_voxel_meshes_to_six_unit_quads() {
    let mut buffer = VoxelBuffer::new();
    buffer.fill_extent(
        Extent3::new(Vec3u::new(30, 31, 32), Vec3u::new(1, 1, 1)),
        Voxel(2),
    );
    let mut mask = new_mask_buffer();
    let mesh = generate_chunk_mesh(&buffer, &mut mask);
    for group in &mesh.groups {
        assert_eq!(group.len(), 1);
        let quad = group[0];
        assert_eq!(quad.width, 1);
        assert_eq!(quad.height, 1);
        assert_eq!(quad.voxel, Voxel(2));
        assert_eq!(quad.minimum, Vec3u::new(30, 31, 32));
    }
}

#[test]
fn quad_geometry_emits_four_corners_and_six_indices() {
    let mut buffer = VoxelBuffer::new();
    buffer.fill_extent(
        Extent3::new(Vec3u::new(1, 1, 1), Vec3u::new(64, 64, 64)),
        Voxel(3),
    );
    let mut mask = new_mask_buffer();
    let mesh = generate_chunk_mesh(&buffer, &mut mask);
    // The +y group's single quad spans the whole top at corner plane 65.
    let top = mesh.groups[3][0];
    let corners = quad_mesh_positions(3, top);
    assert_eq!(corners.len(), 4);
    assert_eq!(corners[0], Vec3u::new(1, 65, 1));
    assert_eq!(corners[1], Vec3u::new(65, 65, 1));
    assert_eq!(corners[2], Vec3u::new(1, 65, 65));
    assert_eq!(corners[3], Vec3u::new(65, 65, 65));
    assert_eq!(quad_mesh_indices(8), vec![8, 9, 10, 10, 9, 11]);
    assert_eq!(face_normal(3), (0, 1, 0));
    assert_eq!(face_normal(0), (-1, 0, 0));
}

#[test]
fn translucent_faces_show_against_empty_only() {
    assert_eq!(Voxel(0).get_visibility(), VoxelVisibility::Empty);
    assert_eq!(Voxel(1).get_visibility(), VoxelVisibility::Translucent);
    assert_eq!(Voxel(2).get_visibility(), VoxelVisibility::Opaque);
    let mut buffer = VoxelBuffer::new();
    // An opaque voxel wrapped in translucent neighbours still shows its faces.
    buffer.fill_extent(
        Extent3::new(Vec3u::new(9, 9, 9), Vec3u::new(3, 3, 3)),
        Voxel(1),
    );
    buffer.fill_extent(
        Extent3::new(Vec3u::new(10, 10, 10), Vec3u::new(1, 1, 1)),
        Voxel(2),
    );
    let mut mask = new_mask_buffer();
    let mesh = generate_chunk_mesh(&buffer, &mut mask);
    for group in &mesh.groups {
        assert!(group
            .iter()
            .any(|q| q.voxel == Voxel(2) && q.width == 1 && q.height == 1));
    }
}

#[test]
fn voxel_colors_are_fixed_per_material() {
    assert_eq!(
        Voxel(3).get_color(),
        Color { r: 0, g: 128, b: 0, a: 255 }
    );
    assert_eq!(
        Voxel(7).get_color(),
        Color { r: 255, g: 255, b: 255, a: 255 }
    );
    assert_eq!(Voxel(5).merge_value(), Voxel(5));
    assert_eq!(Voxel(5).merge_value_facing_neighbour(), Voxel(5));
}

#[test]
fn far_terrain_grid_samples_and_spans() {
    let mut samples = vec![7i32; 4356];
    // One sampled lattice cell dips below the rest.
    samples[0] = -2;
    let heightmap = Heightmap::from_samples(samples);
    let (heights, minimum, maximum) = heightmap_mesh_grid(&heightmap);
    assert_eq!(heights.len(), 18 * 18);
    assert_eq!(minimum, -2);
    assert_eq!(maximum, 7);
    // Vertices 0..4 in each axis sample lattice cell 0.
    assert_eq!(heights[0], -2);
    assert_eq!(heights[3], -2);
    assert_eq!(heights[4], 7);
    assert_eq!(heightmap.get(Vec2u::new(16, 0)), 7);
}

#[test]
fn far_terrain_indices_tile_the_grid() {
    let indices = heightmap_grid_indices();
    assert_eq!(indices.len(), 17 * 17 * 6);
    assert_eq!(&indices[0..6], &[19, 1, 18, 0, 18, 1]);
    let last_quad = 17 * 17 - 1;
    let base = 16 * 18 + 16;
    assert_eq!(
        &indices[last_quad * 6..last_quad * 6 + 6],
        &[base + 19, base + 1, base + 18, base, base + 18, base + 1]
    );
}
