use meadow::fixed::SCALE;
use meadow::heightmap::NoiseContext;
use meadow::terrain::{
    build, full_triangle, p, p2, p_to_index, s, subdivide, wireframe_triangle,
    xy_to_index, Square, Terrain, TerrainError, TerrainEvent, GRASS_PER_CELL,
    MAX_LEVEL, WORLD_SIZE,
};

fn full_region() -> Square {
    s(p(0, 0), WORLD_SIZE - 1)
}

#[test]
fn index_mapping_is_row_major() {
    assert_eq!(xy_to_index(0, 0), 0);
    assert_eq!(xy_to_index(0, 64), 64);
    assert_eq!(xy_to_index(1, 0), 65);
    assert_eq!(xy_to_index(1, 2), 67);
    assert_eq!(xy_to_index(64, 64), 4224);
    assert_eq!(p_to_index(p(64, 0)), 4160);
    assert_eq!(p_to_index(p2(p(3, 4), 2, 1)), 5 * 65 + 5);
}

#[test]
fn triangles_emit_their_corner_indices() {
    let t = full_triangle(p(0, 0), p(0, 1), p(1, 1));
    assert_eq!(t, [0, 1, 66]);
    let w = wireframe_triangle(p(0, 0), p(0, 1), p(1, 1));
    assert_eq!(w, [0, 1, 1, 66, 66, 0]);
}

#[test]
fn leaf_subdivision_emits_two_triangles() {
    let mut idx: Vec<u16> = Vec::new();
    subdivide(&mut idx, 0, full_region());
    // Diagonal split of the whole world square: top-left, bottom-left,
    // bottom-right; then top-left, top-right, bottom-right.
    assert_eq!(idx, vec![0, 64, 4224, 0, 4160, 4224]);
}

#[test]
fn first_child_of_a_split_is_the_top_left_quadrant() {
    let mut idx: Vec<u16> = Vec::new();
    subdivide(&mut idx, 1, full_region());
    assert_eq!(idx.len(), 24);
    // First leaf: the 32-wide square anchored at (0, 0).
    assert_eq!(&idx[0..6], &[0, 32, 32 * 65 + 32, 0, 32 * 65, 32 * 65 + 32]);
}

#[test]
fn subdivision_appends_after_existing_indices() {
    let mut idx: Vec<u16> = vec![7, 8];
    subdivide(&mut idx, 0, s(p(0, 0), 1));
    assert_eq!(idx, vec![7, 8, 0, 1, 66, 0, 65, 66]);
}

#[test]
fn triangle_count_law_over_all_levels() {
    for level in 1..=MAX_LEVEL {
        let idx = build(level, full_region()).unwrap();
        let leaves = 4usize.pow(level as u32);
        assert_eq!(idx.len(), 6 * leaves);
        for &i in idx.iter() {
            assert!((i as usize) < (WORLD_SIZE as usize) * (WORLD_SIZE as usize));
        }
    }
}

#[test]
fn full_world_scenario_at_max_level() {
    let noise_field = NoiseContext::new(128);
    let terrain = Terrain::new(&noise_field).unwrap();
    assert_eq!(terrain.level(), 6);
    let idx = terrain.build_indices();
    // 2 * 4^6 = 8192 triangles, three indices each.
    assert_eq!(idx.len(), 3 * 8192);
    for &i in idx.iter() {
        assert!((i as usize) < 4225);
    }
}

#[test]
fn malformed_build_requests_are_rejected() {
    // Region sticking out of the world.
    assert_eq!(
        build(1, s(p(33, 0), 32)),
        Err(TerrainError::RegionOutOfBounds)
    );
    assert_eq!(
        build(0, s(p(0, 63), 2)),
        Err(TerrainError::RegionOutOfBounds)
    );
    // Width not a power of two.
    assert_eq!(
        build(1, s(p(0, 0), 3)),
        Err(TerrainError::WidthNotPowerOfTwo)
    );
    assert_eq!(
        build(0, s(p(0, 0), 0)),
        Err(TerrainError::WidthNotPowerOfTwo)
    );
    // More halvings requested than the width allows.
    assert_eq!(build(3, s(p(0, 0), 4)), Err(TerrainError::LevelTooDeep));
    assert_eq!(build(7, full_region()), Err(TerrainError::LevelTooDeep));
    // The boundary case still succeeds: width 4 halves exactly twice.
    assert!(build(2, s(p(0, 0), 4)).is_ok());
}

#[test]
fn too_small_noise_fields_are_rejected_whole() {
    let noise_field = NoiseContext::new(32);
    match Terrain::new(&noise_field) {
        Err(e) => assert_eq!(e, TerrainError::NoiseTooSmall),
        Ok(_) => panic!("a 32-sample field cannot cover a 65-vertex world"),
    }
}

#[test]
fn mesh_vertices_sample_the_single_height_function() {
    let noise_field = NoiseContext::new(128);
    let terrain = Terrain::new(&noise_field).unwrap();
    let vs = terrain.vertices();
    assert_eq!(vs.len(), 4225);
    for &(x, z) in [(0usize, 0usize), (64, 64), (1, 2), (32, 17)].iter() {
        let v = &vs[x * 65 + z];
        assert_eq!(v.position[0], (x as i64) * SCALE);
        assert_eq!(v.position[2], (z as i64) * SCALE);
        assert_eq!(v.tex_coords[0], (x as i64) * SCALE);
        assert_eq!(v.tex_coords[1], (z as i64) * SCALE);
        // The height is what the sampler answers; at lattice points the
        // gradient-noise field is exactly zero.
        let h = noise_field
            .get_height((x as i64) * SCALE, (z as i64) * SCALE)
            .unwrap();
        assert_eq!(v.position[1], h);
        assert_eq!(h, 0);
    }
}

#[test]
fn ground_cover_reuses_one_jitter_pool_per_cell() {
    let noise_field = NoiseContext::new(128);
    let terrain = Terrain::new(&noise_field).unwrap();
    let grass = terrain.grass();
    let jitter = terrain.jitter();
    assert_eq!(grass.len(), 4225 * GRASS_PER_CELL);
    assert_eq!(jitter.len(), GRASS_PER_CELL);
    for j in jitter.iter() {
        assert!(0 <= j.x && j.x < SCALE);
        assert!(0 <= j.z && j.z < SCALE);
        assert!(0 <= j.factor && j.factor < SCALE);
    }
    for &(x, z, k) in [(0usize, 0usize, 0usize), (64, 64, 99), (5, 40, 37)].iter() {
        let a = &grass[(x * 65 + z) * GRASS_PER_CELL + k];
        let gx = (x as i64) * SCALE + jitter[k].x;
        let gz = (z as i64) * SCALE + jitter[k].z;
        assert_eq!(a.offset[0], gx);
        assert_eq!(a.offset[2], gz);
        assert_eq!(a.rand_factor, jitter[k].factor);
        // The jittered elevation also routes through the one height function.
        assert_eq!(a.offset[1], noise_field.get_height(gx, gz).unwrap());
    }
}

#[test]
fn level_saturates_at_both_ends() {
    let noise_field = NoiseContext::new(128);
    let mut terrain = Terrain::new(&noise_field).unwrap();
    assert_eq!(terrain.level(), MAX_LEVEL);
    for _ in 0..10 {
        terrain.increase();
        assert_eq!(terrain.level(), MAX_LEVEL);
    }
    for _ in 0..10 {
        terrain.update(&TerrainEvent::DecreaseDetail);
    }
    assert_eq!(terrain.level(), 1);
    for _ in 0..10 {
        terrain.decrease();
        assert_eq!(terrain.level(), 1);
    }
    terrain.update(&TerrainEvent::IncreaseDetail);
    assert_eq!(terrain.level(), 2);
    terrain.decrease();
    assert_eq!(terrain.level(), 1);
}

#[test]
fn level_changes_never_touch_the_buffers() {
    let noise_field = NoiseContext::new(128);
    let mut terrain = Terrain::new(&noise_field).unwrap();
    let vertex_before = terrain.vertices()[100].position;
    let grass_before = terrain.grass()[100].offset;
    terrain.decrease();
    terrain.increase();
    assert_eq!(terrain.vertices()[100].position, vertex_before);
    assert_eq!(terrain.grass()[100].offset, grass_before);
    assert_eq!(terrain.vertices().len(), 4225);
    assert_eq!(terrain.grass().len(), 422500);
}

#[test]
fn index_counts_shrink_with_the_level() {
    let noise_field = NoiseContext::new(128);
    let mut terrain = Terrain::new(&noise_field).unwrap();
    let mut previous = terrain.build_indices().len();
    while terrain.level() > 1 {
        terrain.decrease();
        let len = terrain.build_indices().len();
        assert_eq!(len * 4, previous);
        previous = len;
    }
    assert_eq!(previous, 24);
}
