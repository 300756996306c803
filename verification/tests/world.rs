use roxlap_game_demo::world::{
    build_cube_vxl, build_world, cube_grid, ground_grid, voxel_colour, CUBE_VXL_VSID, GROUND_Z,
    MAXZDIM, VSID,
};

fn idx(vsid: usize, x: usize, y: usize, z: usize) -> usize {
    (y * vsid + x) * MAXZDIM + z
}

#[test]
fn voxel_colour_keeps_low_24_bits_and_marks_solid() {
    assert_eq!(voxel_colour(0x1234_5678), 0x8034_5678);
    assert_eq!(voxel_colour(0xFFFF_FFFF), 0x80FF_FFFF);
    assert_eq!(voxel_colour(0), 0x8000_0000);
}

#[test]
fn ground_grid_is_one_plane_at_ground_z() {
    let mut rng = rand::rng();
    let g = ground_grid(&mut rng);
    let vsid = VSID as usize;
    assert_eq!(g.mask.len(), vsid * vsid * MAXZDIM);
    assert_eq!(g.colour.len(), vsid * vsid * MAXZDIM);
    let solid = g.mask.iter().filter(|&&m| m != 0).count();
    assert_eq!(solid, vsid * vsid);
    for (x, y) in [(0, 0), (63, 0), (0, 63), (17, 42), (63, 63)] {
        let i = idx(vsid, x, y, GROUND_Z as usize);
        assert_eq!(g.mask[i], 1);
        assert_eq!(g.colour[i] & 0xFF00_0000, 0x8000_0000);
        assert_eq!(g.mask[i - 1], 0);
        assert_eq!(g.colour[i + 1], 0);
    }
}

#[test]
fn cube_grid_matches_float_ball_test() {
    let mut rng = rand::rng();
    let g = cube_grid(&mut rng);
    let vsid = CUBE_VXL_VSID as usize;
    let center = CUBE_VXL_VSID as f64 / 2.0;
    let radius = center - 0.5;
    let mut expected_solid = 0;
    for y in 0..vsid {
        for x in 0..vsid {
            for z in 0..MAXZDIM {
                let dx = x as f64 + 0.5 - center;
                let dy = y as f64 + 0.5 - center;
                let dz = z as f64 + 0.5 - center;
                let inside = z < vsid && dx * dx + dy * dy + dz * dz <= radius * radius;
                let i = idx(vsid, x, y, z);
                assert_eq!(g.mask[i], inside as u8, "voxel ({x}, {y}, {z})");
                if inside {
                    expected_solid += 1;
                    assert_eq!(g.colour[i] & 0xFF00_0000, 0x8000_0000);
                } else {
                    assert_eq!(g.colour[i], 0);
                }
            }
        }
    }
    assert!(expected_solid > 0);
}

#[test]
fn cube_grid_centre_solid_corner_air() {
    let mut rng = rand::rng();
    let g = cube_grid(&mut rng);
    let vsid = CUBE_VXL_VSID as usize;
    assert_eq!(g.mask[idx(vsid, 7, 8, 8)], 1);
    assert_eq!(g.mask[idx(vsid, 0, 0, 0)], 0);
    assert_eq!(g.mask[idx(vsid, 15, 15, 15)], 0);
    assert_eq!(g.mask[idx(vsid, 0, 7, 7)], 0);
    assert_eq!(g.mask[idx(vsid, 1, 7, 7)], 1);
}

#[test]
fn built_worlds_have_their_sizes() {
    let base = build_world();
    assert_eq!(base.vsid, VSID);
    let cube = build_cube_vxl();
    assert_eq!(cube.vsid, CUBE_VXL_VSID);
}
