use std::collections::HashSet;

use roxlap_game_demo::generation::chunks::{
    chunks_in_sphere, missing_chunks, ChunkCoord, GeneratedChunks, CHUNK_SIZE, LOAD_RADIUS,
};

fn origin() -> ChunkCoord {
    ChunkCoord::new(0, 0, 0)
}

fn dot(c: ChunkCoord, center: ChunkCoord) -> i32 {
    let (dx, dy, dz) = (c.x - center.x, c.y - center.y, c.z - center.z);
    dx * dx + dy * dy + dz * dz
}

fn generated_from(chunks: &[ChunkCoord]) -> GeneratedChunks {
    let mut g = GeneratedChunks::new();
    for &c in chunks {
        g.insert(c);
    }
    g
}

#[test]
fn chunks_in_sphere_radius0_is_just_center() {
    let result = chunks_in_sphere(origin(), 0);
    assert_eq!(result, vec![origin()]);
}

#[test]
fn chunks_in_sphere_radius1_count() {
    // unit sphere in 3D integer grid: center + 6 face neighbours = 7
    let count = chunks_in_sphere(origin(), 1).len();
    assert_eq!(count, 7);
}

#[test]
fn chunks_in_sphere_all_within_radius() {
    let radius = 3;
    let r2 = radius * radius;
    for c in chunks_in_sphere(origin(), radius) {
        assert!(dot(c, origin()) <= r2, "{c:?} is outside radius {radius}");
    }
}

#[test]
fn chunks_in_sphere_no_duplicates() {
    let seen: HashSet<ChunkCoord> = chunks_in_sphere(origin(), 3).into_iter().collect();
    let count = chunks_in_sphere(origin(), 3).len();
    assert_eq!(seen.len(), count);
}

#[test]
fn missing_chunks_empty_generated_returns_full_sphere() {
    let generated = GeneratedChunks::new();
    let missing = missing_chunks(origin(), 1, &generated);
    assert_eq!(missing.len(), 7);
}

#[test]
fn missing_chunks_excludes_generated() {
    let center = origin();
    let mut generated = generated_from(&chunks_in_sphere(center, 1));
    generated.remove(ChunkCoord::new(1, 0, 0));
    let missing = missing_chunks(origin(), 1, &generated);
    assert_eq!(missing, vec![ChunkCoord::new(1, 0, 0)]);
}

#[test]
fn missing_chunks_all_generated_returns_empty() {
    let generated = generated_from(&chunks_in_sphere(origin(), 2));
    let missing = missing_chunks(origin(), 2, &generated);
    assert!(missing.is_empty());
}

#[test]
fn sphere_radius1_is_sorted_lexicographically() {
    let got = chunks_in_sphere(origin(), 1);
    let want = vec![
        ChunkCoord::new(-1, 0, 0),
        ChunkCoord::new(0, -1, 0),
        ChunkCoord::new(0, 0, -1),
        ChunkCoord::new(0, 0, 0),
        ChunkCoord::new(0, 0, 1),
        ChunkCoord::new(0, 1, 0),
        ChunkCoord::new(1, 0, 0),
    ];
    assert_eq!(got, want);
}

#[test]
fn sphere_matches_brute_force_off_origin() {
    let center = ChunkCoord::new(5, -7, 100);
    let radius = 4;
    let mut want = Vec::new();
    for dx in -radius..=radius {
        for dy in -radius..=radius {
            for dz in -radius..=radius {
                if dx * dx + dy * dy + dz * dz <= radius * radius {
                    want.push(ChunkCoord::new(center.x + dx, center.y + dy, center.z + dz));
                }
            }
        }
    }
    assert_eq!(chunks_in_sphere(center, radius), want);
}

#[test]
fn sphere_negative_radius_is_empty() {
    assert!(chunks_in_sphere(origin(), -1).is_empty());
    assert!(chunks_in_sphere(origin(), -5).is_empty());
}

#[test]
fn sphere_at_extreme_coordinates() {
    let center = ChunkCoord::new(i32::MAX - 1, i32::MIN + 1, 0);
    let got = chunks_in_sphere(center, 1);
    assert_eq!(got.len(), 7);
    assert!(got.contains(&ChunkCoord::new(i32::MAX, i32::MIN + 1, 0)));
    assert!(got.contains(&ChunkCoord::new(i32::MAX - 1, i32::MIN, 0)));
}

#[test]
fn load_radius_sphere_count() {
    let n = chunks_in_sphere(origin(), LOAD_RADIUS).len();
    let mut brute = 0;
    for dx in -8i32..=8 {
        for dy in -8i32..=8 {
            for dz in -8i32..=8 {
                if dx * dx + dy * dy + dz * dz <= 64 {
                    brute += 1;
                }
            }
        }
    }
    assert_eq!(n, brute);
    assert_eq!(CHUNK_SIZE, 64);
}

#[test]
fn missing_keeps_sphere_order() {
    let center = origin();
    let generated = generated_from(&[ChunkCoord::new(0, 0, 0), ChunkCoord::new(0, 1, 0)]);
    let missing = missing_chunks(center, 1, &generated);
    let want: Vec<ChunkCoord> = chunks_in_sphere(center, 1)
        .into_iter()
        .filter(|c| !generated.contains(*c))
        .collect();
    assert_eq!(missing, want);
    assert_eq!(missing.len(), 5);
}

#[test]
fn generated_chunks_insert_contains_remove() {
    let mut g = GeneratedChunks::new();
    let a = ChunkCoord::new(-1, 2, -3);
    let b = ChunkCoord::new(2, -1, -3);
    assert!(!g.contains(a));
    assert!(g.insert(a));
    assert!(g.contains(a));
    assert!(!g.contains(b));
    assert!(!g.insert(a));
    assert!(g.insert(b));
    assert!(g.remove(a));
    assert!(!g.contains(a));
    assert!(g.contains(b));
    assert!(!g.remove(a));
}

#[test]
fn generated_chunks_distinguish_sign_and_axis() {
    let mut g = GeneratedChunks::new();
    g.insert(ChunkCoord::new(-1, 0, 0));
    assert!(!g.contains(ChunkCoord::new(0, -1, 0)));
    assert!(!g.contains(ChunkCoord::new(0, 0, -1)));
    assert!(!g.contains(ChunkCoord::new(1, 0, 0)));
    assert!(g.contains(ChunkCoord::new(-1, 0, 0)));
}

#[test]
fn missing_with_nothing_generated_equals_sphere() {
    let center = ChunkCoord::new(-4, 9, 2);
    let generated = GeneratedChunks::new();
    assert_eq!(missing_chunks(center, 3, &generated), chunks_in_sphere(center, 3));
}
