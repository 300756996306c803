use roxlap_game_demo::generation::chunks::{chunks_in_sphere, ChunkCoord, GeneratedChunks, LOAD_RADIUS};
use roxlap_game_demo::systems::chunk_population::{
    plan_chunk_population, AsteroidSpawn, ASTEROIDS_PER_CHUNK, CHUNKS_PER_TICK,
};

#[test]
fn first_tick_takes_first_chunks_in_sphere_order() {
    let center = ChunkCoord::new(0, 0, 0);
    let mut generated = GeneratedChunks::new();
    let spawns = plan_chunk_population(&mut generated, center, 1);
    let sphere = chunks_in_sphere(center, LOAD_RADIUS);
    assert_eq!(spawns.len(), CHUNKS_PER_TICK * ASTEROIDS_PER_CHUNK as usize);
    for (t, s) in spawns.iter().enumerate() {
        assert_eq!(
            *s,
            AsteroidSpawn {
                chunk: sphere[t],
                model_id: 1 + t as u32
            }
        );
        assert!(generated.contains(sphere[t]));
    }
    assert!(!generated.contains(sphere[CHUNKS_PER_TICK]));
}

#[test]
fn population_covers_sphere_once_then_stops() {
    let center = ChunkCoord::new(3, -2, 7);
    let mut generated = GeneratedChunks::new();
    let mut instance_count: u32 = 1;
    let mut all = Vec::new();
    loop {
        let spawns = plan_chunk_population(&mut generated, center, instance_count);
        if spawns.is_empty() {
            break;
        }
        assert!(spawns.len() <= CHUNKS_PER_TICK);
        for (t, s) in spawns.iter().enumerate() {
            assert_eq!(s.model_id, instance_count + t as u32);
        }
        instance_count += spawns.len() as u32;
        all.extend(spawns.iter().map(|s| s.chunk));
    }
    let sphere = chunks_in_sphere(center, LOAD_RADIUS);
    assert_eq!(all, sphere);
    assert_eq!(instance_count as usize, 1 + sphere.len());
}

#[test]
fn moving_ship_populates_only_new_chunks() {
    let mut generated = GeneratedChunks::new();
    for c in chunks_in_sphere(ChunkCoord::new(0, 0, 0), LOAD_RADIUS) {
        generated.insert(c);
    }
    let spawns = plan_chunk_population(&mut generated, ChunkCoord::new(1, 0, 0), 10);
    assert!(!spawns.is_empty());
    for s in &spawns {
        let d = (s.chunk.x - 1) * (s.chunk.x - 1) + s.chunk.y * s.chunk.y + s.chunk.z * s.chunk.z;
        assert!(d <= 64);
        let d0 = s.chunk.x * s.chunk.x + s.chunk.y * s.chunk.y + s.chunk.z * s.chunk.z;
        assert!(d0 > 64);
    }
}
