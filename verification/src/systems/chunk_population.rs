use vstd::prelude::*;

use crate::generation::chunks::{
    chunk_lt, in_sphere, lemma_listing_is, listing, lists_exactly, missing_chunks, missing_pred,
    sphere_fits, ChunkCoord, GeneratedChunks, LOAD_RADIUS,
};

verus! {

/// Asteroids spawned per chunk (placed at chunk centre).
pub const ASTEROIDS_PER_CHUNK: u32 = 1;

/// Maximum chunks populated per tick to avoid first-frame hitching.
pub const CHUNKS_PER_TICK: usize = 32;

/// One asteroid to spawn: the chunk it sits in and the model slot it owns.
#[derive(Clone, Copy, Debug, PartialEq, Eq, Structural)]
pub struct AsteroidSpawn {
    pub chunk: ChunkCoord,
    pub model_id: u32,
}

/// How many of `n` missing chunks one tick populates.
pub open spec fn batch_len(n: nat) -> int {
    if n < CHUNKS_PER_TICK {
        n as int
    } else {
        CHUNKS_PER_TICK as int
    }
}

/// The chunks missing around `center` before this tick.
pub open spec fn missing_around(center: ChunkCoord, generated: Set<ChunkCoord>) -> Seq<ChunkCoord> {
    listing(missing_pred(center, LOAD_RADIUS as int, generated))
}

/// Plans one tick of chunk population around the chunk `center` holding
/// the ship: takes the first `CHUNKS_PER_TICK` chunks missing within
/// `LOAD_RADIUS` (in sphere order), gives each `ASTEROIDS_PER_CHUNK`
/// asteroids with model slots numbered on from `instance_count`, and
/// records those chunks as generated. The new instance count is
/// `instance_count + spawns.len()`.
pub fn plan_chunk_population(
    generated: &mut GeneratedChunks,
    center: ChunkCoord,
    instance_count: u32,
) -> (spawns: Vec<AsteroidSpawn>)
    requires
        sphere_fits(center, LOAD_RADIUS as int),
        instance_count + batch_len(missing_around(center, old(generated)@).len())
            * ASTEROIDS_PER_CHUNK <= u32::MAX,
    ensures
        ({
            let m = missing_around(center, old(generated)@);
            let k = batch_len(m.len());
            &&& spawns@.len() == k * ASTEROIDS_PER_CHUNK
            &&& forall|t: int|
                0 <= t < spawns@.len() ==> #[trigger] spawns@[t] == (AsteroidSpawn {
                    chunk: m[t / (ASTEROIDS_PER_CHUNK as int)],
                    model_id: (instance_count + t) as u32,
                })
            &&& final(generated)@ == old(generated)@.union(m.take(k).to_set())
        }),
{
    let missing = missing_chunks(center, LOAD_RADIUS, generated);
    let ghost m = missing@;
    let ghost g0 = generated@;
    let k: usize = if missing.len() < CHUNKS_PER_TICK {
        missing.len()
    } else {
        CHUNKS_PER_TICK
    };
    let mut spawns: Vec<AsteroidSpawn> = Vec::new();
    let mut next_id: u32 = instance_count;
    let mut i: usize = 0;
    while i < k
        invariant
            m == missing@,
            m == missing_around(center, g0),
            k == batch_len(m.len()),
            k <= m.len(),
            0 <= i <= k,
            instance_count + k * ASTEROIDS_PER_CHUNK <= u32::MAX,
            next_id == instance_count + i * ASTEROIDS_PER_CHUNK,
            spawns@.len() == i * ASTEROIDS_PER_CHUNK,
            forall|t: int|
                0 <= t < spawns@.len() ==> #[trigger] spawns@[t] == (AsteroidSpawn {
                    chunk: m[t / (ASTEROIDS_PER_CHUNK as int)],
                    model_id: (instance_count + t) as u32,
                }),
            generated@ == g0.union(m.take(i as int).to_set()),
        decreases k - i,
    {
        let chunk = missing[i];
        let mut a: u32 = 0;
        while a < ASTEROIDS_PER_CHUNK
            invariant
                m == missing@,
                k <= m.len(),
                0 <= i < k,
                chunk == m[i as int],
                0 <= a <= ASTEROIDS_PER_CHUNK,
                instance_count + k * ASTEROIDS_PER_CHUNK <= u32::MAX,
                next_id == instance_count + i * ASTEROIDS_PER_CHUNK + a,
                spawns@.len() == i * ASTEROIDS_PER_CHUNK + a,
                forall|t: int|
                    0 <= t < spawns@.len() ==> #[trigger] spawns@[t] == (AsteroidSpawn {
                        chunk: m[t / (ASTEROIDS_PER_CHUNK as int)],
                        model_id: (instance_count + t) as u32,
                    }),
            decreases ASTEROIDS_PER_CHUNK - a,
        {
            spawns.push(AsteroidSpawn { chunk, model_id: next_id });
            next_id = next_id + 1;
            a = a + 1;
        }
        generated.insert(chunk);
        proof {
            let t0 = m.take(i as int);
            let t1 = m.take(i + 1);
            assert(t1 == t0.push(m[i as int]));
            assert forall|c: ChunkCoord| t1.contains(c) <==> (t0.contains(c) || c == chunk) by {
                if t1.contains(c) {
                    let q = choose|q: int| 0 <= q < t1.len() && t1[q] == c;
                    if q < i {
                        assert(t0[q] == c);
                    }
                }
                if t0.contains(c) {
                    let q = choose|q: int| 0 <= q < t0.len() && t0[q] == c;
                    assert(t1[q] == c);
                }
                if c == chunk {
                    assert(t1[i as int] == c);
                }
            }
            assert(generated@ =~= g0.union(t1.to_set()));
        }
        i = i + 1;
    }
    assert(m.take(k as int) == m.take(i as int));
    spawns
}

/// The next tick continues where this one stopped: once the first `k`
/// missing chunks have been recorded as generated, the chunks still missing
/// around the same centre are exactly the rest of the list, in order. In
/// particular no chunk is populated twice, and every missing chunk is
/// reached after enough ticks.
pub proof fn law_next_tick_continues(
    center: ChunkCoord,
    radius: int,
    before: Set<ChunkCoord>,
    m: Seq<ChunkCoord>,
    k: int,
)
    requires
        lists_exactly(m, missing_pred(center, radius, before)),
        0 <= k <= m.len(),
    ensures
        lists_exactly(m.skip(k), missing_pred(center, radius, before.union(m.take(k).to_set()))),
        listing(missing_pred(center, radius, before.union(m.take(k).to_set()))) == m.skip(k),
{
    let after = before.union(m.take(k).to_set());
    let p = missing_pred(center, radius, before);
    let q = missing_pred(center, radius, after);
    let rest = m.skip(k);
    assert forall|i: int, j: int| 0 <= i < j < rest.len() implies chunk_lt(
        #[trigger] rest[i],
        #[trigger] rest[j],
    ) by {
        assert(rest[i] == m[k + i]);
        assert(rest[j] == m[k + j]);
    }
    assert forall|i: int| 0 <= i < rest.len() implies #[trigger] q(rest[i]) by {
        assert(rest[i] == m[k + i]);
        assert(p(m[k + i]));
        if m.take(k).contains(rest[i]) {
            let t = choose|t: int| 0 <= t < k && m.take(k)[t] == rest[i];
            assert(m[t] == m.take(k)[t]);
            assert(chunk_lt(m[t], m[k + i]));
        }
    }
    assert forall|c: ChunkCoord| #[trigger] q(c) implies rest.contains(c) by {
        assert(p(c));
        let t = choose|t: int| 0 <= t < m.len() && m[t] == c;
        if t < k {
            assert(m.take(k)[t] == c);
            assert(m.take(k).contains(c));
        } else {
            assert(rest[t - k] == c);
        }
    }
    lemma_listing_is(rest, q);
}

/// How many of `total` missing chunks `n` ticks record:
/// `min(CHUNKS_PER_TICK * n, total)`.
pub open spec fn covered(total: nat, n: nat) -> int {
    if CHUNKS_PER_TICK * n < total {
        CHUNKS_PER_TICK * n
    } else {
        total as int
    }
}

/// The generated set after `n` ticks around a fixed `center`, starting
/// from `before`, each tick recording what `plan_chunk_population`
/// records.
pub open spec fn after_ticks(center: ChunkCoord, before: Set<ChunkCoord>, n: nat) -> Set<
    ChunkCoord,
>
    decreases n,
{
    if n == 0 {
        before
    } else {
        let g = after_ticks(center, before, (n - 1) as nat);
        let m = missing_around(center, g);
        g.union(m.take(batch_len(m.len())).to_set())
    }
}

/// Ticks around a fixed centre cover the whole sphere: with `m0` the chunks
/// missing at the start, after `n` ticks the first
/// `min(CHUNKS_PER_TICK * n, |m0|)` of them are recorded and the rest are
/// still missing, in order, so each tick records exactly
/// `min(CHUNKS_PER_TICK, remaining)` new chunks and none twice. Once
/// `CHUNKS_PER_TICK * n >= |m0|`, every chunk of the sphere is recorded and
/// nothing is missing, so further ticks change nothing.
pub proof fn law_ticks_cover_sphere(
    center: ChunkCoord,
    before: Set<ChunkCoord>,
    m0: Seq<ChunkCoord>,
    n: nat,
)
    requires
        lists_exactly(m0, missing_pred(center, LOAD_RADIUS as int, before)),
    ensures
        after_ticks(center, before, n) == before.union(m0.take(covered(m0.len(), n)).to_set()),
        missing_around(center, after_ticks(center, before, n)) == m0.skip(covered(m0.len(), n)),
        n > 0 ==> covered(m0.len(), n) - covered(m0.len(), (n - 1) as nat) == batch_len(
            (m0.len() - covered(m0.len(), (n - 1) as nat)) as nat,
        ),
        CHUNKS_PER_TICK * n >= m0.len() ==> missing_around(center, after_ticks(center, before, n)).len()
            == 0,
        CHUNKS_PER_TICK * n >= m0.len() ==> forall|c: ChunkCoord|
            in_sphere(center, LOAD_RADIUS as int, c) ==> #[trigger] after_ticks(
                center,
                before,
                n,
            ).contains(c),
    decreases n,
{
    let total = m0.len();
    if n == 0 {
        assert(m0.take(0).to_set() =~= Set::<ChunkCoord>::empty());
        assert(before.union(m0.take(0).to_set()) =~= before);
        assert(m0.skip(0) =~= m0);
        lemma_listing_is(m0, missing_pred(center, LOAD_RADIUS as int, before));
    } else {
        let pn = (n - 1) as nat;
        law_ticks_cover_sphere(center, before, m0, pn);
        let s = covered(total, pn);
        let g = after_ticks(center, before, pn);
        law_next_tick_continues(center, LOAD_RADIUS as int, before, m0, s);
        let mn = m0.skip(s);
        assert(missing_around(center, g) == mn);
        let k = batch_len(mn.len());
        law_next_tick_continues(center, LOAD_RADIUS as int, g, mn, k);
        assert(s + k == covered(total, n));
        assert(mn.skip(k) =~= m0.skip(s + k));
        assert forall|c: ChunkCoord|
            #[trigger] g.union(mn.take(k).to_set()).contains(c) == before.union(
                m0.take(s + k).to_set(),
            ).contains(c) by {
            if mn.take(k).contains(c) {
                let t = choose|t: int| 0 <= t < k && mn.take(k)[t] == c;
                assert(m0.take(s + k)[s + t] == c);
            }
            if m0.take(s).contains(c) {
                let t = choose|t: int| 0 <= t < s && m0.take(s)[t] == c;
                assert(m0.take(s + k)[t] == c);
            }
            let tk = m0.take(s + k);
            if tk.contains(c) {
                let t = choose|t: int| 0 <= t < tk.len() && tk[t] == c;
                if t < s {
                    assert(m0.take(s)[t] == c);
                } else {
                    assert(mn.take(k)[t - s] == c);
                }
            }
        }
        assert(g.union(mn.take(k).to_set()) =~= before.union(m0.take(s + k).to_set()));
    }
    if CHUNKS_PER_TICK * n >= total {
        let s = covered(total, n);
        assert(s == total);
        assert(m0.skip(s).len() == 0);
        assert forall|c: ChunkCoord| in_sphere(center, LOAD_RADIUS as int, c) implies #[trigger] after_ticks(
            center,
            before,
            n,
        ).contains(c) by {
            if !before.contains(c) {
                assert(missing_pred(center, LOAD_RADIUS as int, before)(c));
                let t = choose|t: int| 0 <= t < total && m0[t] == c;
                assert(m0.take(s)[t] == c);
            }
        }
    }
}

} // verus!
