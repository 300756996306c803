use std::collections::HashSet;

use vstd::prelude::*;

verus! {

broadcast use vstd::std_specs::hash::group_hash_axioms;

/// Side length of one chunk in world units.
pub const CHUNK_SIZE: i32 = 64;

/// Radius (in chunks) of the loaded sphere around the player.
pub const LOAD_RADIUS: i32 = 8;

/// Integer coordinate of a chunk in chunk space.
#[derive(Clone, Copy, Debug, PartialEq, Eq, Hash, Structural)]
pub struct ChunkCoord {
    pub x: i32,
    pub y: i32,
    pub z: i32,
}

impl ChunkCoord {
    pub fn new(x: i32, y: i32, z: i32) -> (c: ChunkCoord)
        ensures
            c.x == x,
            c.y == y,
            c.z == z,
    {
        ChunkCoord { x, y, z }
    }
}

/// Strict lexicographic order on `(x, y, z)`.
pub open spec fn chunk_lt(a: ChunkCoord, b: ChunkCoord) -> bool {
    ||| a.x < b.x
    ||| (a.x == b.x && a.y < b.y)
    ||| (a.x == b.x && a.y == b.y && a.z < b.z)
}

/// Every element is strictly smaller (lexicographically) than every later one.
pub open spec fn strictly_sorted(s: Seq<ChunkCoord>) -> bool {
    forall|i: int, j: int| 0 <= i < j < s.len() ==> chunk_lt(#[trigger] s[i], #[trigger] s[j])
}

/// `s` lists, in increasing lexicographic order and without repetition,
/// exactly the chunks that satisfy `p`.
pub open spec fn lists_exactly(s: Seq<ChunkCoord>, p: spec_fn(ChunkCoord) -> bool) -> bool {
    &&& strictly_sorted(s)
    &&& forall|i: int| 0 <= i < s.len() ==> #[trigger] p(s[i])
    &&& forall|c: ChunkCoord| #[trigger] p(c) ==> s.contains(c)
}

/// The sorted listing of `p`, where one exists.
pub open spec fn listing(p: spec_fn(ChunkCoord) -> bool) -> Seq<ChunkCoord> {
    choose|s: Seq<ChunkCoord>| lists_exactly(s, p)
}

/// `c` lies in the sphere of `radius` chunks around `center`, measured on
/// the integer offset `c - center`; a negative radius holds no chunk.
pub open spec fn in_sphere(center: ChunkCoord, radius: int, c: ChunkCoord) -> bool {
    let dx = c.x - center.x;
    let dy = c.y - center.y;
    let dz = c.z - center.z;
    &&& radius >= 0
    &&& dx * dx + dy * dy + dz * dz <= radius * radius
}

/// The chunks in the sphere, as a predicate.
pub open spec fn sphere_pred(center: ChunkCoord, radius: int) -> spec_fn(ChunkCoord) -> bool {
    |c: ChunkCoord| in_sphere(center, radius, c)
}

/// Chunks not in `generated`, as a predicate.
pub open spec fn not_generated(generated: Set<ChunkCoord>) -> spec_fn(ChunkCoord) -> bool {
    |c: ChunkCoord| !generated.contains(c)
}

/// Conjunction of two predicates.
pub open spec fn and_pred(p: spec_fn(ChunkCoord) -> bool, q: spec_fn(ChunkCoord) -> bool) -> spec_fn(
    ChunkCoord,
) -> bool {
    |c: ChunkCoord| p(c) && q(c)
}

/// The chunks in the sphere that are not in `generated`, as a predicate.
pub open spec fn missing_pred(center: ChunkCoord, radius: int, generated: Set<ChunkCoord>) -> spec_fn(
    ChunkCoord,
) -> bool {
    |c: ChunkCoord| in_sphere(center, radius, c) && !generated.contains(c)
}

/// The sphere can be enumerated with `i32` arithmetic: the squared radius
/// fits, the largest squared offset of the enclosing cube fits, and every
/// chunk of the sphere has `i32` coordinates.
pub open spec fn sphere_fits(center: ChunkCoord, radius: int) -> bool {
    &&& radius * radius <= i32::MAX
    &&& radius >= 0 ==> {
        &&& 3 * (radius * radius) <= i32::MAX
        &&& i32::MIN <= center.x - radius && center.x + radius <= i32::MAX
        &&& i32::MIN <= center.y - radius && center.y + radius <= i32::MAX
        &&& i32::MIN <= center.z - radius && center.z + radius <= i32::MAX
    }
}

spec fn lex_before(c: ChunkCoord, x: int, y: int, z: int) -> bool {
    ||| c.x < x
    ||| (c.x == x && c.y < y)
    ||| (c.x == x && c.y == y && c.z < z)
}

proof fn lemma_square_bound(a: int, b: int, c: int, r: int)
    requires
        r >= 0,
        a * a + b * b + c * c <= r * r,
    ensures
        -r <= a <= r,
{
    assert(b * b >= 0) by (nonlinear_arith);
    assert(c * c >= 0) by (nonlinear_arith);
    if a > r {
        assert(a * a > r * r) by (nonlinear_arith)
            requires
                a > r,
                r >= 0,
        ;
    }
    if a < -r {
        assert(a * a > r * r) by (nonlinear_arith)
            requires
                a < -r,
                r >= 0,
        ;
    }
}

proof fn lemma_sphere_offsets(center: ChunkCoord, radius: int, c: ChunkCoord)
    requires
        in_sphere(center, radius, c),
    ensures
        -radius <= c.x - center.x <= radius,
        -radius <= c.y - center.y <= radius,
        -radius <= c.z - center.z <= radius,
{
    let dx = c.x - center.x;
    let dy = c.y - center.y;
    let dz = c.z - center.z;
    lemma_square_bound(dx, dy, dz, radius);
    lemma_square_bound(dy, dx, dz, radius);
    lemma_square_bound(dz, dy, dx, radius);
}

proof fn lemma_cube_squares(dx: int, dy: int, dz: int, r: int)
    requires
        r >= 0,
        -r <= dx <= r,
        -r <= dy <= r,
        -r <= dz <= r,
    ensures
        0 <= dx * dx <= r * r,
        0 <= dy * dy <= r * r,
        0 <= dz * dz <= r * r,
{
    assert(0 <= dx * dx <= r * r) by (nonlinear_arith)
        requires
            -r <= dx <= r,
    ;
    assert(0 <= dy * dy <= r * r) by (nonlinear_arith)
        requires
            -r <= dy <= r,
    ;
    assert(0 <= dz * dz <= r * r) by (nonlinear_arith)
        requires
            -r <= dz <= r,
    ;
}

/// `p` without the chunk `first`.
pub open spec fn without(p: spec_fn(ChunkCoord) -> bool, first: ChunkCoord) -> spec_fn(
    ChunkCoord,
) -> bool {
    |c: ChunkCoord| p(c) && c != first
}

/// Dropping the first chunk of a sorted listing of `p` leaves a sorted
/// listing of `p` without that chunk.
proof fn lemma_listing_tail(s: Seq<ChunkCoord>, p: spec_fn(ChunkCoord) -> bool)
    requires
        lists_exactly(s, p),
        s.len() > 0,
    ensures
        lists_exactly(s.drop_first(), without(p, s[0])),
{
    let q = without(p, s[0]);
    let t = s.drop_first();
    assert forall|i: int, j: int| 0 <= i < j < t.len() implies chunk_lt(#[trigger] t[i], #[trigger] t[j]) by {
        assert(t[i] == s[i + 1]);
        assert(t[j] == s[j + 1]);
    }
    assert forall|i: int| 0 <= i < t.len() implies #[trigger] q(t[i]) by {
        assert(t[i] == s[i + 1]);
        assert(chunk_lt(s[0], s[i + 1]));
    }
    assert forall|c: ChunkCoord| #[trigger] q(c) implies t.contains(c) by {
        let m = choose|m: int| 0 <= m < s.len() && s[m] == c;
        assert(m != 0);
        assert(t[m - 1] == c);
    }
}

/// Two sorted listings of the same predicate are the same sequence.
pub proof fn lemma_listing_unique(s1: Seq<ChunkCoord>, s2: Seq<ChunkCoord>, p: spec_fn(ChunkCoord) -> bool)
    requires
        lists_exactly(s1, p),
        lists_exactly(s2, p),
    ensures
        s1 == s2,
    decreases s1.len(),
{
    if s1.len() == 0 {
        if s2.len() > 0 {
            assert(p(s2[0]));
            assert(s1.contains(s2[0]));
        }
        assert(s1 =~= s2);
    } else {
        assert(p(s1[0]));
        assert(s2.contains(s1[0]));
        assert(s2.len() > 0);
        assert(p(s2[0]));
        assert(s1.contains(s2[0]));
        let j = choose|j: int| 0 <= j < s2.len() && s2[j] == s1[0];
        let k = choose|k: int| 0 <= k < s1.len() && s1[k] == s2[0];
        if k > 0 {
            assert(chunk_lt(s1[0], s1[k]));
            if j > 0 {
                assert(chunk_lt(s2[0], s2[j]));
            }
        }
        assert(s1[0] == s2[0]);
        let q = without(p, s1[0]);
        let t1 = s1.drop_first();
        let t2 = s2.drop_first();
        lemma_listing_tail(s1, p);
        lemma_listing_tail(s2, p);
        lemma_listing_unique(t1, t2, q);
        assert(s1 =~= s2) by {
            assert forall|i: int| 0 <= i < s1.len() implies s1[i] == s2[i] by {
                if i > 0 {
                    assert(s1[i] == t1[i - 1]);
                    assert(s2[i] == t2[i - 1]);
                }
            }
        }
    }
}

/// A sorted listing of `p` is `listing(p)`.
pub proof fn lemma_listing_is(s: Seq<ChunkCoord>, p: spec_fn(ChunkCoord) -> bool)
    requires
        lists_exactly(s, p),
    ensures
        listing(p) == s,
        lists_exactly(listing(p), p),
{
    let t = listing(p);
    assert(lists_exactly(t, p));
    lemma_listing_unique(t, s, p);
}

/// A sorted listing holds no chunk twice.
pub proof fn law_listing_no_duplicates(s: Seq<ChunkCoord>, p: spec_fn(ChunkCoord) -> bool)
    requires
        lists_exactly(s, p),
    ensures
        s.no_duplicates(),
{
    assert forall|i: int, j: int| 0 <= i < s.len() && 0 <= j < s.len() && i != j implies s[i] != s[j] by {
        if i < j {
            assert(chunk_lt(s[i], s[j]));
        } else {
            assert(chunk_lt(s[j], s[i]));
        }
    }
}

/// All chunk coordinates within `radius` chunks of `center` (Euclidean
/// distance on the integer offset, boundary included), in increasing
/// lexicographic `(x, y, z)` order, each once.
pub fn chunks_in_sphere(center: ChunkCoord, radius: i32) -> (out: Vec<ChunkCoord>)
    requires
        sphere_fits(center, radius as int),
    ensures
        lists_exactly(out@, sphere_pred(center, radius as int)),
        out@ == listing(sphere_pred(center, radius as int)),
{
    assert(radius * radius >= 0) by (nonlinear_arith);
    let r2: i32 = radius * radius;
    let mut out: Vec<ChunkCoord> = Vec::new();
    if radius < 0 {
        assert forall|c: ChunkCoord| #[trigger] sphere_pred(center, radius as int)(c) implies out@.contains(c) by {}
        proof {
            lemma_listing_is(out@, sphere_pred(center, radius as int));
        }
        return out;
    }
    let ghost r = radius as int;
    assert(radius < 46341) by (nonlinear_arith)
        requires
            radius * radius <= i32::MAX,
            radius >= 0,
    ;
    assert forall|c: ChunkCoord| in_sphere(center, r, c) && c.x < center.x - radius implies #[trigger] out@.contains(
        c,
    ) by {
        lemma_sphere_offsets(center, r, c);
    }
    let mut dx: i32 = -radius;
    while dx <= radius
        invariant
            r == radius as int,
            0 <= radius < 46341,
            r2 == r * r,
            sphere_fits(center, r),
            -r <= dx <= r + 1,
            strictly_sorted(out@),
            forall|i: int| 0 <= i < out@.len() ==> in_sphere(center, r, #[trigger] out@[i]),
            forall|i: int| 0 <= i < out@.len() ==> #[trigger] out@[i].x < center.x + dx,
            forall|c: ChunkCoord| in_sphere(center, r, c) && c.x < center.x + dx ==> #[trigger] out@.contains(c),
        decreases r + 1 - dx,
    {
        assert forall|c: ChunkCoord|
            in_sphere(center, r, c) && lex_before(c, center.x + dx, center.y - radius, i32::MIN as int)
                implies #[trigger] out@.contains(c) by {
            lemma_sphere_offsets(center, r, c);
        }
        let mut dy: i32 = -radius;
        while dy <= radius
            invariant
                r == radius as int,
                0 <= radius < 46341,
                r2 == r * r,
                sphere_fits(center, r),
                -r <= dx <= r,
                -r <= dy <= r + 1,
                strictly_sorted(out@),
                forall|i: int| 0 <= i < out@.len() ==> in_sphere(center, r, #[trigger] out@[i]),
                forall|i: int| 0 <= i < out@.len() ==> lex_before(#[trigger] out@[i], center.x + dx, center.y + dy, i32::MIN as int),
                forall|c: ChunkCoord|
                    in_sphere(center, r, c) && lex_before(c, center.x + dx, center.y + dy, i32::MIN as int)
                        ==> #[trigger] out@.contains(c),
            decreases r + 1 - dy,
        {
            assert forall|c: ChunkCoord|
                in_sphere(center, r, c) && lex_before(c, center.x + dx, center.y + dy, center.z - radius)
                    implies #[trigger] out@.contains(c) by {
                lemma_sphere_offsets(center, r, c);
            }
            let mut dz: i32 = -radius;
            while dz <= radius
                invariant
                    r == radius as int,
                    0 <= radius < 46341,
                    r2 == r * r,
                    sphere_fits(center, r),
                    -r <= dx <= r,
                    -r <= dy <= r,
                    -r <= dz <= r + 1,
                    strictly_sorted(out@),
                    forall|i: int| 0 <= i < out@.len() ==> in_sphere(center, r, #[trigger] out@[i]),
                    forall|i: int| 0 <= i < out@.len() ==> lex_before(#[trigger] out@[i], center.x + dx, center.y + dy, center.z + dz),
                    forall|c: ChunkCoord|
                        in_sphere(center, r, c) && lex_before(c, center.x + dx, center.y + dy, center.z + dz)
                            ==> #[trigger] out@.contains(c),
                decreases r + 1 - dz,
            {
                proof {
                    lemma_cube_squares(dx as int, dy as int, dz as int, r);
                }
                let d2: i32 = dx * dx + dy * dy + dz * dz;
                let ghost old_out = out@;
                if d2 <= r2 {
                    let c = ChunkCoord { x: center.x + dx, y: center.y + dy, z: center.z + dz };
                    out.push(c);
                    assert(in_sphere(center, r, c));
                    assert forall|i: int, j: int| 0 <= i < j < out@.len() implies chunk_lt(
                        #[trigger] out@[i],
                        #[trigger] out@[j],
                    ) by {
                        if j == out@.len() - 1 {
                            assert(lex_before(old_out[i], center.x + dx, center.y + dy, center.z + dz));
                        } else {
                            assert(out@[i] == old_out[i]);
                            assert(out@[j] == old_out[j]);
                        }
                    }
                    assert forall|c2: ChunkCoord|
                        in_sphere(center, r, c2) && lex_before(c2, center.x + dx, center.y + dy, center.z + dz + 1)
                            implies #[trigger] out@.contains(c2) by {
                        if c2 == c {
                            assert(out@[out@.len() - 1] == c);
                        } else {
                            assert(old_out.contains(c2));
                            let m = choose|m: int| 0 <= m < old_out.len() && old_out[m] == c2;
                            assert(out@[m] == c2);
                        }
                    }
                } else {
                    assert forall|c2: ChunkCoord|
                        in_sphere(center, r, c2) && lex_before(c2, center.x + dx, center.y + dy, center.z + dz + 1)
                            implies #[trigger] out@.contains(c2) by {
                        if c2.x == center.x + dx && c2.y == center.y + dy && c2.z == center.z + dz {
                            assert(false);
                        }
                    }
                }
                dz = dz + 1;
            }
            assert forall|c: ChunkCoord|
                in_sphere(center, r, c) && lex_before(c, center.x + dx, center.y + dy + 1, i32::MIN as int)
                    implies #[trigger] out@.contains(c) by {
                lemma_sphere_offsets(center, r, c);
                assert(lex_before(c, center.x + dx, center.y + dy, center.z + dz));
            }
            dy = dy + 1;
        }
        assert forall|c: ChunkCoord| in_sphere(center, r, c) && c.x < center.x + dx + 1 implies #[trigger] out@.contains(
            c,
        ) by {
            lemma_sphere_offsets(center, r, c);
            assert(lex_before(c, center.x + dx, center.y + dy, i32::MIN as int));
        }
        assert forall|i: int| 0 <= i < out@.len() implies #[trigger] out@[i].x < center.x + dx + 1 by {
            assert(lex_before(out@[i], center.x + dx, center.y + dy, i32::MIN as int));
        }
        dx = dx + 1;
    }
    assert forall|c: ChunkCoord| #[trigger] sphere_pred(center, radius as int)(c) implies out@.contains(c) by {
        lemma_sphere_offsets(center, r, c);
    }
    proof {
        lemma_listing_is(out@, sphere_pred(center, radius as int));
    }
    out
}


/// Packs a chunk coordinate into one `u128`: `x`, `y`, `z` as 32-bit
/// two's-complement fields at bits 64, 32 and 0.
pub open spec fn chunk_key(c: ChunkCoord) -> u128 {
    key_of(c.x, c.y, c.z)
}

pub open spec fn key_of(x: i32, y: i32, z: i32) -> u128 {
    (((x as u32) as u128) << 64u128) | (((y as u32) as u128) << 32u128) | ((z as u32) as u128)
}

proof fn lemma_key_of_injective(ax: i32, ay: i32, az: i32, bx: i32, by: i32, bz: i32)
    by (bit_vector)
    requires
        key_of(ax, ay, az) == key_of(bx, by, bz),
    ensures
        ax == bx,
        ay == by,
        az == bz,
{
}

/// Distinct chunks have distinct keys.
pub proof fn lemma_chunk_key_injective(a: ChunkCoord, b: ChunkCoord)
    ensures
        chunk_key(a) == chunk_key(b) <==> a == b,
{
    if chunk_key(a) == chunk_key(b) {
        lemma_key_of_injective(a.x, a.y, a.z, b.x, b.y, b.z);
    }
}

/// The set of chunk coordinates that have already been generated.
pub struct GeneratedChunks {
    keys: HashSet<u128>,
}

impl View for GeneratedChunks {
    type V = Set<ChunkCoord>;

    closed spec fn view(&self) -> Set<ChunkCoord> {
        Set::new(|c: ChunkCoord| self.keys@.contains(chunk_key(c)))
    }
}

impl GeneratedChunks {
    /// An empty set.
    pub fn new() -> (g: GeneratedChunks)
        ensures
            g@ == Set::<ChunkCoord>::empty(),
    {
        let g = GeneratedChunks { keys: HashSet::new() };
        assert(g@ =~= Set::<ChunkCoord>::empty());
        g
    }

    fn key(c: ChunkCoord) -> (k: u128)
        ensures
            k == chunk_key(c),
    {
        (((c.x as u32) as u128) << 64u128) | (((c.y as u32) as u128) << 32u128) | ((c.z as u32) as u128)
    }

    /// Whether `c` has been generated.
    pub fn contains(&self, c: ChunkCoord) -> (b: bool)
        ensures
            b == self@.contains(c),
    {
        let k = Self::key(c);
        self.keys.contains(&k)
    }

    /// Records `c`; returns whether it was not recorded before.
    pub fn insert(&mut self, c: ChunkCoord) -> (fresh: bool)
        ensures
            final(self)@ == old(self)@.insert(c),
            fresh == !old(self)@.contains(c),
    {
        let k = Self::key(c);
        let fresh = self.keys.insert(k);
        proof {
            assert forall|d: ChunkCoord| #[trigger] self@.contains(d) == old(self)@.insert(c).contains(d) by {
                lemma_chunk_key_injective(c, d);
            }
            assert(self@ =~= old(self)@.insert(c));
        }
        fresh
    }

    /// Forgets `c`; returns whether it was recorded.
    pub fn remove(&mut self, c: ChunkCoord) -> (was: bool)
        ensures
            final(self)@ == old(self)@.remove(c),
            was == old(self)@.contains(c),
    {
        let k = Self::key(c);
        let was = self.keys.remove(&k);
        proof {
            assert forall|d: ChunkCoord| #[trigger] self@.contains(d) == old(self)@.remove(c).contains(d) by {
                lemma_chunk_key_injective(c, d);
            }
            assert(self@ =~= old(self)@.remove(c));
        }
        was
    }
}

/// Chunk coordinates within `radius` chunks of `center` that are not yet in
/// `generated`, in increasing lexicographic order, each once.
pub fn missing_chunks(center: ChunkCoord, radius: i32, generated: &GeneratedChunks) -> (out: Vec<
    ChunkCoord,
>)
    requires
        sphere_fits(center, radius as int),
    ensures
        lists_exactly(out@, missing_pred(center, radius as int, generated@)),
        out@ == listing(missing_pred(center, radius as int, generated@)),
{
    let all = chunks_in_sphere(center, radius);
    let mut out: Vec<ChunkCoord> = Vec::new();
    let n = all.len();
    let ghost p = missing_pred(center, radius as int, generated@);
    let mut i: usize = 0;
    while i < n
        invariant
            n == all@.len(),
            0 <= i <= n,
            lists_exactly(all@, sphere_pred(center, radius as int)),
            p == missing_pred(center, radius as int, generated@),
            strictly_sorted(out@),
            forall|k: int| 0 <= k < out@.len() ==> #[trigger] p(out@[k]),
            forall|k: int| 0 <= k < out@.len() ==> exists|m: int| 0 <= m < i && all@[m] == #[trigger] out@[k],
            forall|m: int| 0 <= m < i && #[trigger] p(all@[m]) ==> out@.contains(all@[m]),
        decreases n - i,
    {
        let c = all[i];
        let ghost old_out = out@;
        if !generated.contains(c) {
            assert(sphere_pred(center, radius as int)(all@[i as int]));
            assert(p(c));
            out.push(c);
            assert forall|a: int, b: int| 0 <= a < b < out@.len() implies chunk_lt(
                #[trigger] out@[a],
                #[trigger] out@[b],
            ) by {
                if b == out@.len() - 1 {
                    let m = choose|m: int| 0 <= m < i && all@[m] == old_out[a];
                    assert(chunk_lt(all@[m], all@[i as int]));
                } else {
                    assert(out@[a] == old_out[a]);
                    assert(out@[b] == old_out[b]);
                }
            }
            assert forall|k: int| 0 <= k < out@.len() implies exists|m: int|
                0 <= m < i + 1 && all@[m] == #[trigger] out@[k] by {
                if k == out@.len() - 1 {
                    assert(all@[i as int] == out@[k]);
                } else {
                    assert(out@[k] == old_out[k]);
                    let m = choose|m: int| 0 <= m < i && all@[m] == old_out[k];
                    assert(all@[m] == out@[k]);
                }
            }
            assert forall|m: int| 0 <= m < i + 1 && #[trigger] p(all@[m]) implies out@.contains(all@[m]) by {
                if m == i {
                    assert(out@[out@.len() - 1] == all@[m]);
                } else {
                    let q = choose|q: int| 0 <= q < old_out.len() && old_out[q] == all@[m];
                    assert(out@[q] == all@[m]);
                }
            }
        }
        i = i + 1;
    }
    assert forall|c: ChunkCoord| #[trigger] p(c) implies out@.contains(c) by {
        assert(sphere_pred(center, radius as int)(c));
        let m = choose|m: int| 0 <= m < all@.len() && all@[m] == c;
        assert(p(all@[m]));
    }
    proof {
        lemma_listing_is(out@, p);
    }
    out
}

/// When no chunk of the sphere has been generated, the missing chunks are
/// the whole sphere, in the same order.
pub proof fn law_missing_without_generated(center: ChunkCoord, radius: int, generated: Set<ChunkCoord>)
    requires
        forall|c: ChunkCoord| in_sphere(center, radius, c) ==> !generated.contains(c),
    ensures
        listing(missing_pred(center, radius, generated)) == listing(sphere_pred(center, radius)),
{
    assert(missing_pred(center, radius, generated) =~= sphere_pred(center, radius));
}

/// When every chunk of the sphere has been generated, no chunk is missing.
pub proof fn law_missing_when_all_generated(
    center: ChunkCoord,
    radius: int,
    generated: Set<ChunkCoord>,
    missing: Seq<ChunkCoord>,
)
    requires
        forall|c: ChunkCoord| in_sphere(center, radius, c) ==> generated.contains(c),
        lists_exactly(missing, missing_pred(center, radius, generated)),
    ensures
        missing.len() == 0,
{
    if missing.len() > 0 {
        assert(missing_pred(center, radius, generated)(missing[0]));
    }
}

/// The missing chunks are the chunks of the sphere listing that are not
/// generated, in the sphere's order.
pub proof fn law_missing_is_filtered_sphere(
    center: ChunkCoord,
    radius: int,
    generated: Set<ChunkCoord>,
    sphere: Seq<ChunkCoord>,
    missing: Seq<ChunkCoord>,
)
    requires
        lists_exactly(sphere, sphere_pred(center, radius)),
        lists_exactly(missing, missing_pred(center, radius, generated)),
    ensures
        missing == sphere.filter(not_generated(generated)),
{
    let q = not_generated(generated);
    let f = sphere.filter(q);
    let p = missing_pred(center, radius, generated);
    lemma_filter_listing(sphere, sphere_pred(center, radius), q);
    assert(p =~= and_pred(sphere_pred(center, radius), q));
    lemma_listing_unique(missing, f, p);
}

proof fn lemma_filter_listing(
    s: Seq<ChunkCoord>,
    p: spec_fn(ChunkCoord) -> bool,
    q: spec_fn(ChunkCoord) -> bool,
)
    requires
        lists_exactly(s, p),
    ensures
        lists_exactly(s.filter(q), and_pred(p, q)),
    decreases s.len(),
{
    reveal(Seq::filter);
    let pq = and_pred(p, q);
    let f = s.filter(q);
    if s.len() == 0 {
        assert(f =~= Seq::<ChunkCoord>::empty());
    } else {
        let t = s.drop_last();
        let last = s.last();
        let p2 = |c: ChunkCoord| p(c) && c != last;
        assert(lists_exactly(t, p2)) by {
            assert forall|i: int, j: int| 0 <= i < j < t.len() implies chunk_lt(#[trigger] t[i], #[trigger] t[j]) by {
                assert(t[i] == s[i]);
                assert(t[j] == s[j]);
            }
            assert forall|i: int| 0 <= i < t.len() implies #[trigger] p2(t[i]) by {
                assert(t[i] == s[i]);
                assert(chunk_lt(s[i], s[s.len() - 1]));
            }
            assert forall|c: ChunkCoord| #[trigger] p2(c) implies t.contains(c) by {
                let m = choose|m: int| 0 <= m < s.len() && s[m] == c;
                assert(m != s.len() - 1);
                assert(t[m] == c);
            }
        }
        lemma_filter_listing(t, p2, q);
        let ft = t.filter(q);
        let p2q = and_pred(p2, q);
        assert forall|i: int| 0 <= i < ft.len() implies #[trigger] chunk_lt(ft[i], last) by {
            assert(p2q(ft[i]));
            assert(t.contains(ft[i]));
            let m = choose|m: int| 0 <= m < t.len() && t[m] == ft[i];
            assert(s[m] == ft[i]);
            assert(chunk_lt(s[m], s[s.len() - 1]));
        }
        if q(last) {
            assert(f == ft.push(last));
            assert forall|i: int, j: int| 0 <= i < j < f.len() implies chunk_lt(#[trigger] f[i], #[trigger] f[j]) by {
                if j == f.len() - 1 {
                    assert(f[i] == ft[i]);
                } else {
                    assert(f[i] == ft[i]);
                    assert(f[j] == ft[j]);
                }
            }
            assert forall|i: int| 0 <= i < f.len() implies #[trigger] pq(f[i]) by {
                if i == f.len() - 1 {
                    assert(p(s[s.len() - 1]));
                    assert(f[i] == last);
                } else {
                    assert(f[i] == ft[i]);
                    assert(p2q(ft[i]));
                }
            }
            assert forall|c: ChunkCoord| #[trigger] pq(c) implies f.contains(c) by {
                if c == last {
                    assert(f[f.len() - 1] == c);
                } else {
                    assert(p2q(c));
                    let m = choose|m: int| 0 <= m < ft.len() && ft[m] == c;
                    assert(f[m] == c);
                }
            }
        } else {
            assert(f == ft);
            assert forall|i: int| 0 <= i < f.len() implies #[trigger] pq(f[i]) by {
                assert(p2q(ft[i]));
            }
            assert forall|c: ChunkCoord| #[trigger] pq(c) implies f.contains(c) by {
                assert(c != last);
                assert(p2q(c));
            }
        }
    }
}

} // verus!
