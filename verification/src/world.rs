use rand::rngs::ThreadRng;
use rand::RngExt;
use roxlap_formats::vxl::Vxl;

use vstd::prelude::*;

verus! {

pub const VSID: u32 = 64;

/// Z-coord of the (one-voxel-thick) ground plane. Voxlap is **z-down**:
/// small z is up, large z is down.
pub const GROUND_Z: i32 = 200;

pub const CUBE_VXL_VSID: u32 = 16;
pub const CUBE_VXL_EDGE: i32 = 16;

/// World height of a voxel column: the number of z cells in a dense grid.
pub const MAXZDIM: usize = 256;

/// `roxlap_formats::vxl::Vxl`, a packed voxel world, carried through as an
/// opaque value.
#[verifier::external_type_specification]
#[verifier::external_body]
pub struct ExVxl(Vxl);

/// `rand::rngs::ThreadRng`, carried through as an opaque value.
#[verifier::external_type_specification]
#[verifier::external_body]
pub struct ExThreadRng(ThreadRng);

/// `rand::rng`: a handle to the thread-local generator. Nothing is stated
/// of it. The outside function panics if the operating system's random
/// source fails on first use; that case is not stated.
pub assume_specification[ rand::rng ]() -> ThreadRng;

/// Cell `z` of column `col` of a dense grid is solid.
pub open spec fn cell_solid(grid: Seq<u8>, col: int, z: int) -> bool {
    grid[col * 256 + z] != 0
}

/// Column `col` of a dense grid holds at most one solid run, and that run
/// is at most 16 voxels long.
pub open spec fn one_short_run(grid: Seq<u8>, col: int) -> bool {
    &&& forall|z1: int, z2: int, z3: int|
        0 <= z1 < z2 < z3 < 256 && #[trigger] cell_solid(grid, col, z1) && #[trigger] cell_solid(
            grid,
            col,
            z3,
        ) ==> #[trigger] cell_solid(grid, col, z2)
    &&& forall|z1: int, z2: int|
        0 <= z1 < z2 < 256 && #[trigger] cell_solid(grid, col, z1) && #[trigger] cell_solid(
            grid,
            col,
            z2,
        ) ==> z2 - z1 < 16
}

/// A dense grid that packing can take without exhausting its slab pool: the
/// pool (`vsid² × 520` bytes) fits in a `u32`, and every column holds at
/// most one short solid run, whose encoding fits the 512 bytes of headroom
/// reserved per column.
pub open spec fn packable(grid: Seq<u8>, vsid: u32) -> bool {
    &&& vsid <= 2873
    &&& forall|col: int| 0 <= col < vsid * vsid ==> #[trigger] one_short_run(grid, col)
}

/// The world that `roxlap_cavegen::pack_dense_grid_to_vxl` builds from a
/// mask, colours and side; a function of these alone.
pub uninterp spec fn packed_vxl(grid: Seq<u8>, color: Seq<u32>, vsid: u32) -> Vxl;

/// `roxlap_cavegen::pack_dense_grid_to_vxl`: folds a dense
/// `vsid × vsid × 256` mask and colour grid, indexed
/// `(y * vsid + x) * 256 + z`, into a packed world. It panics unless both
/// slices have exactly that length; it panics when the slab pool it
/// reserves (512 bytes per column) outgrows a `u32` or fills up. The
/// `requires` rules out all three: `packable` bounds `vsid` and lets each
/// column re-encode into far less than its 512 bytes, and every column is
/// re-encoded once. The result is stated only as the packing of the given
/// arguments; the packed world is opaque here.
pub assume_specification[ roxlap_cavegen::pack_dense_grid_to_vxl ](
    grid: &[u8],
    color: &[u32],
    vsid: u32,
) -> (v: Vxl)
    requires
        grid@.len() == vsid * vsid * 256,
        color@.len() == vsid * vsid * 256,
        packable(grid@, vsid),
    ensures
        v == packed_vxl(grid@, color@, vsid),
;

/// Calls `rand::RngExt::random::<u32>` on the generator. Nothing is stated
/// of the result: it is random.
#[verifier::external_body]
fn random_bits(rng: &mut ThreadRng) -> u32 {
    rng.random::<u32>()
}

/// Index of voxel `(x, y, z)` in a dense grid of side `vsid`.
pub open spec fn cell_index(vsid: int, x: int, y: int, z: int) -> int {
    (y * vsid + x) * MAXZDIM + z
}

/// Colour of a solid voxel made from 24 random bits: the top byte marks it
/// solid (0x80), the low 24 bits come from `bits`.
pub open spec fn voxel_colour_of(bits: u32) -> u32 {
    0x8000_0000u32 | (bits & 0x00FF_FFFFu32)
}

/// The top byte of `c` is 0x80.
pub open spec fn is_voxel_colour(c: u32) -> bool {
    c & 0xFF00_0000u32 == 0x8000_0000u32
}

/// Holds both the static ground world and the pre-lit cube world.
pub struct Worlds {
    pub base: Vxl,
    pub cube: Vxl,
}

/// A dense voxel mask (1 solid, 0 air) and the colour of each voxel.
pub struct DenseGrid {
    pub mask: Vec<u8>,
    pub colour: Vec<u32>,
    /// The random bits drawn for each solid cell, by cell index.
    pub draws: Ghost<Seq<u32>>,
}

/// The colour made from `bits`.
pub fn voxel_colour(bits: u32) -> (c: u32)
    ensures
        c == voxel_colour_of(bits),
        is_voxel_colour(c),
{
    let c = 0x8000_0000u32 | (bits & 0x00FF_FFFFu32);
    assert(is_voxel_colour(c)) by (bit_vector)
        requires
            c == 0x8000_0000u32 | (bits & 0x00FF_FFFFu32),
    ;
    c
}

/// A solid-voxel colour made from bits drawn from the generator; returns
/// the colour and the bits it was made from.
fn random_voxel_colour(rng: &mut ThreadRng) -> (r: (u32, Ghost<u32>))
    ensures
        is_voxel_colour(r.0),
        r.0 == voxel_colour_of(r.1@),
{
    let bits = random_bits(rng);
    (voxel_colour(bits), Ghost(bits))
}

/// A solid-voxel colour keeps the low 24 bits it is made from and marks
/// the top byte 0x80; so two draws that differ in their low 24 bits give
/// different colours.
pub proof fn law_voxel_colour_bits(a: u32, b: u32)
    ensures
        voxel_colour_of(a) & 0x00FF_FFFFu32 == a & 0x00FF_FFFFu32,
        voxel_colour_of(a) & 0xFF00_0000u32 == 0x8000_0000u32,
        voxel_colour_of(a) == voxel_colour_of(b) <==> a & 0x00FF_FFFFu32 == b & 0x00FF_FFFFu32,
{
    assert(voxel_colour_of(a) & 0x00FF_FFFFu32 == a & 0x00FF_FFFFu32) by (bit_vector);
    assert(voxel_colour_of(a) & 0xFF00_0000u32 == 0x8000_0000u32) by (bit_vector);
    assert(voxel_colour_of(a) == voxel_colour_of(b) <==> a & 0x00FF_FFFFu32 == b & 0x00FF_FFFFu32)
        by (bit_vector);
}

proof fn lemma_cell_decode(i: int, col: int, z: int)
    requires
        i == col * 256 + z,
        0 <= z < 256,
        0 <= col,
    ensures
        i / 256 == col,
        i % 256 == z,
{
    vstd::arithmetic::div_mod::lemma_fundamental_div_mod_converse(i, 256, col, z);
}

proof fn lemma_cell_encode(j: int)
    requires
        0 <= j,
    ensures
        j == (j / 256) * 256 + j % 256,
        0 <= j % 256 < 256,
        0 <= j / 256,
{
    vstd::arithmetic::div_mod::lemma_fundamental_div_mod(j, 256);
}

/// The flat ground world: a one-voxel-thick plane at `GROUND_Z` under every
/// column of the `VSID × VSID` map, each ground voxel a random solid colour;
/// every other voxel is air with colour 0.
pub fn ground_grid(rng: &mut ThreadRng) -> (g: DenseGrid)
    ensures
        g.mask@.len() == VSID * VSID * MAXZDIM,
        g.colour@.len() == VSID * VSID * MAXZDIM,
        forall|x: int, y: int, z: int|
            0 <= x < VSID && 0 <= y < VSID && 0 <= z < MAXZDIM ==> #[trigger] g.mask@[cell_index(
                VSID as int,
                x,
                y,
                z,
            )] == (if z == GROUND_Z {
                1u8
            } else {
                0u8
            }),
        forall|x: int, y: int, z: int|
            0 <= x < VSID && 0 <= y < VSID && 0 <= z < MAXZDIM ==> if z == GROUND_Z {
                is_voxel_colour(#[trigger] g.colour@[cell_index(VSID as int, x, y, z)])
            } else {
                g.colour@[cell_index(VSID as int, x, y, z)] == 0
            },
        g.draws@.len() == VSID * VSID * MAXZDIM,
        forall|x: int, y: int|
            0 <= x < VSID && 0 <= y < VSID ==> #[trigger] g.colour@[cell_index(
                VSID as int,
                x,
                y,
                GROUND_Z as int,
            )] == voxel_colour_of(g.draws@[cell_index(VSID as int, x, y, GROUND_Z as int)]),
{
    let cells: usize = 64 * 64 * 256;
    let n_cols: usize = 64 * 64;
    let mut mask = vec![0u8; cells];
    let mut colour = vec![0u32; cells];
    let ghost mut draws: Seq<u32> = Seq::new(cells as nat, |j: int| 0u32);
    let mut col: usize = 0;
    while col < n_cols
        invariant
            cells == 64 * 64 * 256,
            n_cols == 64 * 64,
            col <= n_cols,
            mask@.len() == cells,
            colour@.len() == cells,
            draws.len() == cells,
            forall|j: int|
                0 <= j < cells && j % 256 == 200 && j / 256 < col ==> #[trigger] colour@[j]
                    == voxel_colour_of(draws[j]),
            forall|j: int|
                0 <= j < cells ==> #[trigger] mask@[j] == (if j % 256 == 200 && j / 256 < col {
                    1u8
                } else {
                    0u8
                }),
            forall|j: int|
                0 <= j < cells ==> if j % 256 == 200 && j / 256 < col {
                    is_voxel_colour(#[trigger] colour@[j])
                } else {
                    colour@[j] == 0
                },
        decreases n_cols - col,
    {
        let i: usize = col * 256 + 200;
        proof {
            lemma_cell_decode(i as int, col as int, 200);
        }
        let (c, bits) = random_voxel_colour(rng);
        mask.set(i, 1u8);
        colour.set(i, c);
        proof {
            draws = draws.update(i as int, bits@);
            assert forall|j: int| #![trigger mask@[j]] #![trigger colour@[j]] 0 <= j < cells && j != i && j % 256 == 200 implies (j / 256 < col + 1
                <==> j / 256 < col) by {
                lemma_cell_encode(j);
            }
        }
        col = col + 1;
    }
    assert forall|x: int, y: int, z: int|
        #![trigger cell_index(VSID as int, x, y, z)]
        0 <= x < VSID && 0 <= y < VSID && 0 <= z < MAXZDIM implies {
        let i = cell_index(VSID as int, x, y, z);
        &&& 0 <= i < cells
        &&& i % 256 == z
        &&& i / 256 < n_cols
    } by {
        lemma_cell_decode(cell_index(VSID as int, x, y, z), y * 64 + x, z);
    }
    DenseGrid { mask, colour, draws: Ghost(draws) }
}

/// The centre of voxel `(x, y, z)` lies in the ball inscribed in the
/// `CUBE_VXL_VSID` cube: centre `vsid / 2`, radius `vsid / 2 - 1/2`,
/// measured here in half-voxel units so that the test is exact.
pub open spec fn in_ball(x: int, y: int, z: int) -> bool {
    let v = CUBE_VXL_VSID as int;
    (2 * x + 1 - v) * (2 * x + 1 - v) + (2 * y + 1 - v) * (2 * y + 1 - v) + (2 * z + 1 - v) * (2
        * z + 1 - v) <= (v - 1) * (v - 1)
}

spec fn ball_cell(j: int) -> bool {
    in_ball((j / 256) % 16, (j / 256) / 16, j % 256)
}

proof fn lemma_ball_low(x: int, y: int, z: int)
    requires
        z >= 16,
    ensures
        !in_ball(x, y, z),
{
    let a = 2 * x + 1 - 16;
    let b = 2 * y + 1 - 16;
    let c = 2 * z + 1 - 16;
    assert(a * a >= 0 && b * b >= 0) by (nonlinear_arith);
    assert(c * c >= 289) by (nonlinear_arith)
        requires
            c >= 17,
    ;
}

/// The asteroid ball: in a `CUBE_VXL_VSID`-sided grid, every voxel whose
/// centre lies in the inscribed ball is solid with a random colour; every
/// other voxel is air with colour 0.
pub fn cube_grid(rng: &mut ThreadRng) -> (g: DenseGrid)
    ensures
        g.mask@.len() == CUBE_VXL_VSID * CUBE_VXL_VSID * MAXZDIM,
        g.colour@.len() == CUBE_VXL_VSID * CUBE_VXL_VSID * MAXZDIM,
        forall|x: int, y: int, z: int|
            0 <= x < CUBE_VXL_VSID && 0 <= y < CUBE_VXL_VSID && 0 <= z < MAXZDIM
                ==> #[trigger] g.mask@[cell_index(CUBE_VXL_VSID as int, x, y, z)] == (if in_ball(
                x,
                y,
                z,
            ) {
                1u8
            } else {
                0u8
            }),
        forall|x: int, y: int, z: int|
            0 <= x < CUBE_VXL_VSID && 0 <= y < CUBE_VXL_VSID && 0 <= z < MAXZDIM ==> if in_ball(
                x,
                y,
                z,
            ) {
                is_voxel_colour(#[trigger] g.colour@[cell_index(CUBE_VXL_VSID as int, x, y, z)])
            } else {
                g.colour@[cell_index(CUBE_VXL_VSID as int, x, y, z)] == 0
            },
        g.draws@.len() == CUBE_VXL_VSID * CUBE_VXL_VSID * MAXZDIM,
        forall|x: int, y: int, z: int|
            0 <= x < CUBE_VXL_VSID && 0 <= y < CUBE_VXL_VSID && 0 <= z < MAXZDIM && in_ball(x, y, z)
                ==> #[trigger] g.colour@[cell_index(CUBE_VXL_VSID as int, x, y, z)]
                == voxel_colour_of(g.draws@[cell_index(CUBE_VXL_VSID as int, x, y, z)]),
{
    let cells: usize = 16 * 16 * 256;
    let n_cols: usize = 16 * 16;
    let mut mask = vec![0u8; cells];
    let mut colour = vec![0u32; cells];
    let ghost mut draws: Seq<u32> = Seq::new(cells as nat, |j: int| 0u32);
    let mut col: usize = 0;
    while col < n_cols
        invariant
            cells == 16 * 16 * 256,
            n_cols == 16 * 16,
            col <= n_cols,
            mask@.len() == cells,
            colour@.len() == cells,
            draws.len() == cells,
            forall|j: int|
                0 <= j < cells && #[trigger] mask@[j] == 1u8 ==> colour@[j] == voxel_colour_of(draws[j]),
            forall|j: int|
                0 <= j < cells ==> #[trigger] mask@[j] == (if j / 256 < col && ball_cell(j) {
                    1u8
                } else {
                    0u8
                }),
            forall|j: int|
                0 <= j < cells ==> if j / 256 < col && ball_cell(j) {
                    is_voxel_colour(#[trigger] colour@[j])
                } else {
                    colour@[j] == 0
                },
        decreases n_cols - col,
    {
        let x = col % 16;
        let y = col / 16;
        let mut z: usize = 0;
        while z < 16
            invariant
                cells == 16 * 16 * 256,
                n_cols == 16 * 16,
                col < n_cols,
                x == col % 16,
                y == col / 16,
                z <= 16,
                mask@.len() == cells,
                colour@.len() == cells,
                draws.len() == cells,
                forall|j: int|
                    0 <= j < cells && #[trigger] mask@[j] == 1u8 ==> colour@[j] == voxel_colour_of(
                        draws[j],
                    ),
                forall|j: int|
                    0 <= j < cells ==> #[trigger] mask@[j] == (if (j / 256 < col || (j / 256 == col
                        && j % 256 < z)) && ball_cell(j) {
                        1u8
                    } else {
                        0u8
                    }),
                forall|j: int|
                    0 <= j < cells ==> if (j / 256 < col || (j / 256 == col && j % 256 < z))
                        && ball_cell(j) {
                        is_voxel_colour(#[trigger] colour@[j])
                    } else {
                        colour@[j] == 0
                    },
            decreases 16 - z,
        {
            let i: usize = col * 256 + z;
            proof {
                lemma_cell_decode(i as int, col as int, z as int);
            }
            let dx: i64 = 2 * (x as i64) + 1 - 16;
            let dy: i64 = 2 * (y as i64) + 1 - 16;
            let dz: i64 = 2 * (z as i64) + 1 - 16;
            assert(0 <= dx * dx <= 225 && 0 <= dy * dy <= 225 && 0 <= dz * dz <= 225) by (nonlinear_arith)
                requires
                    -15 <= dx <= 15,
                    -15 <= dy <= 15,
                    -15 <= dz <= 15,
            ;
            if dx * dx + dy * dy + dz * dz <= 225 {
                assert(ball_cell(i as int));
                let (c, bits) = random_voxel_colour(rng);
                mask.set(i, 1u8);
                colour.set(i, c);
                proof {
                    draws = draws.update(i as int, bits@);
                }
            } else {
                assert(!ball_cell(i as int));
            }
            proof {
                assert forall|j: int| #![trigger mask@[j]] 0 <= j < cells && j != i implies ((j / 256 < col || (j / 256
                    == col && j % 256 < z + 1)) <==> (j / 256 < col || (j / 256 == col && j % 256
                    < z))) by {
                    lemma_cell_encode(j);
                }
            }
            z = z + 1;
        }
        proof {
            assert forall|j: int| #![trigger mask@[j]] #![trigger colour@[j]] 0 <= j < cells && j / 256 == col && j % 256 >= 16 implies !ball_cell(
                j,
            ) by {
                lemma_ball_low((j / 256) % 16, (j / 256) / 16, j % 256);
            }
        }
        col = col + 1;
    }
    assert forall|x: int, y: int, z: int|
        #![trigger cell_index(CUBE_VXL_VSID as int, x, y, z)]
        0 <= x < CUBE_VXL_VSID && 0 <= y < CUBE_VXL_VSID && 0 <= z < MAXZDIM implies {
        let i = cell_index(CUBE_VXL_VSID as int, x, y, z);
        &&& 0 <= i < cells
        &&& i / 256 < n_cols
        &&& ball_cell(i) == in_ball(x, y, z)
        &&& in_ball(x, y, z) ==> mask@[i] == 1u8 && colour@[i] == voxel_colour_of(draws[i])
    } by {
        let i = cell_index(CUBE_VXL_VSID as int, x, y, z);
        lemma_cell_decode(i, y * 16 + x, z);
        vstd::arithmetic::div_mod::lemma_fundamental_div_mod_converse(y * 16 + x, 16, y, x);
        assert(mask@[i] == (if i / 256 < col && ball_cell(i) {
            1u8
        } else {
            0u8
        }));
    }
    DenseGrid { mask, colour, draws: Ghost(draws) }
}

/// `mask` and `colour` form the flat ground world: a one-voxel-thick
/// plane at `GROUND_Z` under every column of the `VSID × VSID` map, each
/// ground voxel a solid colour; every other voxel air with colour 0.
pub open spec fn is_ground_grid(mask: Seq<u8>, colour: Seq<u32>) -> bool {
    &&& mask.len() == VSID * VSID * MAXZDIM
    &&& colour.len() == VSID * VSID * MAXZDIM
    &&& forall|x: int, y: int, z: int|
        0 <= x < VSID && 0 <= y < VSID && 0 <= z < MAXZDIM ==> #[trigger] mask[cell_index(
            VSID as int,
            x,
            y,
            z,
        )] == (if z == GROUND_Z {
            1u8
        } else {
            0u8
        })
    &&& forall|x: int, y: int, z: int|
        0 <= x < VSID && 0 <= y < VSID && 0 <= z < MAXZDIM ==> if z == GROUND_Z {
            is_voxel_colour(#[trigger] colour[cell_index(VSID as int, x, y, z)])
        } else {
            colour[cell_index(VSID as int, x, y, z)] == 0
        }
}

/// `mask` and `colour` form the asteroid ball: in a `CUBE_VXL_VSID`-sided
/// grid, every voxel whose centre lies in the inscribed ball is solid with
/// a solid colour; every other voxel is air with colour 0.
pub open spec fn is_ball_grid(mask: Seq<u8>, colour: Seq<u32>) -> bool {
    &&& mask.len() == CUBE_VXL_VSID * CUBE_VXL_VSID * MAXZDIM
    &&& colour.len() == CUBE_VXL_VSID * CUBE_VXL_VSID * MAXZDIM
    &&& forall|x: int, y: int, z: int|
        0 <= x < CUBE_VXL_VSID && 0 <= y < CUBE_VXL_VSID && 0 <= z < MAXZDIM
            ==> #[trigger] mask[cell_index(CUBE_VXL_VSID as int, x, y, z)] == (if in_ball(x, y, z) {
            1u8
        } else {
            0u8
        })
    &&& forall|x: int, y: int, z: int|
        0 <= x < CUBE_VXL_VSID && 0 <= y < CUBE_VXL_VSID && 0 <= z < MAXZDIM ==> if in_ball(
            x,
            y,
            z,
        ) {
            is_voxel_colour(#[trigger] colour[cell_index(CUBE_VXL_VSID as int, x, y, z)])
        } else {
            colour[cell_index(CUBE_VXL_VSID as int, x, y, z)] == 0
        }
}

proof fn lemma_column_cell(col: int, side: int, z: int)
    requires
        0 <= col,
        side > 0,
    ensures
        0 <= col % side < side,
        0 <= col / side,
        cell_index(side, col % side, col / side, z) == col * 256 + z,
{
    vstd::arithmetic::div_mod::lemma_fundamental_div_mod(col, side);
    vstd::arithmetic::div_mod::lemma_div_pos_is_pos(col, side);
    vstd::arithmetic::mul::lemma_mul_is_commutative(col / side, side);
}

/// The ground world can be packed.
proof fn lemma_ground_packable(mask: Seq<u8>, colour: Seq<u32>)
    requires
        is_ground_grid(mask, colour),
    ensures
        packable(mask, VSID),
{
    assert forall|col: int| 0 <= col < VSID * VSID implies #[trigger] one_short_run(mask, col) by {
        assert forall|z: int| 0 <= z < 256 implies #[trigger] cell_solid(mask, col, z) == (z == 200) by {
            lemma_column_cell(col, 64, z);
            assert(col / 64 < 64);
            assert(mask[cell_index(64, col % 64, col / 64, z)] == (if z == 200 {
                1u8
            } else {
                0u8
            }));
        }
    }
}

proof fn lemma_ball_convex(x: int, y: int, z1: int, z2: int, z3: int)
    requires
        z1 < z2 < z3,
        in_ball(x, y, z1),
        in_ball(x, y, z3),
    ensures
        in_ball(x, y, z2),
{
    let a = 2 * z1 + 1 - 16;
    let b = 2 * z2 + 1 - 16;
    let c = 2 * z3 + 1 - 16;
    assert(b * b <= a * a || b * b <= c * c) by (nonlinear_arith)
        requires
            a < b < c,
    ;
}

/// The ball can be packed.
proof fn lemma_ball_packable(mask: Seq<u8>, colour: Seq<u32>)
    requires
        is_ball_grid(mask, colour),
    ensures
        packable(mask, CUBE_VXL_VSID),
{
    assert forall|col: int| 0 <= col < CUBE_VXL_VSID * CUBE_VXL_VSID implies #[trigger] one_short_run(
        mask,
        col,
    ) by {
        let x = col % 16;
        let y = col / 16;
        assert forall|z: int| 0 <= z < 256 implies #[trigger] cell_solid(mask, col, z) == in_ball(
            x,
            y,
            z,
        ) by {
            lemma_column_cell(col, 16, z);
            assert(y < 16);
            assert(mask[cell_index(16, x, y, z)] == (if in_ball(x, y, z) {
                1u8
            } else {
                0u8
            }));
        }
        assert forall|z1: int, z2: int, z3: int|
            0 <= z1 < z2 < z3 < 256 && #[trigger] cell_solid(mask, col, z1) && #[trigger] cell_solid(
                mask,
                col,
                z3,
            ) implies #[trigger] cell_solid(mask, col, z2) by {
            lemma_ball_convex(x, y, z1, z2, z3);
        }
        assert forall|z1: int, z2: int|
            0 <= z1 < z2 < 256 && #[trigger] cell_solid(mask, col, z1) && #[trigger] cell_solid(
                mask,
                col,
                z2,
            ) implies z2 - z1 < 16 by {
            if z2 >= 16 {
                lemma_ball_low(x, y, z2);
            }
        }
    }
}

/// The static ground world: a ground grid (`is_ground_grid`) packed into a
/// `VSID` map.
pub fn build_world() -> (v: Vxl)
    ensures
        exists|m: Seq<u8>, c: Seq<u32>| is_ground_grid(m, c) && v == packed_vxl(m, c, VSID),
{
    let mut rng = rand::rng();
    let g = ground_grid(&mut rng);
    assert(is_ground_grid(g.mask@, g.colour@));
    proof {
        lemma_ground_packable(g.mask@, g.colour@);
    }
    roxlap_cavegen::pack_dense_grid_to_vxl(g.mask.as_slice(), g.colour.as_slice(), VSID)
}

/// The asteroid model: a ball grid (`is_ball_grid`) packed into a
/// `CUBE_VXL_VSID` map.
pub fn build_cube_vxl() -> (v: Vxl)
    ensures
        exists|m: Seq<u8>, c: Seq<u32>| is_ball_grid(m, c) && v == packed_vxl(m, c, CUBE_VXL_VSID),
{
    let mut rng = rand::rng();
    let g = cube_grid(&mut rng);
    assert(is_ball_grid(g.mask@, g.colour@));
    proof {
        lemma_ball_packable(g.mask@, g.colour@);
    }
    roxlap_cavegen::pack_dense_grid_to_vxl(g.mask.as_slice(), g.colour.as_slice(), CUBE_VXL_VSID)
}

} // verus!
