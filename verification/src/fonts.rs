use vstd::prelude::*;

verus! {

/// Pen state for laying out a line-broken string of glyphs, top-left
/// anchored at `(origin_x, y0)`.
pub struct TextCursor {
    /// Where each line starts.
    pub origin_x: i32,
    /// Current pen position.
    pub x: i32,
    pub y: i32,
    /// Vertical step of a line break.
    pub line_height: i32,
    /// Horizontal step of a space.
    pub space_advance: i32,
    /// Font size in whole pixels; glyphs hang from `y + size_px`.
    pub size_px: i32,
}

/// What a character asks of the caller.
#[derive(Clone, Copy, Debug, PartialEq, Eq, Structural)]
pub enum CharStep {
    /// A line break or a space: the cursor has moved; nothing to draw.
    Moved,
    /// Any other character: rasterise it, then place it with
    /// `glyph_origin` and move on with `advance`.
    Glyph,
}

/// `i32` holds `v`.
pub open spec fn fits_i32(v: int) -> bool {
    i32::MIN <= v <= i32::MAX
}

/// Every field but the pen position is the same in `a` and `b`.
pub open spec fn same_layout(a: TextCursor, b: TextCursor) -> bool {
    &&& b.origin_x == a.origin_x
    &&& b.line_height == a.line_height
    &&& b.space_advance == a.space_advance
    &&& b.size_px == a.size_px
}

impl TextCursor {
    /// A cursor at `(x, y)` with the given line height, space width and
    /// font size.
    pub fn new(x: i32, y: i32, line_height: i32, space_advance: i32, size_px: i32) -> (c: TextCursor)
        ensures
            c.origin_x == x,
            c.x == x,
            c.y == y,
            c.line_height == line_height,
            c.space_advance == space_advance,
            c.size_px == size_px,
    {
        TextCursor { origin_x: x, x, y, line_height, space_advance, size_px }
    }

    /// A line break returns the pen to the line start one line lower; a
    /// space moves it right by the space width; any other character leaves
    /// the pen where it is and asks for a glyph.
    pub fn step_char(&mut self, ch: char) -> (step: CharStep)
        requires
            ch == '\n' ==> fits_i32(old(self).y + old(self).line_height),
            ch == ' ' ==> fits_i32(old(self).x + old(self).space_advance),
        ensures
            same_layout(*old(self), *final(self)),
            ch == '\n' ==> step == CharStep::Moved && final(self).x == old(self).origin_x
                && final(self).y == old(self).y + old(self).line_height,
            ch == ' ' ==> step == CharStep::Moved && final(self).x == old(self).x + old(
                self,
            ).space_advance && final(self).y == old(self).y,
            ch != '\n' && ch != ' ' ==> step == CharStep::Glyph && final(self).x == old(self).x
                && final(self).y == old(self).y,
    {
        if ch == '\n' {
            self.x = self.origin_x;
            self.y = self.y + self.line_height;
            CharStep::Moved
        } else if ch == ' ' {
            self.x = self.x + self.space_advance;
            CharStep::Moved
        } else {
            CharStep::Glyph
        }
    }

    /// Top-left corner of a glyph bitmap of the given height whose
    /// bounding box is offset `(xmin, ymin)` from the pen (y up).
    pub fn glyph_origin(&self, xmin: i32, ymin: i32, height: i32) -> (p: (i32, i32))
        requires
            fits_i32(self.x + xmin),
            fits_i32(self.y + self.size_px),
            fits_i32(self.y + self.size_px - height),
            fits_i32(self.y + self.size_px - height - ymin),
        ensures
            p.0 == self.x + xmin,
            p.1 == self.y + self.size_px - height - ymin,
    {
        (self.x + xmin, self.y + self.size_px - height - ymin)
    }

    /// Moves the pen right by a glyph's advance width.
    pub fn advance(&mut self, advance: i32)
        requires
            fits_i32(old(self).x + advance),
        ensures
            same_layout(*old(self), *final(self)),
            final(self).x == old(self).x + advance,
            final(self).y == old(self).y,
    {
        self.x = self.x + advance;
    }
}

/// The byte at offset `off` of glyph row `gy`: the colour channels
/// `r, g, b`, then the coverage of the pixel as alpha.
pub open spec fn row_byte(
    off: int,
    gy: int,
    width: int,
    r: u8,
    g: u8,
    b: u8,
    coverage: Seq<u8>,
) -> u8 {
    let k = off % 4;
    if k == 0 {
        r
    } else if k == 1 {
        g
    } else if k == 2 {
        b
    } else {
        coverage[gy * width + off / 4]
    }
}

/// The last of the first `rows` glyph rows, `pitch` bytes apart, that can
/// reach byte `p`: the row starting at or before `p`, or the last row.
pub open spec fn last_row(p: int, pitch: int, rows: int) -> int {
    if pitch > 0 && p / pitch < rows {
        p / pitch
    } else {
        rows - 1
    }
}

/// Writing the first `rows` rows of a `width`-pixel glyph reaches byte `p`.
pub open spec fn reached(p: int, pitch: int, width: int, rows: int) -> bool {
    let gy = last_row(p, pitch, rows);
    &&& rows > 0
    &&& 0 <= p - gy * pitch < 4 * width
}

/// The value byte `p` holds after the first `rows` rows are written, when
/// they reach it: what the last row that reaches it writes there.
pub open spec fn reached_byte(
    p: int,
    pitch: int,
    width: int,
    rows: int,
    r: u8,
    g: u8,
    b: u8,
    coverage: Seq<u8>,
) -> u8 {
    let gy = last_row(p, pitch, rows);
    row_byte(p - gy * pitch, gy, width, r, g, b, coverage)
}

proof fn lemma_row_order(p: int, pitch: int, gy: int)
    requires
        pitch > 0,
        0 <= p,
        0 <= gy,
    ensures
        p / pitch >= gy <==> p >= gy * pitch,
        p / pitch < gy ==> p / pitch * pitch <= p,
        p / pitch < gy ==> 0 <= p / pitch,
        (gy - 1) * pitch == gy * pitch - pitch,
{
    vstd::arithmetic::div_mod::lemma_fundamental_div_mod(p, pitch);
    vstd::arithmetic::div_mod::lemma_div_pos_is_pos(p, pitch);
    let q = p / pitch;
    let r = p % pitch;
    assert(p == pitch * q + r && 0 <= r < pitch);
    assert(q >= gy ==> p >= gy * pitch) by (nonlinear_arith)
        requires
            p == pitch * q + r,
            0 <= r,
            pitch > 0,
    ;
    assert(q < gy ==> p < gy * pitch) by (nonlinear_arith)
        requires
            p == pitch * q + r,
            r < pitch,
            pitch > 0,
    ;
    assert(q * pitch <= p) by (nonlinear_arith)
        requires
            p == pitch * q + r,
            0 <= r,
    ;
    assert((gy - 1) * pitch == gy * pitch - pitch) by (nonlinear_arith);
}

proof fn lemma_row_start_le(gy: int, h: int, pitch: int)
    requires
        0 <= gy < h,
        pitch >= 0,
    ensures
        gy * pitch <= (h - 1) * pitch,
        0 <= gy * pitch,
{
    assert(gy * pitch <= (h - 1) * pitch) by (nonlinear_arith)
        requires
            0 <= gy < h,
            pitch >= 0,
    ;
    assert(0 <= gy * pitch) by (nonlinear_arith)
        requires
            0 <= gy,
            pitch >= 0,
    ;
}

proof fn lemma_cov_index(gy: int, gx: int, w: int, h: int)
    requires
        0 <= gy < h,
        0 <= gx < w,
    ensures
        0 <= gy * w + gx < w * h,
{
    assert(0 <= gy * w + gx < w * h) by (nonlinear_arith)
        requires
            0 <= gy < h,
            0 <= gx < w,
    ;
}

/// Fills a `width × height` glyph into an RGBA texture whose rows are
/// `pitch` bytes apart, row by row: each pixel gets the colour `r, g, b`
/// and, as alpha, its coverage from the row-major `coverage` bitmap. A
/// byte that some row reaches ends with what the last such row writes
/// there (rows overlap when `pitch < 4 * width`); every other byte is left
/// as it was.
pub fn fill_glyph_rgba(
    buf: &mut [u8],
    pitch: usize,
    width: usize,
    height: usize,
    r: u8,
    g: u8,
    b: u8,
    coverage: &[u8],
)
    requires
        width > 0 && height > 0 ==> (height - 1) * pitch + 4 * width <= old(buf)@.len(),
        width > 0 && height > 0 ==> width * height <= coverage@.len(),
    ensures
        final(buf)@.len() == old(buf)@.len(),
        width == 0 || height == 0 ==> final(buf)@ == old(buf)@,
        forall|p: int|
            0 <= p < old(buf)@.len() ==> #[trigger] final(buf)@[p] == if reached(
                p,
                pitch as int,
                width as int,
                height as int,
            ) {
                reached_byte(p, pitch as int, width as int, height as int, r, g, b, coverage@)
            } else {
                old(buf)@[p]
            },
{
    let ghost old_buf = buf@;
    let buf_len = buf.len();
    let cov_len = coverage.len();
    let mut gy: usize = 0;
    while gy < height
        invariant
            0 <= gy <= height,
            buf_len == old_buf.len(),
            cov_len == coverage@.len(),
            buf@.len() == old_buf.len(),
            width > 0 && height > 0 ==> (height - 1) * pitch + 4 * width <= old_buf.len(),
            width > 0 && height > 0 ==> width * height <= coverage@.len(),
            width == 0 ==> buf@ == old_buf,
            gy == 0 ==> buf@ == old_buf,
            forall|p: int|
                0 <= p < old_buf.len() ==> #[trigger] buf@[p] == if reached(
                    p,
                    pitch as int,
                    width as int,
                    gy as int,
                ) {
                    reached_byte(p, pitch as int, width as int, gy as int, r, g, b, coverage@)
                } else {
                    old_buf[p]
                },
        decreases height - gy,
    {
        let mut gx: usize = 0;
        proof {
            lemma_row_start_le(gy as int, height as int, pitch as int);
        }
        while gx < width
            invariant
                0 <= gy < height,
                0 <= gx <= width,
                buf_len == old_buf.len(),
                cov_len == coverage@.len(),
                buf@.len() == old_buf.len(),
                width > 0 ==> (height - 1) * pitch + 4 * width <= old_buf.len(),
                gy * pitch <= (height - 1) * pitch,
                0 <= gy * pitch,
                width > 0 ==> width * height <= coverage@.len(),
                width == 0 ==> buf@ == old_buf,
                forall|p: int|
                    0 <= p < old_buf.len() ==> #[trigger] buf@[p] == if 0 <= p - gy * pitch < 4
                        * gx {
                        row_byte(p - gy * pitch, gy as int, width as int, r, g, b, coverage@)
                    } else if reached(p, pitch as int, width as int, gy as int) {
                        reached_byte(p, pitch as int, width as int, gy as int, r, g, b, coverage@)
                    } else {
                        old_buf[p]
                    },
            decreases width - gx,
        {
            let dst: usize = gy * pitch + gx * 4;
            proof {
                lemma_cov_index(gy as int, gx as int, width as int, height as int);
            }
            let ci: usize = gy * width + gx;
            let ghost before = buf@;
            buf[dst] = r;
            buf[dst + 1] = g;
            buf[dst + 2] = b;
            buf[dst + 3] = coverage[ci];
            proof {
                assert forall|p: int| 0 <= p < old_buf.len() implies #[trigger] buf@[p] == if 0 <= p
                    - gy * pitch < 4 * (gx + 1) {
                    row_byte(p - gy * pitch, gy as int, width as int, r, g, b, coverage@)
                } else if reached(p, pitch as int, width as int, gy as int) {
                    reached_byte(p, pitch as int, width as int, gy as int, r, g, b, coverage@)
                } else {
                    old_buf[p]
                } by {
                    if dst <= p < dst + 4 {
                        let off = p - gy * pitch;
                        assert(off == 4 * gx + (p - dst));
                        assert(off / 4 == gx);
                        assert(off % 4 == p - dst);
                    } else {
                        assert(buf@[p] == before[p]);
                    }
                }
            }
            gx = gx + 1;
        }
        proof {
            assert forall|p: int| 0 <= p < old_buf.len() implies #[trigger] buf@[p] == if reached(
                p,
                pitch as int,
                width as int,
                gy + 1,
            ) {
                reached_byte(p, pitch as int, width as int, gy + 1, r, g, b, coverage@)
            } else {
                old_buf[p]
            } by {
                if pitch > 0 {
                    lemma_row_order(p, pitch as int, gy as int);
                } else {
                    assert(gy * pitch == 0) by (nonlinear_arith)
                        requires
                            pitch == 0,
                    ;
                    assert((gy - 1) * pitch == 0) by (nonlinear_arith)
                        requires
                            pitch == 0,
                    ;
                }
            }
        }
        gy = gy + 1;
    }
}

} // verus!
