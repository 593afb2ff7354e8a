//! The framebuffer: a fixed-size indexed-color canvas together with a
//! same-sized depth buffer, addressed row-major as `y * width + x`. Writes
//! are depth tested: a span pixel lands only when its interpolated depth is
//! strictly greater than what the depth buffer holds ("greater wins").

use crate::interpolate::{lerp, lerp_floor};
use crate::num::{ceil_div_i128, filled, floor_div_i128, lemma_div_below, lemma_floor_div_bounds,
    lemma_mul_bounds, lemma_row_major, COORD_LIMIT, SUBPIX};
use vstd::prelude::*;

verus! {

/// Number of palette entries; every color index stays below this.
pub const COLOR_DEPTH: usize = 32;

/// Depth-buffer value meaning "nothing drawn here yet"; it stands for the
/// negative infinity the cleared depth buffer is seeded with, so the first
/// real write at a pixel always wins.
pub const DEPTH_EMPTY: i64 = i64::MIN;

/// Largest framebuffer side length, in pixels; keeps row-major addressing
/// and subpixel span arithmetic inside the machine integer ranges.
pub const MAX_DIM: usize = 4096;

/// Largest pixel-duplication factor of the scaled RGB output.
pub const MAX_SCALE: usize = 8;

/// The mathematical state of a framebuffer.
#[verifier::ext_equal]
pub struct BufModel {
    pub width: int,
    pub height: int,
    pub scale: int,
    pub palette: Seq<u32>,
    pub canvas: Seq<u8>,
    pub depth: Seq<int>,
}

/// Clamp a span bound into `[0, w]`.
pub open spec fn clamp_idx(v: int, w: int) -> int {
    if v < 0 {
        0
    } else if v > w {
        w
    } else {
        v
    }
}

/// Clamp a pixel coordinate into `[0, hi)`.
pub open spec fn clamp_coord(v: int, hi: int) -> int {
    if v < 0 {
        0
    } else if v >= hi {
        hi - 1
    } else {
        v
    }
}

/// The canvas pixel behind position `j` of the scaled RGB output: `j` is
/// row-major in a canvas blown up `scale` times along both axes.
pub open spec fn rgb_src(m: BufModel, j: int) -> int {
    let ws = m.width * m.scale;
    ((j / ws) / m.scale) * m.width + ((j % ws) / m.scale)
}

/// The depth of span pixel `x`: the line through `(x1, z1)` and `(x2, z2)`
/// (subpixel coordinates), sampled at the pixel's position and floored to
/// the depth grid.
pub open spec fn span_z(x1: int, x2: int, z1: int, z2: int, x: int) -> int {
    lerp_floor(z1, x1, z2, x2, x * SUBPIX)
}

impl BufModel {
    pub open spec fn wf(self) -> bool {
        &&& 0 <= self.width <= MAX_DIM
        &&& 0 <= self.height <= MAX_DIM
        &&& 0 <= self.scale <= MAX_SCALE
        &&& self.palette.len() == COLOR_DEPTH
        &&& self.canvas.len() == self.width * self.height
        &&& self.depth.len() == self.width * self.height
        &&& forall|i: int| 0 <= i < self.canvas.len() ==> (#[trigger] self.canvas[i]) < COLOR_DEPTH
    }

    /// The state after a clear: background color everywhere, empty depth.
    pub open spec fn cleared(self) -> BufModel {
        BufModel {
            canvas: Seq::new(self.canvas.len(), |i: int| 0u8),
            depth: Seq::new(self.depth.len(), |i: int| DEPTH_EMPTY as int),
            ..self
        }
    }

    /// First pixel of the span `[x1, x2]` (subpixel bounds): the left edge
    /// rounds up to the next pixel center, clamped into the canvas.
    pub open spec fn span_start(self, x1: int) -> int {
        clamp_idx((x1 + SUBPIX - 1) / (SUBPIX as int), self.width)
    }

    /// One past the last pixel of the span: the right edge rounds down,
    /// plus one, clamped into the canvas.
    pub open spec fn span_end(self, x2: int) -> int {
        clamp_idx(x2 / (SUBPIX as int) + 1, self.width)
    }

    /// The state after the depth-tested pixels `[span_start, hi)` of a
    /// horizontal span at row `y` have been written.
    pub open spec fn span_upto(
        self,
        x1: int,
        x2: int,
        y: int,
        z1: int,
        z2: int,
        color: u8,
        hi: int,
    ) -> BufModel {
        let row = y * self.width;
        let xs = self.span_start(x1);
        BufModel {
            canvas: Seq::new(
                self.canvas.len(),
                |i: int|
                    if xs <= i - row < hi && span_z(x1, x2, z1, z2, i - row) > self.depth[i] {
                        color
                    } else {
                        self.canvas[i]
                    },
            ),
            depth: Seq::new(
                self.depth.len(),
                |i: int|
                    if xs <= i - row < hi && span_z(x1, x2, z1, z2, i - row) > self.depth[i] {
                        span_z(x1, x2, z1, z2, i - row)
                    } else {
                        self.depth[i]
                    },
            ),
            ..self
        }
    }

    /// The state after a whole horizontal span write: rows outside the
    /// canvas are silently dropped; covered pixels take the span's color and
    /// interpolated depth exactly where the depth test passes.
    pub open spec fn h_line_model(
        self,
        x1: int,
        x2: int,
        y: int,
        z1: int,
        z2: int,
        color: u8,
    ) -> BufModel {
        if y < 0 || y >= self.height {
            self
        } else {
            self.span_upto(x1, x2, y, z1, z2, color, self.span_end(x2))
        }
    }

    /// Clearing twice in a row leaves exactly the state one clear leaves:
    /// background everywhere, empty depth everywhere.
    pub proof fn lemma_clear_idempotent(self)
        ensures
            self.cleared().cleared() == self.cleared(),
    {
        assert(self.cleared().cleared().canvas =~= self.cleared().canvas);
        assert(self.cleared().cleared().depth =~= self.cleared().depth);
        assert(self.cleared().cleared() =~= self.cleared());
    }

    /// The state after a clamped single-pixel write (no depth test).
    pub open spec fn pix_model(self, x: int, y: int, color: u8) -> BufModel {
        if self.width == 0 || self.height == 0 {
            self
        } else {
            let i = clamp_coord(y, self.height) * self.width + clamp_coord(x, self.width);
            BufModel { canvas: self.canvas.update(i, color), ..self }
        }
    }
}

/// The framebuffer. `canvas` holds one palette index per pixel and
/// `z_buffer` the depth that wrote it, both `width * height` long and
/// aligned to the same row-major addressing.
pub struct Buffer {
    pub width: usize,
    pub height: usize,
    /// Map of color indices to displayable RGB values.
    pub palette: [u32; 32],
    pub canvas: Vec<u8>,
    pub z_buffer: Vec<i64>,
    /// Pixel-duplication factor of the scaled RGB output.
    pub scale: usize,
}

impl View for Buffer {
    type V = BufModel;

    open spec fn view(&self) -> BufModel {
        BufModel {
            width: self.width as int,
            height: self.height as int,
            scale: self.scale as int,
            palette: self.palette@,
            canvas: self.canvas@,
            depth: self.z_buffer@.map_values(|v: i64| v as int),
        }
    }
}

impl Buffer {
    pub fn new(width: usize, height: usize, palette: [u32; 32], scale: usize) -> (r: Buffer)
        requires
            width <= MAX_DIM,
            height <= MAX_DIM,
            scale <= MAX_SCALE,
        ensures
            r@.wf(),
            r@.width == width,
            r@.height == height,
            r@.scale == scale,
            r@.palette == palette@,
            r@ == (BufModel {
                width: width as int,
                height: height as int,
                scale: scale as int,
                palette: palette@,
                canvas: Seq::new((width * height) as nat, |i: int| 0u8),
                depth: Seq::new((width * height) as nat, |i: int| DEPTH_EMPTY as int),
            }),
    {
        proof {
            lemma_mul_bounds(width as int, height as int, MAX_DIM as int, MAX_DIM as int);
        }
        let len = width * height;
        let r = Buffer {
            width,
            height,
            palette,
            canvas: filled(len, 0u8),
            z_buffer: filled(len, DEPTH_EMPTY),
            scale,
        };
        proof {
            assert(r@.canvas =~= Seq::new((width * height) as nat, |i: int| 0u8));
            assert(r@.depth =~= Seq::new((width * height) as nat, |i: int| DEPTH_EMPTY as int));
            assert(r@ =~= (BufModel {
                width: width as int,
                height: height as int,
                scale: scale as int,
                palette: palette@,
                canvas: Seq::new((width * height) as nat, |i: int| 0u8),
                depth: Seq::new((width * height) as nat, |i: int| DEPTH_EMPTY as int),
            }));
        }
        r
    }

    /// Current canvas width.
    pub fn width(&self) -> (r: usize)
        ensures
            r == self@.width,
    {
        self.width
    }

    /// Current canvas height.
    pub fn height(&self) -> (r: usize)
        ensures
            r == self@.height,
    {
        self.height
    }

    /// Read-only view of the canvas of palette indices.
    pub fn canvas(&self) -> (r: &Vec<u8>)
        ensures
            r@ == self@.canvas,
    {
        &self.canvas
    }

    /// Read-only view of the depth buffer.
    pub fn depths(&self) -> (r: &Vec<i64>)
        ensures
            r@.map_values(|v: i64| v as int) == self@.depth,
    {
        &self.z_buffer
    }

    /// Reset the canvas to the background color and the depth buffer to
    /// "nothing drawn", so every first write of the next frame wins.
    pub fn clear_screen(&mut self)
        requires
            old(self)@.wf(),
        ensures
            final(self)@.wf(),
            final(self)@ == old(self)@.cleared(),
    {
        proof {
            lemma_mul_bounds(self.width as int, self.height as int, MAX_DIM as int, MAX_DIM as int);
        }
        let len = self.width * self.height;
        self.canvas = filled(len, 0u8);
        self.z_buffer = filled(len, DEPTH_EMPTY);
        proof {
            assert(self@.canvas =~= old(self)@.cleared().canvas);
            assert(self@.depth =~= old(self)@.cleared().depth);
            assert(self@ =~= old(self)@.cleared());
        }
    }

    /// Clamp a possibly out-of-range coordinate into `[0, max)`.
    fn clamp_i32(x: i32, max: usize) -> (r: usize)
        requires
            1 <= max,
        ensures
            r == clamp_coord(x as int, max as int),
    {
        if x < 0 {
            0
        } else if x as usize >= max {
            max - 1
        } else {
            x as usize
        }
    }

    /// Set an indexed color at `(x, y)`, clamping both coordinates into the
    /// canvas; no depth test is applied.
    pub fn pix(&mut self, x: i32, y: i32, color: u8)
        requires
            old(self)@.wf(),
            color < COLOR_DEPTH,
        ensures
            final(self)@.wf(),
            final(self)@ == old(self)@.pix_model(x as int, y as int, color),
    {
        if self.width == 0 || self.height == 0 {
            return ;
        }
        let cx = Self::clamp_i32(x, self.width);
        let cy = Self::clamp_i32(y, self.height);
        proof {
            lemma_row_major(cx as int, cy as int, self.width as int, self.height as int);
            lemma_mul_bounds(self.width as int, self.height as int, MAX_DIM as int, MAX_DIM as int);
        }
        let idx = cy * self.width + cx;
        self.canvas[idx] = color;
        proof {
            assert(self@ =~= old(self)@.pix_model(x as int, y as int, color));
        }
    }

    /// Draw a depth-tested horizontal span at pixel row `y`. The bounds
    /// `x1, x2` and the depths `z1, z2` are subpixel coordinates: the span
    /// covers the pixels whose centers lie inside `[x1, x2]`, clamped into
    /// the canvas (a row outside the canvas is silently dropped), and each
    /// covered pixel takes the depth of the line through `(x1, z1)` and
    /// `(x2, z2)` at its position; the pixel is written only where that
    /// depth strictly beats the stored one.
    pub fn h_line(&mut self, x1: i64, x2: i64, y: i32, z1: i64, z2: i64, color: u8)
        requires
            old(self)@.wf(),
            color < COLOR_DEPTH,
            -COORD_LIMIT <= x1 <= COORD_LIMIT,
            -COORD_LIMIT <= x2 <= COORD_LIMIT,
            -COORD_LIMIT <= z1 <= COORD_LIMIT,
            -COORD_LIMIT <= z2 <= COORD_LIMIT,
        ensures
            final(self)@.wf(),
            final(self)@ == old(self)@.h_line_model(
                x1 as int,
                x2 as int,
                y as int,
                z1 as int,
                z2 as int,
                color,
            ),
    {
        if y < 0 {
            return ;
        }
        let yy = y as usize;
        if yy >= self.height {
            return ;
        }
        let xs_raw = ceil_div_i128(x1 as i128, 256);
        let xe_raw = floor_div_i128(x2 as i128, 256) + 1;
        proof {
            lemma_floor_div_bounds(x1 as int + 255, 256);
            lemma_floor_div_bounds(x2 as int, 256);
        }
        let xs: usize = if xs_raw < 0 {
            0
        } else if xs_raw > self.width as i128 {
            self.width
        } else {
            xs_raw as usize
        };
        let xe: usize = if xe_raw < 0 {
            0
        } else if xe_raw > self.width as i128 {
            self.width
        } else {
            xe_raw as usize
        };
        proof {
            lemma_mul_bounds(yy as int, self.width as int, MAX_DIM as int, MAX_DIM as int);
        }
        if xs >= xe {
            proof {
                assert(self@.canvas =~= old(self)@.h_line_model(
                    x1 as int, x2 as int, y as int, z1 as int, z2 as int, color,
                ).canvas);
                assert(self@.depth =~= old(self)@.h_line_model(
                    x1 as int, x2 as int, y as int, z1 as int, z2 as int, color,
                ).depth);
                assert(self@ =~= old(self)@.h_line_model(
                    x1 as int, x2 as int, y as int, z1 as int, z2 as int, color,
                ));
            }
            return ;
        }
        let row = yy * self.width;
        let mut x = xs;
        proof {
            assert(self@.canvas =~= old(self)@.span_upto(
                x1 as int, x2 as int, y as int, z1 as int, z2 as int, color, xs as int,
            ).canvas);
            assert(self@.depth =~= old(self)@.span_upto(
                x1 as int, x2 as int, y as int, z1 as int, z2 as int, color, xs as int,
            ).depth);
            assert(self@ =~= old(self)@.span_upto(
                x1 as int, x2 as int, y as int, z1 as int, z2 as int, color, xs as int,
            ));
        }
        while x < xe
            invariant
                self@ == old(self)@.span_upto(
                    x1 as int, x2 as int, y as int, z1 as int, z2 as int, color, x as int,
                ),
                self@.wf(),
                old(self)@.wf(),
                color < COLOR_DEPTH,
                -COORD_LIMIT <= x1 <= COORD_LIMIT,
                -COORD_LIMIT <= x2 <= COORD_LIMIT,
                -COORD_LIMIT <= z1 <= COORD_LIMIT,
                -COORD_LIMIT <= z2 <= COORD_LIMIT,
                0 <= y as int && (y as int) < old(self)@.height,
                yy as int == y as int,
                xs as int == old(self)@.span_start(x1 as int),
                xe as int == old(self)@.span_end(x2 as int),
                xs <= x <= xe,
                xe as int <= old(self)@.width,
                row as int == y as int * old(self)@.width,
            decreases xe - x,
        {
            let ghost xo = x as int;
            let xi = x as i64;
            let z = lerp(z1, x1, z2, x2, xi * 256);
            proof {
                lemma_row_major(x as int, y as int, old(self)@.width, old(self)@.height);
                lemma_mul_bounds(
                    old(self)@.width,
                    old(self)@.height,
                    MAX_DIM as int,
                    MAX_DIM as int,
                );
            }
            let idx = row + x;
            let ghost pre = self@;
            if z > self.z_buffer[idx] {
                self.z_buffer[idx] = z;
                self.canvas[idx] = color;
            }
            x = x + 1;
            proof {
                let m0 = old(self)@;
                let cur = m0.span_upto(
                    x1 as int, x2 as int, y as int, z1 as int, z2 as int, color, xo + 1,
                );
                assert(z == span_z(x1 as int, x2 as int, z1 as int, z2 as int, xo));
                assert forall|i: int| 0 <= i < self@.canvas.len() implies self@.canvas[i]
                    == cur.canvas[i] by {
                    let row0 = (y as int) * m0.width;
                    if i == idx as int {
                        assert(i - row0 == xo);
                        assert(xs as int <= xo < xo + 1);
                        assert(pre.depth[i] == m0.depth[i]);
                        if z as int > m0.depth[i] {
                            assert(self@.canvas[i] == color);
                            assert(cur.canvas[i] == color);
                        } else {
                            assert(self@.canvas[i] == pre.canvas[i]);
                            assert(pre.canvas[i] == m0.canvas[i]);
                            assert(cur.canvas[i] == m0.canvas[i]);
                        }
                    } else {
                        assert(!(xs as int <= i - row0 < xo + 1) || (xs as int <= i - row0 < xo));
                        assert(self@.canvas[i] == pre.canvas[i]);
                    }
                }
                assert forall|i: int| 0 <= i < self@.depth.len() implies self@.depth[i]
                    == cur.depth[i] by {
                    let row0 = (y as int) * m0.width;
                    if i == idx as int {
                        assert(i - row0 == xo);
                        assert(pre.depth[i] == m0.depth[i]);
                        if z as int > m0.depth[i] {
                            assert(self@.depth[i] == z as int);
                            assert(cur.depth[i] == span_z(x1 as int, x2 as int, z1 as int, z2 as int, xo));
                        } else {
                            assert(self@.depth[i] == pre.depth[i]);
                            assert(cur.depth[i] == m0.depth[i]);
                        }
                    } else {
                        assert(!(xs as int <= i - row0 < xo + 1) || (xs as int <= i - row0 < xo));
                        assert(self@.depth[i] == pre.depth[i]);
                    }
                }
                assert(self@.canvas =~= cur.canvas);
                assert(self@.depth =~= cur.depth);
                assert(self@ =~= cur);
            }
        }
        proof {
            assert(final(self)@ == old(self)@.h_line_model(
                x1 as int, x2 as int, y as int, z1 as int, z2 as int, color,
            ));
        }
    }

    /// The canvas resolved through the palette and blown up `scale` times
    /// along both axes, ready for display.
    pub fn rgb_pixels(&self) -> (v: Vec<u32>)
        requires
            self@.wf(),
        ensures
            v@.len() == (self@.width * self@.scale) * (self@.height * self@.scale),
            forall|j: int|
                0 <= j < v@.len() ==> #[trigger] v@[j] == self@.palette[self@.canvas[rgb_src(
                    self@,
                    j,
                )] as int],
    {
        proof {
            lemma_mul_bounds(self.width as int, self.scale as int, MAX_DIM as int, MAX_SCALE as int);
            lemma_mul_bounds(self.height as int, self.scale as int, MAX_DIM as int, MAX_SCALE as int);
        }
        let ws = self.width * self.scale;
        let hs = self.height * self.scale;
        proof {
            lemma_mul_bounds(ws as int, hs as int, 32768, 32768);
        }
        let mut v: Vec<u32> = Vec::new();
        let mut y: usize = 0;
        while y < hs
            invariant
                self@.wf(),
                ws as int == self@.width * self@.scale,
                hs as int == self@.height * self@.scale,
                ws <= 32768,
                hs <= 32768,
                y <= hs,
                v@.len() == y * ws,
                forall|j: int|
                    0 <= j < v@.len() ==> #[trigger] v@[j] == self@.palette[self@.canvas[rgb_src(
                        self@,
                        j,
                    )] as int],
            decreases hs - y,
        {
            let mut x: usize = 0;
            proof {
                lemma_mul_bounds(y as int, ws as int, 32768, 32768);
            }
            while x < ws
                invariant
                    self@.wf(),
                    ws as int == self@.width * self@.scale,
                    hs as int == self@.height * self@.scale,
                    ws <= 32768,
                    hs <= 32768,
                    y < hs,
                    x <= ws,
                    v@.len() == y * ws + x,
                    forall|j: int|
                        0 <= j < v@.len() ==> #[trigger] v@[j] == self@.palette[self@.canvas[
                            rgb_src(self@, j)] as int],
                decreases ws - x,
            {
                proof {
                    assert(self@.width >= 1 && self@.scale >= 1) by (nonlinear_arith)
                        requires
                            self@.width * self@.scale >= 1,
                            0 <= self@.width,
                            0 <= self@.scale,
                    ;
                    assert(self@.height >= 1) by (nonlinear_arith)
                        requires
                            self@.height * self@.scale >= 1,
                            0 <= self@.height,
                            0 <= self@.scale,
                    ;
                    lemma_div_below(x as int, self@.scale, self@.width);
                    lemma_div_below(y as int, self@.scale, self@.height);
                    lemma_row_major(
                        x as int / self@.scale,
                        y as int / self@.scale,
                        self@.width,
                        self@.height,
                    );
                    lemma_mul_bounds(self@.width, self@.height, MAX_DIM as int, MAX_DIM as int);
                }
                let px = x / self.scale;
                let py = y / self.scale;
                let ci = self.canvas[py * self.width + px];
                let val = self.palette[ci as usize];
                v.push(val);
                proof {
                    let j0 = (y * ws + x) as int;
                    vstd::arithmetic::div_mod::lemma_fundamental_div_mod_converse(
                        j0,
                        ws as int,
                        y as int,
                        x as int,
                    );
                    assert(rgb_src(self@, j0) == (py as int) * self@.width + px as int);
                }
                x = x + 1;
            }
            y = y + 1;
            proof {
                assert((y - 1) * ws + ws == y * ws) by (nonlinear_arith);
            }
        }
        proof {
            assert(v@.len() == hs * ws);
            assert(hs * ws == ws * hs) by (nonlinear_arith);
        }
        v
    }
}

/// At any fixed pixel, a span write either leaves the stored color and
/// depth exactly as they were (in particular whenever the span's depth
/// there does not exceed the stored one), or its depth strictly beats the
/// stored one, and then both color and depth take the span's values. The
/// stored depth never decreases.
pub proof fn lemma_depth_monotonic(
    m: BufModel,
    x1: int,
    x2: int,
    y: int,
    z1: int,
    z2: int,
    color: u8,
    px: int,
    py: int,
)
    requires
        m.wf(),
        0 <= px < m.width,
        0 <= py < m.height,
    ensures
        ({
            let m2 = m.h_line_model(x1, x2, y, z1, z2, color);
            let i = py * m.width + px;
            &&& m2.depth[i] >= m.depth[i]
            &&& (py == y && m.span_start(x1) <= px < m.span_end(x2) && span_z(x1, x2, z1, z2, px)
                > m.depth[i]) ==> (m2.canvas[i] == color && m2.depth[i] == span_z(
                x1,
                x2,
                z1,
                z2,
                px,
            ))
            &&& !(py == y && m.span_start(x1) <= px < m.span_end(x2) && span_z(x1, x2, z1, z2, px)
                > m.depth[i]) ==> (m2.canvas[i] == m.canvas[i] && m2.depth[i] == m.depth[i])
        }),
{
    let m2 = m.h_line_model(x1, x2, y, z1, z2, color);
    let i = py * m.width + px;
    lemma_row_major(px, py, m.width, m.height);
    if 0 <= y < m.height {
        let row = y * m.width;
        assert(py == y ==> i - row == px) by (nonlinear_arith)
            requires
                i == py * m.width + px,
                row == y * m.width,
        ;
        assert(py != y ==> (i - row < 0 || i - row >= m.width)) by (nonlinear_arith)
            requires
                i == py * m.width + px,
                row == y * m.width,
                0 <= px < m.width,
                0 <= py < m.height,
        ;
    }
}

} // verus!
