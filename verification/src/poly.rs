//! Triangle rasterization: a render-time triangle with its flat-shading
//! illumination, the split into flat-edged sub-triangles, and the scanline
//! walk that turns each sub-triangle into depth-tested horizontal spans.

use crate::buffer::{BufModel, Buffer, COLOR_DEPTH};
use crate::color::{lit_color, material_ok, Material};
use crate::interpolate::{lemma_lerp_floor_between, lemma_lerp_floor_endpoints, lerp, lerp_floor};
use crate::num::{ceil_div_i128, floor_div_i128, isqrt, lemma_floor_div_bounds, lemma_mul_bounds,
    lemma_pix_grid, mul_wide, sqrt_floor, COORD_LIMIT};
use vstd::prelude::*;

verus! {

/// Ambient light added to every triangle's illumination, in units of 1/256
/// (about 0.08).
pub const DIFFUSE_LIGHT: i64 = 20;

/// The fixed light position, in subpixel units.
pub const LIGHT_X: i64 = 256000;

pub const LIGHT_Y: i64 = -256000;

pub const LIGHT_Z: i64 = 128000;

/// A vertex in screen space: `x`, `y` in subpixel units, `z` the depth in
/// subpixel depth units ("greater wins").
#[derive(Debug, Clone, Copy, PartialEq, Eq, Structural)]
pub struct Vertex {
    pub x: i64,
    pub y: i64,
    pub z: i64,
}

/// All three coordinates within the range the rasterizer arithmetic admits.
pub open spec fn vertex_ok(v: Vertex) -> bool {
    &&& -COORD_LIMIT <= v.x <= COORD_LIMIT
    &&& -COORD_LIMIT <= v.y <= COORD_LIMIT
    &&& -COORD_LIMIT <= v.z <= COORD_LIMIT
}

/// The face normal of the triangle: `(v1 - v2) x (v3 - v1)`.
pub open spec fn normal_x(v1: Vertex, v2: Vertex, v3: Vertex) -> int {
    (v1.y - v2.y) * (v3.z - v1.z) - (v1.z - v2.z) * (v3.y - v1.y)
}

pub open spec fn normal_y(v1: Vertex, v2: Vertex, v3: Vertex) -> int {
    (v1.z - v2.z) * (v3.x - v1.x) - (v1.x - v2.x) * (v3.z - v1.z)
}

pub open spec fn normal_z(v1: Vertex, v2: Vertex, v3: Vertex) -> int {
    (v1.x - v2.x) * (v3.y - v1.y) - (v1.y - v2.y) * (v3.x - v1.x)
}

/// The triangle's flat-shading illumination in units of 1/256: the cosine
/// between the face normal and the light-to-triangle direction (computed
/// with integer square roots and flooring division, zero when either vector
/// is degenerate), clamped into the unit range, plus the ambient term.
pub open spec fn spec_illumination(v1: Vertex, v2: Vertex, v3: Vertex) -> int {
    let nx = normal_x(v1, v2, v3);
    let ny = normal_y(v1, v2, v3);
    let nz = normal_z(v1, v2, v3);
    let lx = v1.x + v2.x + v3.x - 3 * LIGHT_X;
    let ly = v1.y + v2.y + v3.y - 3 * LIGHT_Y;
    let lz = v1.z + v2.z + v3.z - 3 * LIGHT_Z;
    let n2 = nx * nx + ny * ny + nz * nz;
    let l2 = lx * lx + ly * ly + lz * lz;
    let den = sqrt_floor(n2) * sqrt_floor(l2);
    let dot = nx * lx + ny * ly + nz * lz;
    let cosv = if den > 0 {
        (dot * 256) / den
    } else {
        0
    };
    crate::color::clamp_unit(cosv) + DIFFUSE_LIGHT
}

/// A render-time triangle: three transformed vertices, the material, and the
/// illumination computed once for the whole face.
#[derive(Debug, Clone, Copy)]
pub struct Tri {
    pub v1: Vertex,
    pub v2: Vertex,
    pub v3: Vertex,
    pub base_color: Material,
    pub illumination: i64,
}

impl Tri {
    pub open spec fn wf(self) -> bool {
        &&& vertex_ok(self.v1)
        &&& vertex_ok(self.v2)
        &&& vertex_ok(self.v3)
        &&& material_ok(self.base_color)
    }

    /// Build a render-time triangle, computing its flat illumination from
    /// the face normal and the fixed light position.
    pub fn new(v1: Vertex, v2: Vertex, v3: Vertex, base_color: Material) -> (r: Tri)
        requires
            vertex_ok(v1),
            vertex_ok(v2),
            vertex_ok(v3),
            material_ok(base_color),
        ensures
            r.v1 == v1,
            r.v2 == v2,
            r.v3 == v3,
            r.base_color == base_color,
            r.illumination == spec_illumination(v1, v2, v3),
            r.wf(),
    {
        let b2 = 2 * COORD_LIMIT;
        let nxp1 = mul_wide(v1.y - v2.y, v3.z - v1.z);
        let nxp2 = mul_wide(v1.z - v2.z, v3.y - v1.y);
        let nyp1 = mul_wide(v1.z - v2.z, v3.x - v1.x);
        let nyp2 = mul_wide(v1.x - v2.x, v3.z - v1.z);
        let nzp1 = mul_wide(v1.x - v2.x, v3.y - v1.y);
        let nzp2 = mul_wide(v1.y - v2.y, v3.x - v1.x);
        proof {
            lemma_mul_bounds((v1.y - v2.y) as int, (v3.z - v1.z) as int, b2 as int, b2 as int);
            lemma_mul_bounds((v1.z - v2.z) as int, (v3.y - v1.y) as int, b2 as int, b2 as int);
            lemma_mul_bounds((v1.z - v2.z) as int, (v3.x - v1.x) as int, b2 as int, b2 as int);
            lemma_mul_bounds((v1.x - v2.x) as int, (v3.z - v1.z) as int, b2 as int, b2 as int);
            lemma_mul_bounds((v1.x - v2.x) as int, (v3.y - v1.y) as int, b2 as int, b2 as int);
            lemma_mul_bounds((v1.y - v2.y) as int, (v3.x - v1.x) as int, b2 as int, b2 as int);
        }
        let nx = (nxp1 - nxp2) as i64;
        let ny = (nyp1 - nyp2) as i64;
        let nz = (nzp1 - nzp2) as i64;
        let lx = v1.x + v2.x + v3.x - 3 * LIGHT_X;
        let ly = v1.y + v2.y + v3.y - 3 * LIGHT_Y;
        let lz = v1.z + v2.z + v3.z - 3 * LIGHT_Z;
        let nb: i128 = 0x1000_0000_0000_0000;
        let lb: i128 = 0x1_0000_0000;
        let nxx = mul_wide(nx, nx);
        let nyy = mul_wide(ny, ny);
        let nzz = mul_wide(nz, nz);
        let lxx = mul_wide(lx, lx);
        let lyy = mul_wide(ly, ly);
        let lzz = mul_wide(lz, lz);
        proof {
            lemma_mul_bounds(nx as int, nx as int, nb as int, nb as int);
            lemma_mul_bounds(ny as int, ny as int, nb as int, nb as int);
            lemma_mul_bounds(nz as int, nz as int, nb as int, nb as int);
            lemma_mul_bounds(lx as int, lx as int, lb as int, lb as int);
            lemma_mul_bounds(ly as int, ly as int, lb as int, lb as int);
            lemma_mul_bounds(lz as int, lz as int, lb as int, lb as int);
            assert(nxx >= 0 && nyy >= 0 && nzz >= 0 && lxx >= 0 && lyy >= 0 && lzz >= 0)
                by (nonlinear_arith)
                requires
                    nxx == nx as int * nx as int,
                    nyy == ny as int * ny as int,
                    nzz == nz as int * nz as int,
                    lxx == lx as int * lx as int,
                    lyy == ly as int * ly as int,
                    lzz == lz as int * lz as int,
            ;
        }
        let n2 = nxx + nyy + nzz;
        let l2 = lxx + lyy + lzz;
        let sn = isqrt(n2 as u128);
        let sl = isqrt(l2 as u128);
        proof {
            assert(n2 as int <= 0x300_0000_0000_0000_0000_0000_0000_0000);
            assert(l2 as int <= 0x3_0000_0000_0000_0000);
            assert(sn as int * sn as int <= n2 as int);
            assert(sl as int * sl as int <= l2 as int);
            assert(0x2000_0000_0000_0001int * 0x2000_0000_0000_0001int
                > 0x300_0000_0000_0000_0000_0000_0000_0000int);
            assert(0x2_0000_0001int * 0x2_0000_0001int > 0x3_0000_0000_0000_0000int);
            lemma_sq_bound(sn as int, 0x2000_0000_0000_0000, 0x300_0000_0000_0000_0000_0000_0000_0000);
            lemma_sq_bound(sl as int, 0x2_0000_0000, 0x3_0000_0000_0000_0000);
            lemma_mul_bounds(sn as int, sl as int, 0x2000_0000_0000_0000, 0x2_0000_0000);
        }
        let den = (sn as i128) * (sl as i128);
        let dxp = mul_wide(nx, lx);
        let dyp = mul_wide(ny, ly);
        let dzp = mul_wide(nz, lz);
        proof {
            lemma_mul_bounds(nx as int, lx as int, nb as int, lb as int);
            lemma_mul_bounds(ny as int, ly as int, nb as int, lb as int);
            lemma_mul_bounds(nz as int, lz as int, nb as int, lb as int);
        }
        let dot = dxp + dyp + dzp;
        let cosv: i128 = if den > 0 {
            floor_div_i128(dot * 256, den)
        } else {
            0
        };
        let clamped: i64 = if cosv < 0 {
            0
        } else if cosv > 256 {
            256
        } else {
            cosv as i64
        };
        Tri { v1, v2, v3, base_color, illumination: clamped + DIFFUSE_LIGHT }
    }
}

/// A triangle with one horizontal edge: an apex (`tip`) and a flat base
/// whose two vertices share a y-coordinate and are ordered by ascending x.
/// This is the unit the scanline walker works on.
#[derive(Debug, Clone, Copy)]
pub struct UpDownTri {
    pub tip: Vertex,
    pub base_left: Vertex,
    pub base_right: Vertex,
    pub base_color: Material,
    pub illumination: i64,
}

/// The base pair of an `UpDownTri`, ordered by ascending x.
pub open spec fn updown_new(
    base_1: Vertex,
    base_2: Vertex,
    tip: Vertex,
    base_color: Material,
    illumination: i64,
) -> UpDownTri {
    let (base_left, base_right) = if base_1.x > base_2.x {
        (base_2, base_1)
    } else {
        (base_1, base_2)
    };
    UpDownTri { tip, base_left, base_right, base_color, illumination }
}

/// The palette index every span of this sub-triangle is drawn with.
pub open spec fn tri_shade(t: UpDownTri) -> u8 {
    crate::color::spec_lit_color(t.illumination as int, t.base_color)
}

/// The left span bound of the sub-triangle at pixel row `y`: x interpolated
/// between the left base vertex and the tip, sampled at the row.
pub open spec fn row_xl(t: UpDownTri, y: int) -> int {
    lerp_floor(t.base_left.x as int, t.base_left.y as int, t.tip.x as int, t.tip.y as int, y * 256)
}

pub open spec fn row_xr(t: UpDownTri, y: int) -> int {
    lerp_floor(
        t.base_right.x as int,
        t.base_right.y as int,
        t.tip.x as int,
        t.tip.y as int,
        y * 256,
    )
}

/// The depth at the left span bound of row `y`, interpolated the same way.
pub open spec fn row_zl(t: UpDownTri, y: int) -> int {
    lerp_floor(t.base_left.z as int, t.base_left.y as int, t.tip.z as int, t.tip.y as int, y * 256)
}

pub open spec fn row_zr(t: UpDownTri, y: int) -> int {
    lerp_floor(
        t.base_right.z as int,
        t.base_right.y as int,
        t.tip.z as int,
        t.tip.y as int,
        y * 256,
    )
}

/// The buffer after the rows `[y0, y)` of the sub-triangle have been drawn,
/// each as one depth-tested horizontal span.
pub open spec fn rows_upto(t: UpDownTri, m: BufModel, y0: int, y: int) -> BufModel
    decreases y - y0,
{
    if y <= y0 {
        m
    } else {
        rows_upto(t, m, y0, y - 1).h_line_model(
            row_xl(t, y - 1),
            row_xr(t, y - 1),
            y - 1,
            row_zl(t, y - 1),
            row_zr(t, y - 1),
            tri_shade(t),
        )
    }
}

/// First pixel row of an "up" sub-triangle (tip above the base).
pub open spec fn up_row_first(t: UpDownTri) -> int {
    (t.tip.y + 255) / 256
}

/// Last pixel row of an "up" sub-triangle.
pub open spec fn up_row_last(t: UpDownTri) -> int {
    t.base_left.y as int / 256
}

/// First pixel row of a "down" sub-triangle (tip below the base).
pub open spec fn down_row_first(t: UpDownTri) -> int {
    (t.base_left.y + 255) / 256
}

/// Last pixel row of a "down" sub-triangle.
pub open spec fn down_row_last(t: UpDownTri) -> int {
    t.tip.y as int / 256
}

/// The buffer after an "up" sub-triangle is rasterized.
pub open spec fn draw_up_model(t: UpDownTri, m: BufModel) -> BufModel {
    rows_upto(t, m, up_row_first(t), up_row_last(t) + 1)
}

/// The buffer after a "down" sub-triangle is rasterized.
pub open spec fn draw_down_model(t: UpDownTri, m: BufModel) -> BufModel {
    rows_upto(t, m, down_row_first(t), down_row_last(t) + 1)
}

impl UpDownTri {
    pub open spec fn wf(self) -> bool {
        &&& vertex_ok(self.tip)
        &&& vertex_ok(self.base_left)
        &&& vertex_ok(self.base_right)
        &&& self.base_left.y == self.base_right.y
        &&& self.base_left.x <= self.base_right.x
        &&& self.tip.y != self.base_left.y
        &&& material_ok(self.base_color)
    }

    /// Build a flat-edged sub-triangle from its base pair and tip; the base
    /// vertices must share a y-coordinate distinct from the tip's.
    fn new(base_1: Vertex, base_2: Vertex, tip: Vertex, base_color: Material, illumination: i64)
        -> (r: UpDownTri)
        requires
            vertex_ok(base_1),
            vertex_ok(base_2),
            vertex_ok(tip),
            base_1.y == base_2.y,
            tip.y != base_1.y,
            material_ok(base_color),
        ensures
            r == updown_new(base_1, base_2, tip, base_color, illumination),
            r.wf(),
    {
        let (base_left, base_right) = if base_1.x > base_2.x {
            (base_2, base_1)
        } else {
            (base_1, base_2)
        };
        UpDownTri { tip, base_left, base_right, base_color, illumination }
    }

    /// Rasterize an "up" sub-triangle: walk the pixel rows from the tip down
    /// to the base, emitting one depth-tested span per row.
    fn draw_up(self, buffer: &mut Buffer)
        requires
            old(buffer)@.wf(),
            self.wf(),
        ensures
            final(buffer)@.wf(),
            final(buffer)@ == draw_up_model(self, old(buffer)@),
    {
        let ty = ceil_div_i128(self.tip.y as i128, 256) as i64;
        let by_ = floor_div_i128(self.base_left.y as i128, 256) as i64;
        proof {
            lemma_floor_div_bounds(self.tip.y as int + 255, 256);
            lemma_floor_div_bounds(self.base_left.y as int, 256);
            lemma_pix_grid(self.tip.y as int);
            lemma_pix_grid(self.base_left.y as int);
        }
        self.draw_rows(buffer, ty, by_);
        proof {
            assert(final(buffer)@ == draw_up_model(self, old(buffer)@));
        }
    }

    /// Rasterize a "down" sub-triangle: walk the pixel rows from the base
    /// down to the tip, emitting one depth-tested span per row.
    fn draw_down(self, buffer: &mut Buffer)
        requires
            old(buffer)@.wf(),
            self.wf(),
        ensures
            final(buffer)@.wf(),
            final(buffer)@ == draw_down_model(self, old(buffer)@),
    {
        let by_ = ceil_div_i128(self.base_left.y as i128, 256) as i64;
        let ty = floor_div_i128(self.tip.y as i128, 256) as i64;
        proof {
            lemma_floor_div_bounds(self.base_left.y as int + 255, 256);
            lemma_floor_div_bounds(self.tip.y as int, 256);
            lemma_pix_grid(self.base_left.y as int);
            lemma_pix_grid(self.tip.y as int);
        }
        self.draw_rows(buffer, by_, ty);
        proof {
            assert(final(buffer)@ == draw_down_model(self, old(buffer)@));
        }
    }

    /// Walk the pixel rows `[y_first, y_last]`, drawing one span per row.
    fn draw_rows(self, buffer: &mut Buffer, y_first: i64, y_last: i64)
        requires
            old(buffer)@.wf(),
            self.wf(),
            -0x200_0000 <= y_first <= 0x200_0000,
            -0x200_0000 <= y_last <= 0x200_0000,
            y_first * 256 >= crate::num::imin(self.tip.y as int, self.base_left.y as int),
            y_last * 256 <= crate::num::imax(self.tip.y as int, self.base_left.y as int),
        ensures
            final(buffer)@.wf(),
            final(buffer)@ == rows_upto(self, old(buffer)@, y_first as int, y_last + 1),
    {
        let color = lit_color(self.illumination, self.base_color);
        let mut y = y_first;
        while y <= y_last
            invariant
                buffer@ == rows_upto(self, old(buffer)@, y_first as int, y as int),
                buffer@.wf(),
                old(buffer)@.wf(),
                self.wf(),
                color == tri_shade(self),
                color < COLOR_DEPTH,
                -0x200_0000 <= y_first <= 0x200_0000,
                -0x200_0000 <= y_last <= 0x200_0000,
                y_first <= y <= y_last + 1 || (y_first > y_last && y == y_first),
                y_first * 256 >= crate::num::imin(self.tip.y as int, self.base_left.y as int),
                y_last * 256 <= crate::num::imax(self.tip.y as int, self.base_left.y as int),
            decreases y_last + 1 - y,
        {
            let k = y * 256;
            proof {
                assert(y_first * 256 <= k <= y_last * 256);
                assert(crate::num::imin(self.base_left.y as int, self.tip.y as int) <= k as int
                    <= crate::num::imax(self.base_left.y as int, self.tip.y as int));
                lemma_lerp_floor_between(
                    self.base_left.x as int,
                    self.base_left.y as int,
                    self.tip.x as int,
                    self.tip.y as int,
                    k as int,
                );
                lemma_lerp_floor_between(
                    self.base_right.x as int,
                    self.base_right.y as int,
                    self.tip.x as int,
                    self.tip.y as int,
                    k as int,
                );
                lemma_lerp_floor_between(
                    self.base_left.z as int,
                    self.base_left.y as int,
                    self.tip.z as int,
                    self.tip.y as int,
                    k as int,
                );
                lemma_lerp_floor_between(
                    self.base_right.z as int,
                    self.base_right.y as int,
                    self.tip.z as int,
                    self.tip.y as int,
                    k as int,
                );
            }
            let xl = lerp(self.base_left.x, self.base_left.y, self.tip.x, self.tip.y, k);
            let xr = lerp(self.base_right.x, self.base_right.y, self.tip.x, self.tip.y, k);
            let zl = lerp(self.base_left.z, self.base_left.y, self.tip.z, self.tip.y, k);
            let zr = lerp(self.base_right.z, self.base_right.y, self.tip.z, self.tip.y, k);
            buffer.h_line(xl, xr, y as i32, zl, zr, color);
            y = y + 1;
        }
    }
}

/// The triangle's vertices ordered by ascending y (stable for ties).
pub open spec fn sort_by_y(v1: Vertex, v2: Vertex, v3: Vertex) -> (Vertex, Vertex, Vertex) {
    let (p, q) = if v2.y < v1.y {
        (v2, v1)
    } else {
        (v1, v2)
    };
    if v3.y < p.y {
        (v3, p, q)
    } else if v3.y < q.y {
        (p, v3, q)
    } else {
        (p, q, v3)
    }
}

/// The synthetic vertex on the long edge `top -> bot`, at height `mid_y`:
/// x and depth both interpolated along that edge.
pub open spec fn split_point(top: Vertex, bot: Vertex, mid_y: i64) -> Vertex {
    Vertex {
        x: lerp_floor(top.x as int, top.y as int, bot.x as int, bot.y as int, mid_y as int) as i64,
        y: mid_y,
        z: lerp_floor(top.z as int, top.y as int, bot.z as int, bot.y as int, mid_y as int) as i64,
    }
}

/// The "up" half of the split (apex at the top), if any: a degenerate
/// triangle yields none, a flat-bottom triangle is already a single "up"
/// triangle, and the general case takes the flat edge `{mid, split point}`.
pub open spec fn split_up(t: Tri) -> Option<UpDownTri> {
    let (top, mid, bot) = sort_by_y(t.v1, t.v2, t.v3);
    if bot.y == mid.y && mid.y == top.y {
        None
    } else if bot.y == mid.y {
        Some(updown_new(bot, mid, top, t.base_color, t.illumination))
    } else if top.y == mid.y {
        None
    } else {
        Some(
            updown_new(mid, split_point(top, bot, mid.y), top, t.base_color, t.illumination),
        )
    }
}

/// The "down" half of the split (apex at the bottom), if any.
pub open spec fn split_down(t: Tri) -> Option<UpDownTri> {
    let (top, mid, bot) = sort_by_y(t.v1, t.v2, t.v3);
    if bot.y == mid.y && mid.y == top.y {
        None
    } else if bot.y == mid.y {
        None
    } else if top.y == mid.y {
        Some(updown_new(top, mid, bot, t.base_color, t.illumination))
    } else {
        Some(
            updown_new(mid, split_point(top, bot, mid.y), bot, t.base_color, t.illumination),
        )
    }
}

/// Split a triangle into its flat-edged halves: zero (degenerate), one
/// (already flat on top or bottom) or two (general case, sharing the
/// synthetic flat edge at the middle vertex's height).
fn split_tri(tri: &Tri) -> (r: (Option<UpDownTri>, Option<UpDownTri>))
    requires
        tri.wf(),
    ensures
        r.0 == split_up(*tri),
        r.1 == split_down(*tri),
        r.0 is Some ==> r.0.unwrap().wf(),
        r.1 is Some ==> r.1.unwrap().wf(),
{
    let (p, q) = if tri.v2.y < tri.v1.y {
        (tri.v2, tri.v1)
    } else {
        (tri.v1, tri.v2)
    };
    let (top_point, mid_point, bot_point) = if tri.v3.y < p.y {
        (tri.v3, p, q)
    } else if tri.v3.y < q.y {
        (p, tri.v3, q)
    } else {
        (p, q, tri.v3)
    };
    if bot_point.y == mid_point.y && mid_point.y == top_point.y {
        return (None, None);
    }
    if bot_point.y == mid_point.y {
        return (
            Some(
                UpDownTri::new(bot_point, mid_point, top_point, tri.base_color, tri.illumination),
            ),
            None,
        );
    }
    if top_point.y == mid_point.y {
        return (
            None,
            Some(
                UpDownTri::new(top_point, mid_point, bot_point, tri.base_color, tri.illumination),
            ),
        );
    }
    let new_base_y = mid_point.y;
    proof {
        lemma_lerp_floor_between(
            top_point.x as int,
            top_point.y as int,
            bot_point.x as int,
            bot_point.y as int,
            new_base_y as int,
        );
        lemma_lerp_floor_between(
            top_point.z as int,
            top_point.y as int,
            bot_point.z as int,
            bot_point.y as int,
            new_base_y as int,
        );
    }
    let new_base_x = lerp(top_point.x, top_point.y, bot_point.x, bot_point.y, new_base_y);
    let new_base_z = lerp(top_point.z, top_point.y, bot_point.z, bot_point.y, new_base_y);
    let sp = Vertex { x: new_base_x, y: new_base_y, z: new_base_z };
    let up_tri = UpDownTri::new(mid_point, sp, top_point, tri.base_color, tri.illumination);
    let down_tri = UpDownTri::new(mid_point, sp, bot_point, tri.base_color, tri.illumination);
    (Some(up_tri), Some(down_tri))
}

/// The buffer after one whole triangle is rasterized: the "up" half first,
/// then the "down" half.
pub open spec fn draw_tri_model(t: Tri, m: BufModel) -> BufModel {
    let m1 = if split_up(t) is Some {
        draw_up_model(split_up(t).unwrap(), m)
    } else {
        m
    };
    if split_down(t) is Some {
        draw_down_model(split_down(t).unwrap(), m1)
    } else {
        m1
    }
}

/// Rasterize one triangle onto the buffer as depth-tested horizontal spans,
/// one per covered scanline.
pub fn draw_tri(buffer: &mut Buffer, tri: &Tri)
    requires
        old(buffer)@.wf(),
        tri.wf(),
    ensures
        final(buffer)@.wf(),
        final(buffer)@ == draw_tri_model(*tri, old(buffer)@),
{
    let (up_tri, down_tri) = split_tri(tri);
    if let Some(u) = up_tri {
        u.draw_up(buffer);
    }
    if let Some(d) = down_tri {
        d.draw_down(buffer);
    }
}

/// The pixel columns covered by the sub-triangle's span at pixel row `y`,
/// before any clamping into a canvas: the left bound rounds up, the right
/// bound rounds down ("inclusive coverage").
pub open spec fn row_covers(t: UpDownTri, x: int, y: int) -> bool {
    (row_xl(t, y) + 255) / 256 <= x <= row_xr(t, y) / 256
}

/// The pixels covered when the sub-triangle is walked as an "up" triangle.
pub open spec fn up_covers(t: UpDownTri, x: int, y: int) -> bool {
    up_row_first(t) <= y <= up_row_last(t) && row_covers(t, x, y)
}

/// The pixels covered when the sub-triangle is walked as a "down" triangle.
pub open spec fn down_covers(t: UpDownTri, x: int, y: int) -> bool {
    down_row_first(t) <= y <= down_row_last(t) && row_covers(t, x, y)
}

/// Rounding up to pixel rows agrees with rounding down exactly on the pixel
/// grid, and exceeds it by one off the grid.
proof fn lemma_ceil_floor_256(a: int)
    ensures
        a % 256 == 0 ==> (a + 255) / 256 == a / 256,
        a % 256 != 0 ==> (a + 255) / 256 == a / 256 + 1,
{
    let q = a / 256;
    let r = a % 256;
    vstd::arithmetic::div_mod::lemma_fundamental_div_mod(a, 256);
    if r == 0 {
        vstd::arithmetic::div_mod::lemma_fundamental_div_mod_converse(a + 255, 256, q, 255);
    } else {
        vstd::arithmetic::div_mod::lemma_fundamental_div_mod_converse(a + 255, 256, q + 1, r - 1);
    }
}

/// A triangle whose two lowest vertices share a y-coordinate covers
/// exactly the same pixels whether it is rasterized via the "already flat"
/// shortcut (one "up" sub-triangle) or via the general synthetic-split
/// construction (an "up" and a "down" sub-triangle sharing the flat edge at
/// the middle vertex's height): which code path splits a flat triangle
/// cannot change its footprint.
pub proof fn lemma_flat_bottom_split_covers(t: Tri, x: int, y: int)
    requires
        t.wf(),
        ({
            let (top, mid, bot) = sort_by_y(t.v1, t.v2, t.v3);
            mid.y == bot.y && top.y < mid.y
        }),
    ensures
        ({
            let (top, mid, bot) = sort_by_y(t.v1, t.v2, t.v3);
            let shortcut = updown_new(bot, mid, top, t.base_color, t.illumination);
            let sp = split_point(top, bot, mid.y);
            let gen_up = updown_new(mid, sp, top, t.base_color, t.illumination);
            let gen_down = updown_new(mid, sp, bot, t.base_color, t.illumination);
            up_covers(shortcut, x, y) <==> (up_covers(gen_up, x, y) || down_covers(
                gen_down,
                x,
                y,
            ))
        }),
{
    let (top, mid, bot) = sort_by_y(t.v1, t.v2, t.v3);
    let shortcut = updown_new(bot, mid, top, t.base_color, t.illumination);
    let sp = split_point(top, bot, mid.y);
    let gen_up = updown_new(mid, sp, top, t.base_color, t.illumination);
    let gen_down = updown_new(mid, sp, bot, t.base_color, t.illumination);
    let yy = mid.y as int;
    // The split lands exactly on the bottom vertex.
    lemma_lerp_floor_endpoints(top.x as int, top.y as int, bot.x as int, bot.y as int);
    lemma_lerp_floor_endpoints(top.z as int, top.y as int, bot.z as int, bot.y as int);
    assert(sp == bot);
    // The "up" half of the general split covers exactly what the shortcut
    // covers: the two differ at most by which of two equal-x base vertices
    // is called left, which the row bounds cannot see.
    assert(forall|xi: int, yi: int|
        up_covers(gen_up, xi, yi) == #[trigger] up_covers(shortcut, xi, yi));
    // The "down" half is degenerate: its base and tip share a height, so it
    // covers at most the single pixel row at that height, with a span no
    // wider than the shortcut's base row.
    lemma_ceil_floor_256(yy);
    if down_covers(gen_down, x, y) {
        assert(y == yy / 256 && yy % 256 == 0);
        let yk = y * 256;
        assert(yk == yy) by {
            vstd::arithmetic::div_mod::lemma_fundamental_div_mod(yy, 256);
        }
        // At that row, the shortcut's span is exactly its base edge.
        lemma_lerp_floor_endpoints(
            shortcut.base_left.x as int,
            shortcut.base_left.y as int,
            top.x as int,
            top.y as int,
        );
        lemma_lerp_floor_endpoints(
            shortcut.base_right.x as int,
            shortcut.base_right.y as int,
            top.x as int,
            top.y as int,
        );
        assert(row_xl(shortcut, y) == shortcut.base_left.x as int);
        assert(row_xr(shortcut, y) == shortcut.base_right.x as int);
        // The degenerate row's bounds collapse to minima of equal-x pairs.
        assert(row_xl(gen_down, y) == gen_down.base_left.x as int);
        assert(row_xr(gen_down, y) <= shortcut.base_right.x as int);
        assert(gen_down.base_left.x == shortcut.base_left.x);
        vstd::arithmetic::div_mod::lemma_div_is_ordered(
            row_xr(gen_down, y),
            shortcut.base_right.x as int,
            256,
        );
        // The shortcut walks that row.
        vstd::arithmetic::div_mod::lemma_div_is_ordered(top.y as int + 255, yy + 255, 256);
        assert(up_covers(shortcut, x, y));
    }
    if up_covers(shortcut, x, y) {
        assert(up_covers(gen_up, x, y));
    }
}

/// The mirror image of the flat-bottom fact: a triangle whose two highest
/// vertices share a y-coordinate covers exactly the same pixels whether it
/// is rasterized via the "already flat" shortcut (one "down" sub-triangle)
/// or via the general synthetic-split construction.
pub proof fn lemma_flat_top_split_covers(t: Tri, x: int, y: int)
    requires
        t.wf(),
        ({
            let (top, mid, bot) = sort_by_y(t.v1, t.v2, t.v3);
            top.y == mid.y && mid.y < bot.y
        }),
    ensures
        ({
            let (top, mid, bot) = sort_by_y(t.v1, t.v2, t.v3);
            let shortcut = updown_new(top, mid, bot, t.base_color, t.illumination);
            let sp = split_point(top, bot, mid.y);
            let gen_up = updown_new(mid, sp, top, t.base_color, t.illumination);
            let gen_down = updown_new(mid, sp, bot, t.base_color, t.illumination);
            down_covers(shortcut, x, y) <==> (up_covers(gen_up, x, y) || down_covers(
                gen_down,
                x,
                y,
            ))
        }),
{
    let (top, mid, bot) = sort_by_y(t.v1, t.v2, t.v3);
    let shortcut = updown_new(top, mid, bot, t.base_color, t.illumination);
    let sp = split_point(top, bot, mid.y);
    let gen_up = updown_new(mid, sp, top, t.base_color, t.illumination);
    let gen_down = updown_new(mid, sp, bot, t.base_color, t.illumination);
    let yy = mid.y as int;
    // The split lands exactly on the top vertex.
    lemma_lerp_floor_endpoints(top.x as int, top.y as int, bot.x as int, bot.y as int);
    lemma_lerp_floor_endpoints(top.z as int, top.y as int, bot.z as int, bot.y as int);
    assert(sp == top);
    // The "down" half of the general split covers exactly what the shortcut
    // covers.
    assert(forall|xi: int, yi: int|
        down_covers(gen_down, xi, yi) == #[trigger] down_covers(shortcut, xi, yi));
    // The "up" half is degenerate: base and tip share the flat height.
    lemma_ceil_floor_256(yy);
    if up_covers(gen_up, x, y) {
        assert(y == yy / 256 && yy % 256 == 0);
        let yk = y * 256;
        assert(yk == yy) by {
            vstd::arithmetic::div_mod::lemma_fundamental_div_mod(yy, 256);
        }
        // At that row, the shortcut's span is exactly its base edge.
        lemma_lerp_floor_endpoints(
            shortcut.base_left.x as int,
            shortcut.base_left.y as int,
            bot.x as int,
            bot.y as int,
        );
        lemma_lerp_floor_endpoints(
            shortcut.base_right.x as int,
            shortcut.base_right.y as int,
            bot.x as int,
            bot.y as int,
        );
        assert(row_xl(shortcut, y) == shortcut.base_left.x as int);
        assert(row_xr(shortcut, y) == shortcut.base_right.x as int);
        assert(row_xl(gen_up, y) == gen_up.base_left.x as int);
        assert(row_xr(gen_up, y) <= shortcut.base_right.x as int);
        assert(gen_up.base_left.x == shortcut.base_left.x);
        vstd::arithmetic::div_mod::lemma_div_is_ordered(
            row_xr(gen_up, y),
            shortcut.base_right.x as int,
            256,
        );
        // The shortcut walks that row.
        vstd::arithmetic::div_mod::lemma_div_is_ordered(yy, bot.y as int, 256);
        assert(down_covers(shortcut, x, y));
    }
    if down_covers(shortcut, x, y) {
        assert(down_covers(gen_down, x, y));
    }
}

/// A nonnegative value whose square is at most `m` is at most `b`, provided
/// `(b + 1)^2` exceeds `m`.
proof fn lemma_sq_bound(x: int, b: int, m: int)
    requires
        0 <= x,
        0 <= b,
        x * x <= m,
        (b + 1) * (b + 1) > m,
    ensures
        x <= b,
{
    if x >= b + 1 {
        vstd::arithmetic::mul::lemma_mul_inequality(b + 1, x, b + 1);
        vstd::arithmetic::mul::lemma_mul_inequality(b + 1, x, x);
        vstd::arithmetic::mul::lemma_mul_is_commutative(x, b + 1);
        assert(false);
    }
}

} // verus!
