//! Integer helpers shared by the rasterizer: flooring and ceiling division
//! on wide integers, with exact contracts phrased over mathematical
//! (Euclidean) division.

use vstd::prelude::*;

verus! {

/// Subpixel units per pixel: all geometry runs through the library in units
/// of 1/256 of a pixel (and 1/256 of a depth unit).
pub const SUBPIX: i64 = 256;

/// Magnitude cap on subpixel coordinates handed to the rasterizer; keeps all
/// intermediate products of the interpolation arithmetic inside i128.
pub const COORD_LIMIT: i64 = 268435456;

/// Flooring division: the quotient rounded toward negative infinity.
/// For a positive divisor this is exactly Verus's Euclidean `/` on `int`.
pub fn floor_div_i128(a: i128, b: i128) -> (q: i128)
    requires
        1 <= b,
        -0x4000_0000_0000_0000_0000_0000_0000_0000 < a,
        b < 0x4000_0000_0000_0000_0000_0000_0000_0000,
    ensures
        q == a as int / b as int,
{
    if a >= 0 {
        a / b
    } else {
        let m = -a;
        let q0 = (m + b - 1) / b;
        proof {
            lemma_neg_ceil_is_floor(m as int, b as int);
        }
        -q0
    }
}

/// Ceiling division: the quotient rounded toward positive infinity.
pub fn ceil_div_i128(a: i128, b: i128) -> (q: i128)
    requires
        1 <= b,
        -0x2000_0000_0000_0000_0000_0000_0000_0000 < a < 0x2000_0000_0000_0000_0000_0000_0000_0000,
        b < 0x2000_0000_0000_0000_0000_0000_0000_0000,
    ensures
        q == (a as int + b as int - 1) / b as int,
{
    floor_div_i128(a + b - 1, b)
}

/// The product of two 64-bit integers, computed exactly in 128 bits.
pub fn mul_wide(a: i64, b: i64) -> (r: i128)
    ensures
        r == a as int * b as int,
{
    proof {
        lemma_mul_bounds(a as int, b as int, 0x8000_0000_0000_0000, 0x8000_0000_0000_0000);
    }
    (a as i128) * (b as i128)
}

/// A product is bounded by the product of the factors' bounds.
pub proof fn lemma_mul_bounds(x: int, y: int, xb: int, yb: int)
    by (nonlinear_arith)
    requires
        -xb <= x <= xb,
        -yb <= y <= yb,
        0 <= xb,
        0 <= yb,
    ensures
        -(xb * yb) <= x * y <= xb * yb,
{
}

/// Row-major addressing stays inside the canvas: a pixel `(x, y)` of a
/// `w * h` canvas has index `y * w + x` below `w * h`.
pub proof fn lemma_row_major(x: int, y: int, w: int, h: int)
    by (nonlinear_arith)
    requires
        0 <= x < w,
        0 <= y < h,
    ensures
        0 <= y * w + x < w * h,
        y * w <= y * w + x < y * w + w <= w * h,
{
}

/// A vector of `len` copies of `v`.
pub fn filled<T: Copy>(len: usize, v: T) -> (r: Vec<T>)
    ensures
        r@.len() == len,
        forall|i: int| 0 <= i < len ==> #[trigger] r@[i] == v,
{
    let mut r: Vec<T> = Vec::new();
    while r.len() < len
        invariant
            r@.len() <= len,
            forall|i: int| 0 <= i < r@.len() ==> #[trigger] r@[i] == v,
        decreases len - r.len(),
    {
        r.push(v);
    }
    r
}

/// A nonnegative value below `h * s` lands below `h` after division by `s`.
pub proof fn lemma_div_below(y: int, s: int, h: int)
    requires
        0 <= y < h * s,
        1 <= s,
    ensures
        0 <= y / s < h,
{
    let q = y / s;
    let r = y % s;
    vstd::arithmetic::div_mod::lemma_fundamental_div_mod(y, s);
    assert(0 <= q && q < h) by (nonlinear_arith)
        requires
            y == q * s + r,
            0 <= r < s,
            1 <= s,
            0 <= y < h * s,
    ;
}

/// `r` is the integer square root of `x`: the largest integer whose square
/// does not exceed `x`.
pub open spec fn is_isqrt(x: int, r: int) -> bool {
    0 <= r && r * r <= x < (r + 1) * (r + 1)
}

/// Every nonnegative integer has an integer square root.
pub proof fn lemma_isqrt_exists(x: int)
    requires
        0 <= x,
    ensures
        exists|r: int| #[trigger] is_isqrt(x, r),
    decreases x,
{
    if x == 0 {
        assert(is_isqrt(0, 0));
    } else {
        lemma_isqrt_exists(x - 1);
        let r = choose|r: int| #[trigger] is_isqrt(x - 1, r);
        if (r + 1) * (r + 1) <= x {
            assert(is_isqrt(x, r + 1)) by (nonlinear_arith)
                requires
                    is_isqrt(x - 1, r),
                    (r + 1) * (r + 1) <= x,
            ;
        } else {
            assert(is_isqrt(x, r));
        }
    }
}

/// The integer square root is unique.
pub proof fn lemma_isqrt_unique(x: int, r1: int, r2: int)
    by (nonlinear_arith)
    requires
        is_isqrt(x, r1),
        is_isqrt(x, r2),
    ensures
        r1 == r2,
{
}

/// The integer square root of `x`.
pub closed spec fn sqrt_floor(x: int) -> int {
    choose|r: int| #[trigger] is_isqrt(x, r)
}

/// The defining property of `sqrt_floor` on nonnegative arguments.
pub proof fn lemma_sqrt_floor(x: int)
    requires
        0 <= x,
    ensures
        is_isqrt(x, sqrt_floor(x)),
{
    lemma_isqrt_exists(x);
}

/// Compute the integer square root by binary search.
pub fn isqrt(x: u128) -> (r: u64)
    ensures
        is_isqrt(x as int, r as int),
        r as int == sqrt_floor(x as int),
{
    let mut lo: u128 = 0;
    let mut hi: u128 = 0x1_0000_0000_0000_0000;
    proof {
        assert(hi as int * hi as int > x) by (nonlinear_arith)
            requires
                hi == 0x1_0000_0000_0000_0000u128,
                x <= u128::MAX,
        ;
    }
    while lo + 1 < hi
        invariant
            lo < hi <= 0x1_0000_0000_0000_0000,
            lo as int * lo as int <= x,
            hi as int * hi as int > x,
        decreases hi - lo,
    {
        let mid = lo + (hi - lo) / 2;
        proof {
            crate::num::lemma_mul_bounds(
                mid as int,
                mid as int,
                0xFFFF_FFFF_FFFF_FFFF,
                0xFFFF_FFFF_FFFF_FFFF,
            );
        }
        let sq = mid * mid;
        if sq <= x {
            lo = mid;
        } else {
            hi = mid;
        }
    }
    proof {
        assert(is_isqrt(x as int, lo as int));
        lemma_sqrt_floor(x as int);
        lemma_isqrt_unique(x as int, lo as int, sqrt_floor(x as int));
    }
    lo as u64
}

/// The smaller of two integers.
pub open spec fn imin(a: int, b: int) -> int {
    if a <= b {
        a
    } else {
        b
    }
}

/// The larger of two integers.
pub open spec fn imax(a: int, b: int) -> int {
    if a <= b {
        b
    } else {
        a
    }
}

/// Rounding a subpixel coordinate to pixel rows: the ceiling row sits at or
/// above the coordinate, the floor row at or below it.
pub proof fn lemma_pix_grid(a: int)
    ensures
        ((a + 255) / 256) * 256 >= a,
        (a / 256) * 256 <= a,
{
    vstd::arithmetic::div_mod::lemma_fundamental_div_mod(a + 255, 256);
    vstd::arithmetic::div_mod::lemma_fundamental_div_mod(a, 256);
}

/// A flooring quotient never grows in magnitude: it stays between 0 and the
/// dividend.
pub proof fn lemma_floor_div_bounds(a: int, b: int)
    requires
        1 <= b,
    ensures
        a >= 0 ==> 0 <= a / b <= a,
        a < 0 ==> a <= a / b <= 0,
{
    let q = a / b;
    let r = a % b;
    vstd::arithmetic::div_mod::lemma_fundamental_div_mod(a, b);
    assert((a >= 0 ==> 0 <= q <= a) && (a < 0 ==> a <= q <= 0)) by (nonlinear_arith)
        requires
            a == q * b + r,
            0 <= r < b,
            1 <= b,
    ;
}

/// For a positive divisor, `(m + b - 1) / b` (the ceiling of `m / b`) is the
/// negation of the floor of `-m / b`.
proof fn lemma_neg_ceil_is_floor(m: int, b: int)
    requires
        0 <= m,
        1 <= b,
    ensures
        -((m + b - 1) / b) == (-m) / b,
{
    let q = m / b;
    let r = m % b;
    vstd::arithmetic::div_mod::lemma_fundamental_div_mod(m, b);
    if r == 0 {
        assert(m + b - 1 == q * b + (b - 1));
        assert(-m == (-q) * b + 0) by (nonlinear_arith)
            requires m == q * b;
        vstd::arithmetic::div_mod::lemma_fundamental_div_mod_converse(m + b - 1, b, q, b - 1);
        vstd::arithmetic::div_mod::lemma_fundamental_div_mod_converse(-m, b, -q, 0);
    } else {
        assert(m + b - 1 == (q + 1) * b + (r - 1)) by (nonlinear_arith)
            requires m == q * b + r;
        assert(-m == (-q - 1) * b + (b - r)) by (nonlinear_arith)
            requires m == q * b + r;
        vstd::arithmetic::div_mod::lemma_fundamental_div_mod_converse(m + b - 1, b, q + 1, r - 1);
        vstd::arithmetic::div_mod::lemma_fundamental_div_mod_converse(-m, b, -q - 1, b - r);
    }
}

} // verus!

