//! The interpolation primitive: an evenly spaced walk between two points,
//! and a single-value "interpolate at" helper that the rasterizer uses for
//! edge and depth stepping. All results are exact: iterator points come out
//! as fractions, and the rasterizer-facing helper returns exact floors.

use crate::frac::Frac;
use crate::num::{floor_div_i128, imin, lemma_floor_div_bounds, COORD_LIMIT};
use vstd::prelude::*;

verus! {

/// Magnitude cap on the raw endpoint coordinates and the step count of a
/// `LerpIter`; keeps every interior-point numerator inside i64.
pub const LERP_LIMIT: i64 = 1048576;

/// The endpoint the iterator starts from: the one with the smaller first
/// component, ties broken by the smaller second component.
pub open spec fn sorted_first(p1: (i64, i64), p2: (i64, i64)) -> (i64, i64) {
    if p1.0 < p2.0 {
        p1
    } else if p1.0 == p2.0 && p1.1 < p2.1 {
        p1
    } else {
        p2
    }
}

/// The endpoint the iterator walks toward (the other one).
pub open spec fn sorted_second(p1: (i64, i64), p2: (i64, i64)) -> (i64, i64) {
    if p1.0 < p2.0 {
        p2
    } else if p1.0 == p2.0 && p1.1 < p2.1 {
        p2
    } else {
        p1
    }
}

/// Point `i` of an `n`-point walk from resolved endpoint `a` to `b`:
/// for `n >= 2`, coordinate-wise `a + (b - a) * i / (n - 1)`, held exactly
/// as a fraction over `n - 1`; for `n == 1`, the single point is `a`.
pub open spec fn is_point_at(a: (i64, i64), b: (i64, i64), n: int, i: int, q: (Frac, Frac)) -> bool {
    if n == 1 {
        q.0 == (Frac { num: a.0, den: 1 }) && q.1 == (Frac { num: a.1, den: 1 })
    } else {
        &&& q.0.num == a.0 * (n - 1) + (b.0 - a.0) * i
        &&& q.0.den == n - 1
        &&& q.1.num == a.1 * (n - 1) + (b.1 - a.1) * i
        &&& q.1.den == n - 1
    }
}

/// Point `i` of the `n`-point walk between `p1` and `p2`, after the
/// endpoints are put in walking order.
pub open spec fn is_lerp_point(
    p1: (i64, i64),
    p2: (i64, i64),
    n: int,
    i: int,
    q: (Frac, Frac),
) -> bool {
    is_point_at(sorted_first(p1, p2), sorted_second(p1, p2), n, i, q)
}

/// A finite, restartable walk of `num_steps` evenly spaced points between
/// two endpoints, inclusive of both when `num_steps >= 2`. Each point is
/// produced exactly, as a pair of fractions.
#[derive(Clone, Copy, Debug)]
pub struct LerpIter {
    /// Points yielded so far.
    pub steps: usize,
    /// Resolved start point.
    pub x1: i64,
    pub y1: i64,
    /// Resolved end point.
    pub x2: i64,
    pub y2: i64,
    /// Total number of points to yield.
    pub num_steps: usize,
}

impl LerpIter {
    pub open spec fn wf(self) -> bool {
        &&& self.steps <= self.num_steps
        &&& self.num_steps <= LERP_LIMIT
        &&& -LERP_LIMIT <= self.x1 <= LERP_LIMIT
        &&& -LERP_LIMIT <= self.y1 <= LERP_LIMIT
        &&& -LERP_LIMIT <= self.x2 <= LERP_LIMIT
        &&& -LERP_LIMIT <= self.y2 <= LERP_LIMIT
    }

    pub fn new(p1: (i64, i64), p2: (i64, i64), num_steps: usize) -> (it: LerpIter)
        requires
            -LERP_LIMIT <= p1.0 <= LERP_LIMIT,
            -LERP_LIMIT <= p1.1 <= LERP_LIMIT,
            -LERP_LIMIT <= p2.0 <= LERP_LIMIT,
            -LERP_LIMIT <= p2.1 <= LERP_LIMIT,
            num_steps <= LERP_LIMIT,
        ensures
            it.wf(),
            it.steps == 0,
            it.num_steps == num_steps,
            (it.x1, it.y1) == sorted_first(p1, p2),
            (it.x2, it.y2) == sorted_second(p1, p2),
    {
        let ((x1, y1), (x2, y2)) = if p1.0 < p2.0 {
            (p1, p2)
        } else if p1.0 == p2.0 && p1.1 < p2.1 {
            (p1, p2)
        } else {
            (p2, p1)
        };
        LerpIter { steps: 0, x1, y1, x2, y2, num_steps }
    }

    /// The next point of the walk, or `None` once `num_steps` points have
    /// been produced.
    pub fn next(&mut self) -> (r: Option<(Frac, Frac)>)
        requires
            old(self).wf(),
        ensures
            final(self).wf(),
            final(self).x1 == old(self).x1,
            final(self).y1 == old(self).y1,
            final(self).x2 == old(self).x2,
            final(self).y2 == old(self).y2,
            final(self).num_steps == old(self).num_steps,
            old(self).steps == old(self).num_steps ==> r is None && *final(self) == *old(self),
            old(self).steps < old(self).num_steps ==> {
                &&& final(self).steps == old(self).steps + 1
                &&& r is Some
                &&& is_point_at(
                    (old(self).x1, old(self).y1),
                    (old(self).x2, old(self).y2),
                    old(self).num_steps as int,
                    old(self).steps as int,
                    r.unwrap(),
                )
                &&& r.unwrap().0.wf()
                &&& r.unwrap().1.wf()
            },
    {
        if self.steps == self.num_steps {
            return None;
        }
        let q = if self.num_steps == 1 {
            (Frac::from_int(self.x1), Frac::from_int(self.y1))
        } else {
            let nm1 = (self.num_steps - 1) as i64;
            let iv = self.steps as i64;
            let sx = crate::num::mul_wide(self.x1, nm1);
            let dx = crate::num::mul_wide(self.x2 - self.x1, iv);
            let sy = crate::num::mul_wide(self.y1, nm1);
            let dy = crate::num::mul_wide(self.y2 - self.y1, iv);
            proof {
                crate::num::lemma_mul_bounds(self.x1 as int, nm1 as int, LERP_LIMIT as int, LERP_LIMIT as int);
                crate::num::lemma_mul_bounds((self.x2 - self.x1) as int, iv as int, 2 * LERP_LIMIT as int, LERP_LIMIT as int);
                crate::num::lemma_mul_bounds(self.y1 as int, nm1 as int, LERP_LIMIT as int, LERP_LIMIT as int);
                crate::num::lemma_mul_bounds((self.y2 - self.y1) as int, iv as int, 2 * LERP_LIMIT as int, LERP_LIMIT as int);
            }
            let nx = sx + dx;
            let ny = sy + dy;
            (Frac::new(nx as i64, nm1), Frac::new(ny as i64, nm1))
        };
        self.steps = self.steps + 1;
        Some(q)
    }
}

/// The whole walk at once: exactly `num_steps` points, point `i` being the
/// exact `i`-th interpolant between the (order-resolved) endpoints.
pub fn lerp_points(p1: (i64, i64), p2: (i64, i64), num_steps: usize) -> (v: Vec<(Frac, Frac)>)
    requires
        -LERP_LIMIT <= p1.0 <= LERP_LIMIT,
        -LERP_LIMIT <= p1.1 <= LERP_LIMIT,
        -LERP_LIMIT <= p2.0 <= LERP_LIMIT,
        -LERP_LIMIT <= p2.1 <= LERP_LIMIT,
        num_steps <= LERP_LIMIT,
    ensures
        v@.len() == num_steps,
        forall|i: int|
            0 <= i < num_steps ==> is_lerp_point(p1, p2, num_steps as int, i, #[trigger] v@[i]),
{
    let mut it = LerpIter::new(p1, p2, num_steps);
    let mut v: Vec<(Frac, Frac)> = Vec::new();
    while v.len() < num_steps
        invariant
            it.wf(),
            it.num_steps == num_steps,
            (it.x1, it.y1) == sorted_first(p1, p2),
            (it.x2, it.y2) == sorted_second(p1, p2),
            it.steps == v@.len(),
            v@.len() <= num_steps,
            forall|i: int|
                0 <= i < v@.len() ==> is_lerp_point(p1, p2, num_steps as int, i, #[trigger] v@[i]),
        decreases num_steps - v.len(),
    {
        let q = it.next().unwrap();
        v.push(q);
    }
    v
}

/// For `n >= 2`, the first point of the walk is
/// exactly the (order-resolved) first endpoint and the last point is exactly
/// the second, as rational values.
pub proof fn lemma_lerp_endpoints(
    p1: (i64, i64),
    p2: (i64, i64),
    n: int,
    first: (Frac, Frac),
    last: (Frac, Frac),
)
    requires
        2 <= n,
        is_lerp_point(p1, p2, n, 0, first),
        is_lerp_point(p1, p2, n, n - 1, last),
    ensures
        first.0.same(Frac { num: sorted_first(p1, p2).0, den: 1 }),
        first.1.same(Frac { num: sorted_first(p1, p2).1, den: 1 }),
        last.0.same(Frac { num: sorted_second(p1, p2).0, den: 1 }),
        last.1.same(Frac { num: sorted_second(p1, p2).1, den: 1 }),
{
    let a = sorted_first(p1, p2);
    let b = sorted_second(p1, p2);
    assert(a.0 * (n - 1) + (b.0 - a.0) * (n - 1) == b.0 * (n - 1)) by (nonlinear_arith);
    assert(a.1 * (n - 1) + (b.1 - a.1) * (n - 1) == b.1 * (n - 1)) by (nonlinear_arith);
}

/// The exact floor of the value linearly interpolated between `(k1, v1)` and
/// `(k2, v2)`, sampled at driving coordinate `k`. When the two driving
/// coordinates coincide the segment is vertical along the driving axis and
/// the smaller value is used, mirroring the iterator's tie-break.
pub open spec fn lerp_floor(v1: int, k1: int, v2: int, k2: int, k: int) -> int {
    if k1 == k2 {
        imin(v1, v2)
    } else if k1 < k2 {
        (v1 * (k2 - k1) + (v2 - v1) * (k - k1)) / (k2 - k1)
    } else {
        (v2 * (k1 - k2) + (v1 - v2) * (k - k2)) / (k1 - k2)
    }
}

/// For a positive driving distance `d`, the interpolant's floor between
/// `(0, v1)` and `(d, v2)` stays between the two values, and meets them
/// exactly at the ends.
proof fn lemma_lerp_branch(v1: int, v2: int, d: int, t: int)
    requires
        0 < d,
        0 <= t <= d,
    ensures
        crate::num::imin(v1, v2) <= (v1 * d + (v2 - v1) * t) / d <= crate::num::imax(v1, v2),
        t == 0 ==> (v1 * d + (v2 - v1) * t) / d == v1,
        t == d ==> (v1 * d + (v2 - v1) * t) / d == v2,
{
    let num = v1 * d + (v2 - v1) * t;
    let lo = crate::num::imin(v1, v2);
    let hi = crate::num::imax(v1, v2);
    assert(lo * d <= num <= hi * d) by (nonlinear_arith)
        requires
            0 < d,
            0 <= t <= d,
            num == v1 * d + (v2 - v1) * t,
            lo == crate::num::imin(v1, v2),
            hi == crate::num::imax(v1, v2),
    ;
    vstd::arithmetic::div_mod::lemma_div_is_ordered(lo * d, num, d);
    vstd::arithmetic::div_mod::lemma_div_is_ordered(num, hi * d, d);
    vstd::arithmetic::div_mod::lemma_fundamental_div_mod_converse(lo * d, d, lo, 0);
    vstd::arithmetic::div_mod::lemma_fundamental_div_mod_converse(hi * d, d, hi, 0);
    if t == 0 {
        assert(num == v1 * d) by (nonlinear_arith)
            requires
                num == v1 * d + (v2 - v1) * 0,
        ;
        vstd::arithmetic::div_mod::lemma_fundamental_div_mod_converse(v1 * d, d, v1, 0);
    }
    if t == d {
        assert(num == v2 * d) by (nonlinear_arith)
            requires
                num == v1 * d + (v2 - v1) * d,
        ;
        vstd::arithmetic::div_mod::lemma_fundamental_div_mod_converse(v2 * d, d, v2, 0);
    }
}

/// Sampled inside its driving range, the interpolated floor stays between
/// the two values.
pub proof fn lemma_lerp_floor_between(v1: int, k1: int, v2: int, k2: int, k: int)
    requires
        crate::num::imin(k1, k2) <= k <= crate::num::imax(k1, k2),
    ensures
        crate::num::imin(v1, v2) <= lerp_floor(v1, k1, v2, k2, k) <= crate::num::imax(v1, v2),
{
    if k1 < k2 {
        lemma_lerp_branch(v1, v2, k2 - k1, k - k1);
    } else if k1 > k2 {
        lemma_lerp_branch(v2, v1, k1 - k2, k - k2);
    }
}

/// At its driving endpoints the interpolated floor is exact.
pub proof fn lemma_lerp_floor_endpoints(v1: int, k1: int, v2: int, k2: int)
    requires
        k1 != k2,
    ensures
        lerp_floor(v1, k1, v2, k2, k1) == v1,
        lerp_floor(v1, k1, v2, k2, k2) == v2,
{
    if k1 < k2 {
        lemma_lerp_branch(v1, v2, k2 - k1, 0);
        lemma_lerp_branch(v1, v2, k2 - k1, k2 - k1);
    } else {
        lemma_lerp_branch(v2, v1, k1 - k2, 0);
        lemma_lerp_branch(v2, v1, k1 - k2, k1 - k2);
    }
}

/// Single-value interpolation on the subpixel grid: the exact floor of the
/// value at driving coordinate `k` of the line through `(k1, v1)` and
/// `(k2, v2)`. This is the primitive behind edge stepping and depth ramps.
pub(crate) fn lerp(v1: i64, k1: i64, v2: i64, k2: i64, k: i64) -> (r: i64)
    requires
        -COORD_LIMIT <= v1 <= COORD_LIMIT,
        -COORD_LIMIT <= k1 <= COORD_LIMIT,
        -COORD_LIMIT <= v2 <= COORD_LIMIT,
        -COORD_LIMIT <= k2 <= COORD_LIMIT,
        -COORD_LIMIT <= k <= COORD_LIMIT,
    ensures
        r == lerp_floor(v1 as int, k1 as int, v2 as int, k2 as int, k as int),
        -0x1000_0000_0000_0000 <= r <= 0x1000_0000_0000_0000,
{
    if k1 == k2 {
        if v1 <= v2 {
            v1
        } else {
            v2
        }
    } else {
        let (a, ka, b, kb) = if k1 < k2 {
            (v1, k1, v2, k2)
        } else {
            (v2, k2, v1, k1)
        };
        let d = kb - ka;
        let t1 = crate::num::mul_wide(a, d);
        let t2 = crate::num::mul_wide(b - a, k - ka);
        proof {
            crate::num::lemma_mul_bounds(a as int, d as int, COORD_LIMIT as int, 2 * COORD_LIMIT as int);
            crate::num::lemma_mul_bounds(
                (b - a) as int,
                (k - ka) as int,
                2 * COORD_LIMIT as int,
                2 * COORD_LIMIT as int,
            );
        }
        let num = t1 + t2;
        let q = floor_div_i128(num, d as i128);
        proof {
            lemma_floor_div_bounds(num as int, d as int);
        }
        q as i64
    }
}

} // verus!
