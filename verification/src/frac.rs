//! Exact rational values. The interpolation primitive hands its points out as
//! fractions so that endpoints and evenly spaced interior points are exact,
//! with no rounding anywhere.

use vstd::prelude::*;

verus! {

/// An exact rational value `num / den`. Well-formed fractions keep the
/// denominator positive, so comparisons are plain cross-multiplications.
#[derive(Clone, Copy, Debug)]
pub struct Frac {
    pub num: i64,
    pub den: i64,
}

impl Frac {
    /// A fraction is well formed when its denominator is positive.
    pub open spec fn wf(self) -> bool {
        1 <= self.den
    }

    /// Both fractions denote the same rational value.
    pub open spec fn same(self, other: Frac) -> bool {
        self.num * other.den == other.num * self.den
    }

    /// `self <= other` as rational values (for well-formed fractions).
    pub open spec fn spec_le(self, other: Frac) -> bool {
        self.num * other.den <= other.num * self.den
    }

    /// The largest integer not above the value.
    pub open spec fn spec_floor(self) -> int {
        self.num as int / self.den as int
    }

    pub fn new(num: i64, den: i64) -> (r: Frac)
        requires
            1 <= den,
        ensures
            r == (Frac { num, den }),
            r.wf(),
    {
        Frac { num, den }
    }

    pub fn from_int(v: i64) -> (r: Frac)
        ensures
            r == (Frac { num: v, den: 1 }),
            r.wf(),
    {
        Frac { num: v, den: 1 }
    }

    /// Exact value equality, by cross-multiplication.
    pub fn eq_frac(&self, other: &Frac) -> (r: bool)
        ensures
            r == self.same(*other),
    {
        crate::num::mul_wide(self.num, other.den) == crate::num::mul_wide(other.num, self.den)
    }

    /// Exact value comparison, by cross-multiplication.
    pub fn le_frac(&self, other: &Frac) -> (r: bool)
        ensures
            r == self.spec_le(*other),
    {
        crate::num::mul_wide(self.num, other.den) <= crate::num::mul_wide(other.num, self.den)
    }

    /// The floor of the value, as an integer.
    pub fn floor(&self) -> (r: i64)
        requires
            self.wf(),
        ensures
            r == self.spec_floor(),
    {
        let q = crate::num::floor_div_i128(self.num as i128, self.den as i128);
        proof {
            crate::num::lemma_floor_div_bounds(self.num as int, self.den as int);
        }
        q as i64
    }
}

} // verus!
