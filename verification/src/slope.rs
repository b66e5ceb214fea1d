//! Exact rational slopes.
//!
//! A boundary ray from the origin is the rational number `y / x`, held as an
//! integer pair. All comparisons cross-multiply, so no precision is ever
//! lost; the products are taken at 64 bits, so any 32-bit pair compares
//! without overflow.

use vstd::prelude::*;

verus! {

/// The rational slope `y / x` of a ray from the local origin.
#[derive(Clone, Copy, Debug)]
pub struct Slope {
    pub x: i32,
    pub y: i32,
}

/// `sy / sx > y / x`, compared by cross-multiplication.
pub open spec fn slope_gt(sy: int, sx: int, y: int, x: int) -> bool {
    sy * x > sx * y
}

/// `sy / sx >= y / x`, compared by cross-multiplication.
pub open spec fn slope_ge(sy: int, sx: int, y: int, x: int) -> bool {
    sy * x >= sx * y
}

/// `sy / sx <= y / x`, compared by cross-multiplication.
pub open spec fn slope_le(sy: int, sx: int, y: int, x: int) -> bool {
    sy * x <= sx * y
}

/// A well-formed scan boundary: a slope between 0/1 and 1/1 inclusive,
/// with a positive denominator.
pub open spec fn slope_wf(s: Slope) -> bool {
    1 <= s.x && 0 <= s.y <= s.x
}

/// The product of two 32-bit values always fits in 64 bits.
pub(crate) proof fn lemma_i32_prod_fits(a: int, b: int)
    requires
        -0x8000_0000 <= a < 0x8000_0000,
        -0x8000_0000 <= b < 0x8000_0000,
    ensures
        -0x4000_0000_0000_0000 <= a * b <= 0x4000_0000_0000_0000,
{
    assert(-0x4000_0000_0000_0000 <= a * b <= 0x4000_0000_0000_0000) by (nonlinear_arith)
        requires
            -0x8000_0000 <= a < 0x8000_0000,
            -0x8000_0000 <= b < 0x8000_0000,
    ;
}

impl Slope {
    /// `self > y / x`.
    pub fn greater(&self, y: i32, x: i32) -> (r: bool)
        ensures
            r == slope_gt(self.y as int, self.x as int, y as int, x as int),
    {
        proof {
            lemma_i32_prod_fits(self.y as int, x as int);
            lemma_i32_prod_fits(self.x as int, y as int);
        }
        (self.y as i64) * (x as i64) > (self.x as i64) * (y as i64)
    }

    /// `self >= y / x`.
    pub fn greater_or_equal(&self, y: i32, x: i32) -> (r: bool)
        ensures
            r == slope_ge(self.y as int, self.x as int, y as int, x as int),
    {
        proof {
            lemma_i32_prod_fits(self.y as int, x as int);
            lemma_i32_prod_fits(self.x as int, y as int);
        }
        (self.y as i64) * (x as i64) >= (self.x as i64) * (y as i64)
    }

    /// `self <= y / x`.
    pub fn less_or_equal(&self, y: i32, x: i32) -> (r: bool)
        ensures
            r == slope_le(self.y as int, self.x as int, y as int, x as int),
    {
        proof {
            lemma_i32_prod_fits(self.y as int, x as int);
            lemma_i32_prod_fits(self.x as int, y as int);
        }
        (self.y as i64) * (x as i64) <= (self.x as i64) * (y as i64)
    }
}

} // verus!
