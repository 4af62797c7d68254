//! Exact non-negative rational values.
//!
//! Detector statistics are quotients (a pixel sum over a pixel count, a
//! window sum over the window length). Carrying numerator and denominator
//! separately keeps every statistic exact; thresholds compare by
//! cross-multiplication, which for `u64` parts always fits in `u128`.

use vstd::prelude::*;

verus! {

/// A non-negative rational `num / den`; well-formed only when `den > 0`.
#[derive(Clone, Copy, Debug, PartialEq, Eq, Structural)]
pub struct Ratio {
    pub num: u64,
    pub den: u64,
}

/// Mathematical comparison `a.num/a.den >= b.num/b.den`, phrased without
/// division so it is meaningful for all denominators.
pub open spec fn ratio_ge(a: Ratio, b: Ratio) -> bool {
    a.num * b.den >= b.num * a.den
}

impl Ratio {
    pub open spec fn wf(self) -> bool {
        self.den > 0
    }

    pub fn new(num: u64, den: u64) -> (r: Ratio)
        requires
            den > 0,
        ensures
            r.num == num,
            r.den == den,
            r.wf(),
    {
        Ratio { num, den }
    }

    /// True exactly when this value is at least `other`.
    pub fn ge(&self, other: &Ratio) -> (r: bool)
        ensures
            r == ratio_ge(*self, *other),
    {
        proof {
            assert((self.num as u128) * (other.den as u128)
                < 0x1_0000_0000_0000_0000u128 * 0x1_0000_0000_0000_0000u128
                && (other.num as u128) * (self.den as u128)
                < 0x1_0000_0000_0000_0000u128 * 0x1_0000_0000_0000_0000u128)
                by (nonlinear_arith)
                requires
                    self.num < 0x1_0000_0000_0000_0000u128,
                    other.den < 0x1_0000_0000_0000_0000u128,
                    other.num < 0x1_0000_0000_0000_0000u128,
                    self.den < 0x1_0000_0000_0000_0000u128,
            ;
        }
        let lhs: u128 = (self.num as u128) * (other.den as u128);
        let rhs: u128 = (other.num as u128) * (self.den as u128);
        lhs >= rhs
    }

    /// True exactly when this value equals zero (requires a positive
    /// denominator to coincide with the mathematical statement).
    pub fn is_zero(&self) -> (r: bool)
        requires
            self.wf(),
        ensures
            r == (self.num == 0),
    {
        self.num == 0
    }
}

} // verus!
