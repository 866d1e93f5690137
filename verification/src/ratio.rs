//! Exact threshold arithmetic.  Thresholds and tally shares are compared as
//! rational numbers, so no rounding can move a voting across a threshold.

use vstd::prelude::*;

verus! {

/// A non-negative rational number `num / den`.  Well-formed when `den > 0`.
#[derive(Clone, Copy, PartialEq, Eq, Structural, Debug)]
pub struct Ratio {
    pub num: u32,
    pub den: u32,
}

impl Ratio {
    pub open spec fn wf(self) -> bool {
        self.den > 0
    }

    /// `a/b <= c/d` exactly when `a*d <= c*b` (for positive denominators).
    pub open spec fn le_spec(self, other: Ratio) -> bool {
        self.num * other.den <= other.num * self.den
    }

    pub fn le(self, other: Ratio) -> (r: bool)
        ensures
            r == self.le_spec(other),
    {
        let a = self.num as u64;
        let b = other.den as u64;
        let c = other.num as u64;
        let d = self.den as u64;
        proof {
            assert(a * b <= u32::MAX as u64 * u32::MAX as u64) by (nonlinear_arith)
                requires
                    a <= u32::MAX as u64,
                    b <= u32::MAX as u64,
            ;
            assert(c * d <= u32::MAX as u64 * u32::MAX as u64) by (nonlinear_arith)
                requires
                    c <= u32::MAX as u64,
                    d <= u32::MAX as u64,
            ;
        }
        a * b <= c * d
    }
}

/// Whether `small` out of `big` reaches the threshold share.
///
/// For `big > 0` this is exactly `small / big >= threshold`, decided by
/// cross-multiplication.  With nothing to take a share of (`big == 0`), any
/// positive amount counts as passing and zero does not.
pub open spec fn passes_threshold(small: u64, big: u64, threshold: Ratio) -> bool {
    if big == 0 {
        small > 0
    } else {
        small * threshold.den >= threshold.num * big
    }
}

/// Decides whether `small` out of `big` reaches `threshold`.
pub fn is_passing_threshold(small: u64, big: u64, threshold: Ratio) -> (r: bool)
    ensures
        r == passes_threshold(small, big, threshold),
{
    if big == 0 {
        small > 0
    } else {
        let a = small as u128;
        let b = threshold.den as u128;
        let c = threshold.num as u128;
        let d = big as u128;
        proof {
            assert(a * b <= u64::MAX as u128 * u32::MAX as u128) by (nonlinear_arith)
                requires
                    a <= u64::MAX as u128,
                    b <= u32::MAX as u128,
            ;
            assert(c * d <= u32::MAX as u128 * u64::MAX as u128) by (nonlinear_arith)
                requires
                    c <= u32::MAX as u128,
                    d <= u64::MAX as u128,
            ;
        }
        a * b >= c * d
    }
}

} // verus!
