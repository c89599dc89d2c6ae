//! Exact integer ratios.
//!
//! Measurements and solver results are rationals: an average of integer
//! readings, or the solution of an integer linear system. A `Rat` keeps such
//! a value exactly as a numerator over a positive denominator, instead of
//! rounding it into a machine float.

use vstd::prelude::*;

verus! {

/// A rational number `num / den`. Well-formed values keep `den` positive, so
/// the sign of the value is the sign of `num`.
#[derive(Clone, Copy, Debug, PartialEq, Eq, Structural)]
pub struct Rat {
    pub num: i128,
    pub den: i128,
}

impl Rat {
    /// A well-formed ratio has a positive denominator.
    pub open spec fn wf(self) -> bool {
        self.den > 0
    }

    /// Both components lie within `bound`: `|num| <= bound` and
    /// `0 < den <= bound`. Contracts use this to keep products of
    /// numerators and denominators inside `i128`.
    pub open spec fn within(self, bound: int) -> bool {
        &&& -bound <= self.num <= bound
        &&& 0 < self.den <= bound
    }

    pub fn new(num: i128, den: i128) -> (r: Rat)
        requires
            den > 0,
        ensures
            r.num == num,
            r.den == den,
            r.wf(),
    {
        Rat { num, den }
    }
}

/// The two ratios denote the same rational number (by cross-multiplication;
/// meaningful when both are well formed).
pub open spec fn rat_eq(a: Rat, b: Rat) -> bool {
    a.num * b.den == b.num * a.den
}

/// `a` denotes a strictly smaller rational number than `b` (by
/// cross-multiplication; meaningful when both are well formed).
pub open spec fn rat_lt(a: Rat, b: Rat) -> bool {
    a.num * b.den < b.num * a.den
}

} // verus!
