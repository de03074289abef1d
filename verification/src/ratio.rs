//! Fractions with a positive denominator, compared without dividing.

use vstd::prelude::*;
use crate::arith::mul_wide;

verus! {

/// The number `num / den` that a [`Ratio`] stands for.
pub struct Fraction {
    pub num: int,
    pub den: int,
}

impl Fraction {
    /// The denominator is positive.
    pub open spec fn wf(self) -> bool {
        self.den > 0
    }

    /// `self < n / d`, for a positive `d`.
    pub open spec fn lt_fraction(self, n: int, d: int) -> bool {
        self.num * d < n * self.den
    }

    /// `self > n / d`, for a positive `d`.
    pub open spec fn gt_fraction(self, n: int, d: int) -> bool {
        self.num * d > n * self.den
    }

    /// `self < other`.
    pub open spec fn lt(self, other: Fraction) -> bool {
        self.lt_fraction(other.num, other.den)
    }

    /// `self > other`.
    pub open spec fn gt(self, other: Fraction) -> bool {
        self.gt_fraction(other.num, other.den)
    }

    /// The two fractions stand for the same number.
    pub open spec fn same_value(self, other: Fraction) -> bool {
        self.num * other.den == other.num * self.den
    }

    /// The distance between the two fractions is less than `1 / window`.
    pub open spec fn closer_than(self, other: Fraction, window: int) -> bool {
        let difference = self.num * other.den - other.num * self.den;
        let scale = self.den * other.den;
        -scale < difference * window < scale
    }

    /// The fraction lies between zero and one.
    pub open spec fn in_unit_interval(self) -> bool {
        0 <= self.num <= self.den
    }

    /// The fraction, moved to the nearer end of the unit interval where it
    /// lies outside.
    pub open spec fn clamped_to_unit(self) -> Fraction {
        if self.num < 0 {
            Fraction { num: 0, den: self.den }
        } else if self.num > self.den {
            Fraction { num: self.den, den: self.den }
        } else {
            self
        }
    }

    /// One minus the fraction.
    pub open spec fn complement(self) -> Fraction {
        Fraction { num: self.den - self.num, den: self.den }
    }
}

/// A fraction `num / den` whose denominator is positive.
///
/// Two fractions are compared by cross-multiplication, so no comparison ever
/// rounds.
#[derive(Clone, Copy, Debug)]
pub struct Ratio {
    num: i64,
    den: i64,
}

impl View for Ratio {
    type V = Fraction;

    closed spec fn view(&self) -> Fraction {
        Fraction { num: self.num as int, den: self.den as int }
    }
}

impl Ratio {
    #[verifier::type_invariant]
    spec fn positive_denominator(self) -> bool {
        self.den > 0
    }

    /// The fraction `num / den`.
    pub fn new(num: i64, den: i64) -> (r: Ratio)
        requires
            den > 0,
        ensures
            r@ == (Fraction { num: num as int, den: den as int }),
    {
        Ratio { num, den }
    }

    pub fn numerator(&self) -> (n: i64)
        ensures
            n == self@.num,
    {
        self.num
    }

    pub fn denominator(&self) -> (d: i64)
        ensures
            d == self@.den,
            d > 0,
    {
        proof {
            use_type_invariant(self);
        }
        self.den
    }

    pub fn is_less_than_fraction(&self, n: i64, d: i64) -> (b: bool)
        ensures
            b == self@.lt_fraction(n as int, d as int),
    {
        mul_wide(self.num, d) < mul_wide(n, self.den)
    }

    pub fn is_greater_than_fraction(&self, n: i64, d: i64) -> (b: bool)
        ensures
            b == self@.gt_fraction(n as int, d as int),
    {
        mul_wide(self.num, d) > mul_wide(n, self.den)
    }

    pub fn is_less_than(&self, other: &Ratio) -> (b: bool)
        ensures
            b == self@.lt(other@),
    {
        self.is_less_than_fraction(other.num, other.den)
    }

    pub fn is_greater_than(&self, other: &Ratio) -> (b: bool)
        ensures
            b == self@.gt(other@),
    {
        self.is_greater_than_fraction(other.num, other.den)
    }

    /// Whether the two fractions differ by less than one part in `window`.
    pub fn is_closer_than(&self, other: &Ratio, window: i64) -> (b: bool)
        requires
            0 < window <= 1_000_000,
        ensures
            b == self@.closer_than(other@, window as int),
    {
        proof {
            use_type_invariant(self);
            use_type_invariant(other);
        }
        let left: i128 = mul_wide(self.num, other.den);
        let right: i128 = mul_wide(other.num, self.den);
        let scale: i128 = mul_wide(self.den, other.den);
        proof {
            assert(scale > 0) by (nonlinear_arith)
                requires
                    scale == self.den * other.den,
                    self.den > 0,
                    other.den > 0,
            ;
            // left and right cannot sit at opposite ends of the range
            if left == 0x4000_0000_0000_0000_0000_0000_0000_0000 {
                assert(false) by (nonlinear_arith)
                    requires
                        -0x8000_0000_0000_0000 <= self.num < 0x8000_0000_0000_0000,
                        0 < other.den < 0x8000_0000_0000_0000,
                        self.num * other.den == 0x4000_0000_0000_0000_0000_0000_0000_0000,
                ;
            }
            if right == 0x4000_0000_0000_0000_0000_0000_0000_0000 {
                assert(false) by (nonlinear_arith)
                    requires
                        -0x8000_0000_0000_0000 <= other.num < 0x8000_0000_0000_0000,
                        0 < self.den < 0x8000_0000_0000_0000,
                        other.num * self.den == 0x4000_0000_0000_0000_0000_0000_0000_0000,
                ;
            }
        }
        let difference: i128 = left - right;
        let distance: i128 = if difference < 0 {
            -difference
        } else {
            difference
        };
        // distance * window < scale, without forming the product
        let reach: i128 = (scale - 1) / (window as i128);
        proof {
            let w = window as int;
            let s = scale as int;
            let d = distance as int;
            assert(d <= (s - 1) / w <==> d * w < s) by (nonlinear_arith)
                requires
                    w > 0,
                    s > 0,
                    d >= 0,
            ;
            assert(difference * w == -(distance * w) || difference * w == distance * w)
                by (nonlinear_arith)
                requires
                    distance == difference || distance == -difference,
            ;
            assert(d * w >= 0) by (nonlinear_arith)
                requires
                    d >= 0,
                    w > 0,
            ;
        }
        distance <= reach
    }

    /// The fraction, moved to the nearer end of the unit interval where it
    /// lies outside.
    pub fn clamp_to_unit(&self) -> (r: Ratio)
        ensures
            r@ == self@.clamped_to_unit(),
            r@.in_unit_interval(),
            r@.wf(),
    {
        proof {
            use_type_invariant(self);
        }
        if self.num < 0 {
            Ratio { num: 0, den: self.den }
        } else if self.num > self.den {
            Ratio { num: self.den, den: self.den }
        } else {
            Ratio { num: self.num, den: self.den }
        }
    }
}

} // verus!
