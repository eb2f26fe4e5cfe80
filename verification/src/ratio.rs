//! Quotients of integers, the form in which every statistic is stated.

use vstd::prelude::*;
use crate::wide::Wide;

verus! {

/// A quotient of two integers. With a zero denominator it stands for no number:
/// the outcome of a division by zero, which is reported and never replaced.
pub struct Ratio {
    pub num: int,
    pub den: int,
}

impl Ratio {
    /// Whether the quotient is a number.
    pub open spec fn is_finite(self) -> bool {
        self.den != 0
    }

    /// Whether both quotients are numbers, and the same number.
    pub open spec fn same_value(self, other: Ratio) -> bool {
        self.den != 0 && other.den != 0 && self.num * other.den == other.num * self.den
    }

    /// The quotient multiplied by the integer `k`.
    pub open spec fn times(self, k: int) -> Ratio {
        Ratio { num: k * self.num, den: self.den }
    }

    /// Whether the quotient is a number and at least the integer `k`.
    pub open spec fn at_least(self, k: int) -> bool {
        self.den > 0 && self.num >= k * self.den
    }

    /// Whether the quotient is a number and at most the integer `k`.
    pub open spec fn at_most(self, k: int) -> bool {
        self.den > 0 && self.num <= k * self.den
    }

    /// The quotient increased by the integer `c`.
    pub open spec fn plus(self, c: int) -> Ratio {
        Ratio { num: self.num + c * self.den, den: self.den }
    }
}

/// The number `numerator / sqrt(radicand)`. With a zero radicand it stands for
/// no number.
pub struct RootRatio {
    pub numerator: int,
    pub radicand: int,
}

impl RootRatio {
    /// Whether the value is a number.
    pub open spec fn is_finite(self) -> bool {
        self.radicand > 0
    }

    /// The square of the value.
    pub open spec fn squared(self) -> Ratio {
        Ratio { num: self.numerator * self.numerator, den: self.radicand }
    }

    /// Whether the value lies between -1 and 1, both included.
    pub open spec fn within_unit(self) -> bool {
        self.numerator * self.numerator <= self.radicand
    }
}

/// A quotient as computed: a sign, and the magnitudes of the numerator and of
/// the denominator.
#[derive(Clone, Copy, Debug)]
pub struct Fraction {
    /// Whether the numerator is to be taken negative.
    pub negative: bool,
    pub numerator: Wide,
    pub denominator: Wide,
}

impl View for Fraction {
    type V = Ratio;

    open spec fn view(&self) -> Ratio {
        Ratio {
            num: if self.negative {
                -self.numerator.value()
            } else {
                self.numerator.value()
            },
            den: self.denominator.value(),
        }
    }
}

/// The number `numerator / sqrt(radicand)` as computed.
#[derive(Clone, Copy, Debug)]
pub struct RootFraction {
    pub numerator: i128,
    pub radicand: Wide,
}

impl View for RootFraction {
    type V = RootRatio;

    open spec fn view(&self) -> RootRatio {
        RootRatio { numerator: self.numerator as int, radicand: self.radicand.value() }
    }
}

} // verus!
