//! Unsigned integers of three 128-bit limbs, wide enough to hold a small
//! multiple of the product of two `u128` values, so that such products can be
//! compared without rounding and without overflow.

use vstd::prelude::*;

verus! {

/// Two to the power 128: the weight of one limb.
pub open spec fn limb_base() -> int {
    u128::MAX + 1
}

/// An unsigned integer held as three limbs, most significant first.
#[derive(Clone, Copy, Debug)]
pub struct Wide {
    pub high: u128,
    pub middle: u128,
    pub low: u128,
}

impl Wide {
    /// The number that the limbs stand for.
    pub open spec fn value(&self) -> int {
        (self.high * limb_base() + self.middle) * limb_base() + self.low
    }

    /// Whether this number is smaller than `other`.
    pub fn less_than(&self, other: &Wide) -> (r: bool)
        ensures
            r == (self.value() < other.value()),
    {
        proof {
            lemma_limbs_order(*self, *other);
            lemma_limbs_order(*other, *self);
        }
        if self.high != other.high {
            self.high < other.high
        } else if self.middle != other.middle {
            self.middle < other.middle
        } else {
            self.low < other.low
        }
    }
}

/// Limbs order numbers lexicographically.
proof fn lemma_limbs_order(a: Wide, b: Wide)
    ensures
        a.high < b.high ==> a.value() < b.value(),
        a.high == b.high && a.middle < b.middle ==> a.value() < b.value(),
        a.high == b.high && a.middle == b.middle && a.low < b.low ==> a.value() < b.value(),
        a.high == b.high && a.middle == b.middle && a.low == b.low ==> a.value() == b.value(),
{
    let base = limb_base();
    let ah = a.high * base + a.middle;
    let bh = b.high * base + b.middle;
    assert(a.high < b.high ==> ah < bh);
    assert(ah < bh ==> ah * base + a.low < bh * base + b.low) by (nonlinear_arith)
        requires
            0 <= a.low < base,
            0 <= b.low < base,
    ;
}

/// The product of two 128-bit numbers as a pair of limbs: the result is
/// `(upper, lower)` with `upper * 2^128 + lower == a * b`.
pub fn product_limbs(a: u128, b: u128) -> (r: (u128, u128))
    ensures
        r.0 * limb_base() + r.1 == a * b,
{
    let half: u128 = 0x1_0000_0000_0000_0000;
    let a0: u128 = a % half;
    let a1: u128 = a / half;
    let b0: u128 = b % half;
    let b1: u128 = b / half;
    assert(a0 * b0 <= (half - 1) * (half - 1) && a0 * b1 <= (half - 1) * (half - 1) && a1 * b0 <= (
    half - 1) * (half - 1) && a1 * b1 <= (half - 1) * (half - 1)) by (nonlinear_arith)
        requires
            0 <= a0 <= half - 1,
            0 <= a1 <= half - 1,
            0 <= b0 <= half - 1,
            0 <= b1 <= half - 1,
    ;
    let p00: u128 = a0 * b0;
    let p01: u128 = a0 * b1;
    let p10: u128 = a1 * b0;
    let p11: u128 = a1 * b1;
    let mid: u128 = p00 / half + p01 % half + p10 % half;
    let lower: u128 = p00 % half + (mid % half) * half;
    proof {
        let h = half as int;
        let whole = p11 + p01 / half + p10 / half + mid / half;
        assert(a * b == p11 * (h * h) + (p01 + p10) * h + p00) by (nonlinear_arith)
            requires
                a == a1 * h + a0,
                b == b1 * h + b0,
                p00 == a0 * b0,
                p01 == a0 * b1,
                p10 == a1 * b0,
                p11 == a1 * b1,
        ;
        assert(h * h == limb_base());
        let q00 = (p00 / half) as int;
        let q01 = (p01 / half) as int;
        let q10 = (p10 / half) as int;
        let qm = (mid / half) as int;
        let r00 = (p00 % half) as int;
        let r01 = (p01 % half) as int;
        let r10 = (p10 % half) as int;
        let rm = (mid % half) as int;
        let hh = h * h;
        assert((p01 + p10) * h + p00 == (q01 + q10) * hh + (r01 + r10 + q00) * h + r00)
            by (nonlinear_arith)
            requires
                hh == h * h,
                p00 == q00 * h + r00,
                p01 == q01 * h + r01,
                p10 == q10 * h + r10,
        ;
        assert((r01 + r10 + q00) * h == qm * hh + rm * h) by (nonlinear_arith)
            requires
                hh == h * h,
                r01 + r10 + q00 == qm * h + rm,
        ;
        assert(whole * hh == p11 * hh + (q01 + q10) * hh + qm * hh) by (nonlinear_arith)
            requires
                whole == p11 + q01 + q10 + qm,
        ;
        assert(whole * limb_base() + lower == a * b);
        assert(a * b <= (limb_base() - 1) * (limb_base() - 1)) by (nonlinear_arith)
            requires
                0 <= a <= limb_base() - 1,
                0 <= b <= limb_base() - 1,
        ;
        assert(whole < limb_base()) by (nonlinear_arith)
            requires
                whole * limb_base() + lower <= (limb_base() - 1) * (limb_base() - 1),
                lower >= 0,
                limb_base() > 1,
        ;
    }
    let upper: u128 = p11 + p01 / half + p10 / half + mid / half;
    (upper, lower)
}

/// Adds two limbs and a carry. The result is the sum's low limb and the carry
/// out of it.
fn add_limbs(a: u128, b: u128, carry: bool) -> (r: (u128, bool))
    ensures
        r.0 + (if r.1 { limb_base() } else { 0 }) == a + b + (if carry { 1int } else { 0 }),
{
    let (sum, over) = if a > u128::MAX - b {
        (a - (u128::MAX - b) - 1, true)
    } else {
        (a + b, false)
    };
    if !carry {
        (sum, over)
    } else if sum == u128::MAX {
        (0, true)
    } else {
        (sum + 1, over)
    }
}

/// Subtracts a limb and a borrow from a limb. The result is the difference's
/// low limb and the borrow out of it.
fn sub_limbs(a: u128, b: u128, borrow: bool) -> (r: (u128, bool))
    ensures
        r.0 - (if r.1 { limb_base() } else { 0 }) == a - b - (if borrow { 1int } else { 0 }),
{
    let (difference, under) = if a < b {
        (u128::MAX - (b - a) + 1, true)
    } else {
        (a - b, false)
    };
    if !borrow {
        (difference, under)
    } else if difference == 0 {
        (u128::MAX, true)
    } else {
        (difference - 1, under)
    }
}

impl Wide {
    /// The number `x`.
    pub fn from_limb(x: u128) -> (w: Wide)
        ensures
            w.value() == x,
            w.high == 0,
            w.middle == 0,
    {
        let w = Wide { high: 0, middle: 0, low: x };
        assert((0 * limb_base() + 0) * limb_base() == 0) by (nonlinear_arith);
        w
    }

    /// The product `a * b`.
    pub fn product(a: u128, b: u128) -> (w: Wide)
        ensures
            w.value() == a * b,
            w.high == 0,
    {
        let (upper, lower) = product_limbs(a, b);
        let w = Wide { high: 0, middle: upper, low: lower };
        assert(0 * limb_base() == 0) by (nonlinear_arith);
        w
    }

    /// Whether the number is zero.
    pub fn is_zero(&self) -> (r: bool)
        ensures
            r == (self.value() == 0),
    {
        proof {
            lemma_limbs_order(Wide { high: 0, middle: 0, low: 0 }, *self);
            assert((0 * limb_base() + 0) * limb_base() == 0) by (nonlinear_arith);
        }
        self.high == 0 && self.middle == 0 && self.low == 0
    }

    /// This number multiplied by `k`. The number must fit in two limbs, so
    /// that the product fits in three.
    pub fn times(&self, k: u128) -> (w: Wide)
        requires
            self.high == 0,
        ensures
            w.value() == self.value() * k,
    {
        let (carry_low, low) = product_limbs(self.low, k);
        let (carry_up, up) = product_limbs(self.middle, k);
        let (middle, carry) = add_limbs(up, carry_low, false);
        proof {
            let base = limb_base();
            let m = self.middle as int;
            let l = self.low as int;
            assert(m * k <= (base - 1) * (base - 1)) by (nonlinear_arith)
                requires
                    0 <= m <= base - 1,
                    0 <= k <= base - 1,
            ;
            assert(carry_up <= base - 2) by (nonlinear_arith)
                requires
                    carry_up * base + up == m * k,
                    m * k <= (base - 1) * (base - 1),
                    up >= 0,
                    base > 1,
            ;
            let c: int = if carry { 1 } else { 0 };
            assert(((carry_up + c) * base + middle) * base + low == ((0 * base + m) * base + l) * k)
                by (nonlinear_arith)
                requires
                    carry_low * base + low == l * k,
                    carry_up * base + up == m * k,
                    middle + c * base == up + carry_low,
            ;
        }
        let high: u128 = if carry {
            carry_up + 1
        } else {
            carry_up
        };
        Wide { high, middle, low }
    }

    /// The sum of this number and `other`, where it fits in three limbs.
    pub fn plus(&self, other: &Wide) -> (w: Wide)
        requires
            self.value() + other.value() < limb_base() * limb_base() * limb_base(),
        ensures
            w.value() == self.value() + other.value(),
    {
        let (low, carry_low) = add_limbs(self.low, other.low, false);
        let (middle, carry_middle) = add_limbs(self.middle, other.middle, carry_low);
        proof {
            let base = limb_base();
            let c0: int = if carry_low { 1 } else { 0 };
            let c1: int = if carry_middle { 1 } else { 0 };
            let top = self.high + other.high + c1;
            assert((top * base + middle) * base + low == ((self.high * base + self.middle) * base
                + self.low) + ((other.high * base + other.middle) * base + other.low))
                by (nonlinear_arith)
                requires
                    low + c0 * base == self.low + other.low,
                    middle + c1 * base == self.middle + other.middle + c0,
                    top == self.high + other.high + c1,
            ;
            assert(top < base) by (nonlinear_arith)
                requires
                    (top * base + middle) * base + low < base * base * base,
                    middle >= 0,
                    low >= 0,
                    base > 0,
            ;
        }
        let high: u128 = if carry_middle {
            self.high + other.high + 1
        } else {
            self.high + other.high
        };
        Wide { high, middle, low }
    }

    /// This number less `other`, which must not be the larger one.
    pub fn minus(&self, other: &Wide) -> (w: Wide)
        requires
            other.value() <= self.value(),
        ensures
            w.value() == self.value() - other.value(),
    {
        let (low, borrow_low) = sub_limbs(self.low, other.low, false);
        let (middle, borrow_middle) = sub_limbs(self.middle, other.middle, borrow_low);
        proof {
            let base = limb_base();
            let b0: int = if borrow_low { 1 } else { 0 };
            let b1: int = if borrow_middle { 1 } else { 0 };
            let top = self.high - other.high - b1;
            assert((top * base + middle) * base + low == ((self.high * base + self.middle) * base
                + self.low) - ((other.high * base + other.middle) * base + other.low))
                by (nonlinear_arith)
                requires
                    low - b0 * base == self.low - other.low,
                    middle - b1 * base == self.middle - other.middle - b0,
                    top == self.high - other.high - b1,
            ;
            assert(top >= 0) by (nonlinear_arith)
                requires
                    (top * base + middle) * base + low >= 0,
                    0 <= middle < base,
                    0 <= low < base,
                    base > 0,
            ;
        }
        let high: u128 = if borrow_middle {
            self.high - other.high - 1
        } else {
            self.high - other.high
        };
        Wide { high, middle, low }
    }
}

/// The magnitude of a signed number.
pub fn magnitude(v: i128) -> (m: u128)
    ensures
        m == if v < 0 {
            -(v as int)
        } else {
            v as int
        },
{
    if v >= 0 {
        v as u128
    } else if v == i128::MIN {
        0x8000_0000_0000_0000_0000_0000_0000_0000
    } else {
        (-v) as u128
    }
}

/// `factor * a * b`, exactly.
pub fn scaled_product(factor: u8, a: u128, b: u128) -> (w: Wide)
    ensures
        w.value() == factor * (a * b),
{
    let w = Wide::product(a, b).times(factor as u128);
    assert((a * b) * factor == factor * (a * b)) by (nonlinear_arith);
    w
}

} // verus!
