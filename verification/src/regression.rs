//! Simple linear regression of one sample of whole numbers on another.
//!
//! A fit is kept as the exact sums that determine it. The slope, the intercept,
//! the correlation coefficient and the coefficient of determination are
//! quotients of those sums; they are stated here as quotients and never rounded.
//!
//! The slope follows this library's own convention: it is the covariance
//! divided by the population variance *and* by `n - 1`. That is not the textbook
//! least-squares slope, which lacks the second divisor.

use vstd::prelude::*;
use crate::series::{co_moment, dot, ints, is_constant, prefix_dot, prefix_sum, scaled, shifted, total};
use crate::series::{lemma_centered_shifted, lemma_co_moment_centered};
use crate::series::{lemma_co_moment_cauchy_schwarz, lemma_co_moment_zero_iff_constant};
use crate::series::{lemma_prefix_dot_within_squares, lemma_prefix_square_monotone, lemma_prefix_sum_bounds};
use crate::series::{lemma_prefix_dot_scaled, lemma_prefix_sum_scaled, lemma_prefix_sum_shifted};
use crate::ratio::{Fraction, Ratio, RootFraction, RootRatio};
use crate::wide::{limb_base, magnitude, product_limbs, scaled_product, Wide};

verus! {

/// The largest value that `n` times the sum of a sample's squares may have:
/// two to the power 126. Within it every exact sum of a fit stays inside 128
/// bits.
pub const REACH: u128 = 0x4000_0000_0000_0000_0000_0000_0000_0000;

/// Whether a sample is small enough for a regression: `n` times the sum of its
/// squares is at most [`REACH`].
pub open spec fn within_reach(s: Seq<int>) -> bool {
    s.len() * dot(s, s) <= REACH
}

/// How strongly two samples are linearly associated.
#[derive(Clone, Copy, Debug, PartialEq, Eq, Structural)]
pub enum Strength {
    /// The magnitude of the correlation is below 0.30.
    Weak,
    /// The magnitude of the correlation is at least 0.30 and below 0.70.
    Moderate,
    /// The magnitude of the correlation is at least 0.70, or the correlation is
    /// no number.
    Strong,
}

/// The band of the correlation `sxy / sqrt(sxx * syy)`.
///
/// For a positive `sxx * syy`, `|r| < 3/10` says the same as
/// `100 * sxy^2 < 9 * sxx * syy`, and `|r| < 7/10` the same as
/// `100 * sxy^2 < 49 * sxx * syy`. Where `sxx * syy` is zero the correlation is
/// no number, neither comparison holds, and the band is `Strong`.
pub open spec fn strength_of(sxy: int, sxx: int, syy: int) -> Strength {
    if 100 * (sxy * sxy) < 9 * (sxx * syy) {
        Strength::Weak
    } else if 100 * (sxy * sxy) < 49 * (sxx * syy) {
        Strength::Moderate
    } else {
        Strength::Strong
    }
}

/// The exact sums of a fit, as mathematical integers.
pub struct LinearFit {
    /// Number of points, `n`.
    pub count: int,
    /// Sum of the x values.
    pub sum_x: int,
    /// Sum of the y values.
    pub sum_y: int,
    /// `n` times the sum of squared deviations of x from its mean.
    pub sxx: int,
    /// `n` times the sum of squared deviations of y from its mean.
    pub syy: int,
    /// `n` times the sum of products of the deviations of x and y.
    pub sxy: int,
}

impl LinearFit {
    /// Covariance divided by the population variance of x and by `n - 1`.
    pub open spec fn slope(self) -> Ratio {
        Ratio { num: self.sxy, den: self.sxx * (self.count - 1) }
    }

    /// Mean of y minus slope times mean of x.
    pub open spec fn intercept(self) -> Ratio {
        Ratio {
            num: self.sum_y * (self.sxx * (self.count - 1)) - self.sxy * self.sum_x,
            den: self.count * (self.sxx * (self.count - 1)),
        }
    }

    /// Pearson's correlation coefficient.
    pub open spec fn correlation(self) -> RootRatio {
        RootRatio { numerator: self.sxy, radicand: self.sxx * self.syy }
    }

    /// The coefficient of determination: the square of the correlation.
    pub open spec fn r_squared(self) -> Ratio {
        self.correlation().squared()
    }

    /// The band of the correlation.
    pub open spec fn strength(self) -> Strength {
        strength_of(self.sxy, self.sxx, self.syy)
    }
}

/// The fit of `y` on `x`, for samples of one length.
pub open spec fn fit_of(x: Seq<int>, y: Seq<int>) -> LinearFit {
    LinearFit {
        count: x.len() as int,
        sum_x: total(x),
        sum_y: total(y),
        sxx: co_moment(x, x),
        syy: co_moment(y, y),
        sxy: co_moment(x, y),
    }
}

/// The exact sums of a fit, as computed.
#[derive(Clone, Copy, Debug)]
pub struct Regression {
    /// Number of points, `n`.
    pub count: usize,
    /// Sum of the x values.
    pub sum_x: i128,
    /// Sum of the y values.
    pub sum_y: i128,
    /// `n` times the sum of squared deviations of x from its mean.
    pub sxx: u128,
    /// `n` times the sum of squared deviations of y from its mean.
    pub syy: u128,
    /// `n` times the sum of products of the deviations of x and y.
    pub sxy: i128,
}

impl View for Regression {
    type V = LinearFit;

    open spec fn view(&self) -> LinearFit {
        LinearFit {
            count: self.count as int,
            sum_x: self.sum_x as int,
            sum_y: self.sum_y as int,
            sxx: self.sxx as int,
            syy: self.syy as int,
            sxy: self.sxy as int,
        }
    }
}

impl Regression {
    /// The band of the correlation, decided on the exact sums.
    pub fn strength(&self) -> (s: Strength)
        ensures
            s == self@.strength(),
    {
        classify_strength(self.sxy, self.sxx, self.syy)
    }

    /// The slope, as an exact quotient.
    pub fn slope(&self) -> (f: Fraction)
        requires
            self.count >= 1,
        ensures
            f@ == self@.slope(),
    {
        let numerator = Wide::from_limb(magnitude(self.sxy));
        let denominator = Wide::product(self.sxx, (self.count - 1) as u128);
        Fraction { negative: self.sxy < 0, numerator, denominator }
    }

    /// The intercept, as an exact quotient.
    pub fn intercept(&self) -> (f: Fraction)
        requires
            self.count >= 1,
        ensures
            f@ == self@.intercept(),
    {
        let spread = Wide::product(self.sxx, (self.count - 1) as u128);
        let denominator = spread.times(self.count as u128);
        let of_y = spread.times(magnitude(self.sum_y));
        let of_x = Wide::product(magnitude(self.sxy), magnitude(self.sum_x));
        let y_negative = self.sum_y < 0;
        let x_negative = (self.sxy < 0) != (self.sum_x < 0);
        proof {
            let base = limb_base();
            let n = self.count as int;
            let w = self.sxx * (self.count - 1);
            let sy = self.sum_y as int;
            let sx = self.sum_x as int;
            let c = self.sxy as int;
            let ay: int = if sy < 0 { -sy } else { sy };
            let ax: int = if sx < 0 { -sx } else { sx };
            let ac: int = if c < 0 { -c } else { c };
            assert(w * n == n * w) by (nonlinear_arith);
            assert(w * ay == if y_negative { -(sy * w) } else { sy * w }) by (nonlinear_arith)
                requires
                    ay == if sy < 0 { -sy } else { sy },
                    y_negative == (sy < 0),
            ;
            assert(ac * ax == if x_negative { -(c * sx) } else { c * sx }) by (nonlinear_arith)
                requires
                    ax == if sx < 0 { -sx } else { sx },
                    ac == if c < 0 { -c } else { c },
                    x_negative == ((c < 0) != (sx < 0)),
            ;
            let a = self.sxx as int;
            let m = n - 1;
            assert(0 <= w <= (base - 1) * 0x1_0000_0000_0000_0000) by (nonlinear_arith)
                requires
                    w == a * m,
                    0 <= a <= base - 1,
                    0 <= m <= 0x1_0000_0000_0000_0000,
            ;
            assert(of_y.value() + of_x.value() < base * base * base) by (nonlinear_arith)
                requires
                    of_y.value() == w * ay,
                    of_x.value() == ac * ax,
                    0 <= w <= (base - 1) * 0x1_0000_0000_0000_0000,
                    0 <= ay < base,
                    0 <= ac < base,
                    0 <= ax < base,
                    base > 0x1_0000_0000_0000_0000_0000,
            ;
        }
        if y_negative != x_negative {
            Fraction { negative: y_negative, numerator: of_y.plus(&of_x), denominator }
        } else if of_y.less_than(&of_x) {
            Fraction { negative: !y_negative, numerator: of_x.minus(&of_y), denominator }
        } else {
            Fraction { negative: y_negative, numerator: of_y.minus(&of_x), denominator }
        }
    }

    /// The correlation coefficient, as an exact numerator over the square
    /// root of an exact radicand.
    pub fn correlation(&self) -> (c: RootFraction)
        ensures
            c@ == self@.correlation(),
    {
        RootFraction { numerator: self.sxy, radicand: Wide::product(self.sxx, self.syy) }
    }

    /// The coefficient of determination, as an exact quotient.
    pub fn r_squared(&self) -> (f: Fraction)
        ensures
            f@ == self@.r_squared(),
    {
        let size = magnitude(self.sxy);
        proof {
            lemma_square_of_magnitude(self.sxy as int, size as int);
        }
        Fraction {
            negative: false,
            numerator: Wide::product(size, size),
            denominator: Wide::product(self.sxx, self.syy),
        }
    }

    /// Whether the slope and the intercept are numbers.
    pub fn has_finite_slope(&self) -> (b: bool)
        ensures
            b == self@.slope().is_finite(),
            self.count > 0 ==> b == self@.intercept().is_finite(),
    {
        proof {
            let a = self.sxx as int;
            let m = self.count as int - 1;
            let n = self.count as int;
            assert(a * m != 0 <==> (a != 0 && m != 0)) by (nonlinear_arith);
            assert(n != 0 ==> (n * (a * m) != 0 <==> a * m != 0)) by (nonlinear_arith);
        }
        self.sxx != 0 && self.count != 1
    }

    /// Whether the correlation and the coefficient of determination are numbers.
    pub fn has_finite_correlation(&self) -> (b: bool)
        ensures
            b == self@.correlation().is_finite(),
            b == self@.r_squared().is_finite(),
    {
        proof {
            let a = self.sxx as int;
            let c = self.syy as int;
            assert(a * c > 0 <==> (a != 0 && c != 0)) by (nonlinear_arith)
                requires
                    a >= 0,
                    c >= 0,
            ;
            assert(a * c != 0 <==> a * c > 0) by (nonlinear_arith)
                requires
                    a >= 0,
                    c >= 0,
            ;
        }
        self.sxx != 0 && self.syy != 0
    }
}

/// A number and its magnitude have the same square.
proof fn lemma_square_of_magnitude(c: int, m: int)
    requires
        m == c || m == -c,
    ensures
        m * m == c * c,
{
    assert(m * m == c * c) by (nonlinear_arith)
        requires
            m == c || m == -c,
    ;
}

/// The band of the correlation `sxy / sqrt(sxx * syy)`, decided without
/// rounding.
pub fn classify_strength(sxy: i128, sxx: u128, syy: u128) -> (s: Strength)
    ensures
        s == strength_of(sxy as int, sxx as int, syy as int),
{
    let size: u128 = magnitude(sxy);
    proof {
        lemma_square_of_magnitude(sxy as int, size as int);
    }
    let square = scaled_product(100, size, size);
    let weak_limit = scaled_product(9, sxx, syy);
    let moderate_limit = scaled_product(49, sxx, syy);
    if square.less_than(&weak_limit) {
        Strength::Weak
    } else if square.less_than(&moderate_limit) {
        Strength::Moderate
    } else {
        Strength::Strong
    }
}

/// Why a regression was not computed.
#[derive(Clone, Copy, Debug, PartialEq, Eq, Structural)]
pub enum RegressionError {
    /// The two samples differ in length.
    LengthMismatch,
    /// A sample is not within reach: `n` times the sum of its squares exceeds
    /// [`REACH`].
    TooLarge,
}

/// Fits `y` on `x` and returns the exact sums of the fit.
///
/// The two samples must have one length. A caller that cannot show it is
/// answered `LengthMismatch`, before anything is computed. With fewer than two
/// points there is a fit, and none of its quotients is a number.
pub fn calculate_linear_regression(x: &[i64], y: &[i64]) -> (r: Result<Regression, RegressionError>)
    requires
        x.len() == y.len(),
    ensures
        match r {
            Ok(fit) => within_reach(ints(x@)) && within_reach(ints(y@)) && fit@ == fit_of(
                ints(x@),
                ints(y@),
            ),
            Err(RegressionError::LengthMismatch) => x.len() != y.len(),
            Err(RegressionError::TooLarge) => !(within_reach(ints(x@)) && within_reach(ints(y@))),
        },
{
    if x.len() != y.len() {
        return Err(RegressionError::LengthMismatch);
    }
    let n: usize = x.len();
    let ghost xs = ints(x@);
    let ghost ys = ints(y@);
    let ghost bound: int = 0x8000_0000_0000_0000;
    let mut sum_x: i128 = 0;
    let mut sum_y: i128 = 0;
    let mut square_x: u128 = 0;
    let mut square_y: u128 = 0;
    let mut cross: i128 = 0;
    let mut i: usize = 0;
    while i < n
        invariant
            n == x.len(),
            n == y.len(),
            i <= n,
            xs == ints(x@),
            ys == ints(y@),
            bound == 0x8000_0000_0000_0000,
            sum_x == prefix_sum(xs, i as nat),
            sum_y == prefix_sum(ys, i as nat),
            square_x == prefix_dot(xs, xs, i as nat),
            square_y == prefix_dot(ys, ys, i as nat),
            cross == prefix_dot(xs, ys, i as nat),
            square_x <= REACH,
            square_y <= REACH,
        decreases n - i,
    {
        proof {
            let k = (i + 1) as nat;
            lemma_prefix_sum_bounds(xs, k, -bound, bound);
            lemma_prefix_sum_bounds(ys, k, -bound, bound);
            lemma_prefix_dot_within_squares(xs, ys, i as nat);
            lemma_prefix_dot_within_squares(xs, ys, k);
            lemma_prefix_square_monotone(xs, k, n as nat);
            lemma_prefix_square_monotone(ys, k, n as nat);
            assert(xs[i as int] == x[i as int]);
            assert(ys[i as int] == y[i as int]);
        }
        let p: i128 = x[i] as i128;
        let q: i128 = y[i] as i128;
        assert(0 <= p * p <= 0x4000_0000_0000_0000_0000_0000_0000_0000 && 0 <= q * q
            <= 0x4000_0000_0000_0000_0000_0000_0000_0000 && -0x4000_0000_0000_0000_0000_0000_0000_0000
            <= p * q <= 0x4000_0000_0000_0000_0000_0000_0000_0000) by (nonlinear_arith)
            requires
                -0x8000_0000_0000_0000 <= p <= 0x8000_0000_0000_0000,
                -0x8000_0000_0000_0000 <= q <= 0x8000_0000_0000_0000,
        ;
        let next_x: u128 = square_x + (p * p) as u128;
        let next_y: u128 = square_y + (q * q) as u128;
        if next_x > REACH || next_y > REACH {
            proof {
                lemma_reach_needs_small_squares(xs);
                lemma_reach_needs_small_squares(ys);
            }
            return Err(RegressionError::TooLarge);
        }
        sum_x = sum_x + p;
        sum_y = sum_y + q;
        square_x = next_x;
        square_y = next_y;
        cross = cross + p * q;
        i = i + 1;
    }
    let (upper_x, scaled_x) = product_limbs(n as u128, square_x);
    let (upper_y, scaled_y) = product_limbs(n as u128, square_y);
    proof {
        assert(upper_x * limb_base() >= limb_base() || upper_x == 0) by (nonlinear_arith)
            requires
                upper_x >= 0,
                limb_base() > 0,
        ;
        assert(upper_y * limb_base() >= limb_base() || upper_y == 0) by (nonlinear_arith)
            requires
                upper_y >= 0,
                limb_base() > 0,
        ;
    }
    if upper_x != 0 || scaled_x > REACH || upper_y != 0 || scaled_y > REACH {
        return Err(RegressionError::TooLarge);
    }
    proof {
        let k = n as nat;
        assert(n * square_x == scaled_x && n * square_y == scaled_y) by (nonlinear_arith)
            requires
                upper_x * limb_base() + scaled_x == n * square_x,
                upper_y * limb_base() + scaled_y == n * square_y,
                upper_x == 0,
                upper_y == 0,
        ;
        lemma_prefix_dot_within_squares(xs, ys, k);
        lemma_co_moment_zero_iff_constant(xs);
        lemma_co_moment_zero_iff_constant(ys);
        lemma_co_moment_cauchy_schwarz(xs, ys);
        lemma_sums_fit(
            n as int,
            sum_x as int,
            sum_y as int,
            square_x as int,
            square_y as int,
            cross as int,
        );
    }
    let count: i128 = n as i128;
    let sxx: i128 = scaled_x as i128 - sum_x * sum_x;
    let syy: i128 = scaled_y as i128 - sum_y * sum_y;
    let sxy: i128 = count * cross - sum_x * sum_y;
    Ok(Regression { count: n, sum_x, sum_y, sxx: sxx as u128, syy: syy as u128, sxy })
}

/// A sample within reach has a sum of squares of at most `REACH`, unless it is
/// empty.
proof fn lemma_reach_needs_small_squares(s: Seq<int>)
    requires
        s.len() >= 1,
    ensures
        dot(s, s) > REACH ==> !within_reach(s),
{
    let n = s.len() as int;
    let d = dot(s, s);
    if d > REACH {
        assert(n * d >= d) by (nonlinear_arith)
            requires
                n >= 1,
                d >= 0,
        ;
    }
}

/// Within reach, every product that makes up the co-moments stays inside 128
/// bits, and so does the co-moment of the two samples.
proof fn lemma_sums_fit(n: int, sx: int, sy: int, dx: int, dy: int, c: int)
    requires
        n >= 0,
        0 <= n * dx <= REACH,
        0 <= n * dy <= REACH,
        n * dx - sx * sx >= 0,
        n * dy - sy * sy >= 0,
        -(dx + dy) <= 2 * c <= dx + dy,
        (n * c - sx * sy) * (n * c - sx * sy) <= (n * dx - sx * sx) * (n * dy - sy * sy),
    ensures
        0 <= sx * sx <= REACH,
        0 <= sy * sy <= REACH,
        -0x8000_0000_0000_0000 <= sx <= 0x8000_0000_0000_0000,
        -0x8000_0000_0000_0000 <= sy <= 0x8000_0000_0000_0000,
        -(REACH as int) <= n * c <= REACH,
        -(REACH as int) <= sx * sy <= REACH,
        -(REACH as int) <= n * c - sx * sy <= REACH,
{
    let r: int = REACH as int;
    let h: int = 0x8000_0000_0000_0000;
    assert(h * h == r) by (nonlinear_arith)
        requires
            h == 0x8000_0000_0000_0000,
            r == 0x4000_0000_0000_0000_0000_0000_0000_0000,
    ;
    assert(sx * sx >= 0 && sy * sy >= 0) by (nonlinear_arith);
    assert(-h <= sx <= h) by (nonlinear_arith)
        requires
            sx * sx <= h * h,
            h > 0,
    ;
    assert(-h <= sy <= h) by (nonlinear_arith)
        requires
            sy * sy <= h * h,
            h > 0,
    ;
    assert(-(h * h) <= sx * sy <= h * h) by (nonlinear_arith)
        requires
            -h <= sx <= h,
            -h <= sy <= h,
    ;
    assert(-(n * dx + n * dy) <= 2 * (n * c) <= n * dx + n * dy) by (nonlinear_arith)
        requires
            n >= 0,
            -(dx + dy) <= 2 * c <= dx + dy,
    ;
    let a = n * dx - sx * sx;
    let b = n * dy - sy * sy;
    let m = n * c - sx * sy;
    assert(a * b <= r * r) by (nonlinear_arith)
        requires
            0 <= a <= r,
            0 <= b <= r,
    ;
    assert(-r <= m <= r) by (nonlinear_arith)
        requires
            m * m <= r * r,
            r > 0,
    ;
}

/// For two samples of one length, neither of them constant, the correlation is
/// a number between -1 and 1, and the coefficient of determination is its
/// square, a number between 0 and 1.
pub proof fn lemma_correlation_within_unit(x: Seq<int>, y: Seq<int>)
    requires
        x.len() == y.len(),
        !is_constant(x),
        !is_constant(y),
    ensures
        fit_of(x, y).correlation().is_finite(),
        fit_of(x, y).correlation().within_unit(),
        fit_of(x, y).r_squared() == fit_of(x, y).correlation().squared(),
        fit_of(x, y).r_squared().den > 0,
        0 <= fit_of(x, y).r_squared().num <= fit_of(x, y).r_squared().den,
{
    let a = co_moment(x, x);
    let b = co_moment(y, y);
    let c = co_moment(x, y);
    lemma_co_moment_zero_iff_constant(x);
    lemma_co_moment_zero_iff_constant(y);
    lemma_co_moment_cauchy_schwarz(x, y);
    assert(a * b > 0) by (nonlinear_arith)
        requires
            a > 0,
            b > 0,
    ;
    assert(c * c >= 0) by (nonlinear_arith);
}

/// A fit does not change when the same amount is added to every y value,
/// except that the sum of y, and with it the intercept, moves by that amount.
proof fn lemma_fit_shifted(x: Seq<int>, y: Seq<int>, c: int)
    requires
        x.len() == y.len(),
    ensures
        fit_of(x, shifted(y, c)) == (LinearFit {
            sum_y: total(y) + x.len() * c,
            ..fit_of(x, y)
        }),
{
    let n = x.len() as int;
    let z = shifted(y, c);
    lemma_prefix_sum_shifted(y, c, y.len());
    lemma_centered_shifted(y, c);
    lemma_co_moment_centered(x, y);
    lemma_co_moment_centered(x, z);
    lemma_co_moment_centered(y, y);
    lemma_co_moment_centered(z, z);
    if n > 0 {
        assert(co_moment(x, z) == co_moment(x, y)) by (nonlinear_arith)
            requires
                n > 0,
                n * co_moment(x, z) == n * co_moment(x, y),
        ;
        assert(co_moment(z, z) == co_moment(y, y)) by (nonlinear_arith)
            requires
                n > 0,
                n * co_moment(z, z) == n * co_moment(y, y),
        ;
    } else {
        assert(co_moment(x, z) == 0 && co_moment(x, y) == 0 && co_moment(z, z) == 0 && co_moment(
            y,
            y,
        ) == 0) by (nonlinear_arith)
            requires
                co_moment(x, z) == n * dot(x, z) - total(x) * total(z),
                co_moment(x, y) == n * dot(x, y) - total(x) * total(y),
                co_moment(z, z) == n * dot(z, z) - total(z) * total(z),
                co_moment(y, y) == n * dot(y, y) - total(y) * total(y),
                n == 0,
                total(x) == 0,
                total(y) == 0,
                total(z) == 0,
        ;
    }
}

/// Adding `c` to every y value leaves the slope, the correlation and the
/// coefficient of determination as they were and adds `c` to the intercept.
pub proof fn lemma_translation_of_y(x: Seq<int>, y: Seq<int>, c: int)
    requires
        x.len() == y.len(),
    ensures
        fit_of(x, shifted(y, c)).slope() == fit_of(x, y).slope(),
        fit_of(x, shifted(y, c)).correlation() == fit_of(x, y).correlation(),
        fit_of(x, shifted(y, c)).r_squared() == fit_of(x, y).r_squared(),
        fit_of(x, shifted(y, c)).strength() == fit_of(x, y).strength(),
        fit_of(x, shifted(y, c)).intercept() == fit_of(x, y).intercept().plus(c),
{
    lemma_fit_shifted(x, y, c);
    let f = fit_of(x, y);
    let n = f.count;
    let w = f.sxx * (n - 1);
    assert((f.sum_y + n * c) * w - f.sxy * f.sum_x == (f.sum_y * w - f.sxy * f.sum_x) + c * (n * w))
        by (nonlinear_arith);
}

/// Multiplying every x value by `k` multiplies the sum of x and the co-moment
/// of x and y by `k`, and the co-moment of x with itself by `k * k`.
proof fn lemma_fit_scaled(x: Seq<int>, y: Seq<int>, k: int)
    requires
        x.len() == y.len(),
    ensures
        fit_of(scaled(x, k), y) == (LinearFit {
            sum_x: k * total(x),
            sxx: (k * k) * co_moment(x, x),
            sxy: k * co_moment(x, y),
            ..fit_of(x, y)
        }),
{
    let n = x.len() as int;
    let z = scaled(x, k);
    let sx = total(x);
    let sy = total(y);
    let kk = k * k;
    lemma_prefix_sum_scaled(x, k, x.len());
    lemma_prefix_dot_scaled(x, x, k, k, x.len());
    lemma_prefix_dot_scaled(x, y, k, 1, x.len());
    assert(scaled(y, 1) =~= y);
    assert(k * 1 == k);
    let dxx = dot(x, x);
    let dxy = dot(x, y);
    assert(n * (kk * dxx) - (k * sx) * (k * sx) == kk * (n * dxx - sx * sx)) by (nonlinear_arith)
        requires
            kk == k * k,
    ;
    assert(n * (k * dxy) - (k * sx) * sy == k * (n * dxy - sx * sy)) by (nonlinear_arith);
}

/// Two quotients whose numerators and denominators are in one proportion are
/// the same number.
proof fn lemma_same_value_in_proportion(a: Ratio, b: Ratio, u: int, v: int)
    requires
        u != 0,
        v != 0,
        b.den != 0,
        u * a.num == v * b.num,
        u * a.den == v * b.den,
    ensures
        a.same_value(b),
{
    assert(a.den != 0) by (nonlinear_arith)
        requires
            u * a.den == v * b.den,
            v != 0,
            b.den != 0,
    ;
    let vv = v * b.num;
    let ww = v * b.den;
    assert((u * a.num) * ww == (u * a.den) * vv) by (nonlinear_arith)
        requires
            u * a.num == vv,
            u * a.den == ww,
    ;
    assert((u * a.num) * (v * b.den) == (u * v) * (a.num * b.den)) by (nonlinear_arith);
    assert((u * a.den) * (v * b.num) == (u * v) * (b.num * a.den)) by (nonlinear_arith);
    let uv = u * v;
    assert(a.num * b.den == b.num * a.den) by (nonlinear_arith)
        requires
            uv * (a.num * b.den) == uv * (b.num * a.den),
            uv == u * v,
            u != 0,
            v != 0,
    ;
}

/// Where the x values of a second sample are those of the first multiplied by
/// the quotient `p / q`, neither being zero, the second slope is the first
/// divided by `p / q`. The intercept, the coefficient of determination and the
/// strength are the same, and the correlation is multiplied by the sign of
/// `p / q`.
pub proof fn lemma_rescaling_of_x(x: Seq<int>, x2: Seq<int>, y: Seq<int>, p: int, q: int)
    requires
        x.len() == y.len(),
        x2.len() == x.len(),
        p != 0,
        q != 0,
        forall|i: int| 0 <= i < x.len() ==> q * #[trigger] x2[i] == p * x[i],
    ensures
        fit_of(x2, y).slope().is_finite() == fit_of(x, y).slope().is_finite(),
        fit_of(x, y).slope().is_finite() ==> fit_of(x2, y).slope().times(p).same_value(
            fit_of(x, y).slope().times(q),
        ),
        fit_of(x, y).intercept().is_finite() ==> fit_of(x2, y).intercept().same_value(
            fit_of(x, y).intercept(),
        ),
        fit_of(x2, y).correlation().is_finite() == fit_of(x, y).correlation().is_finite(),
        fit_of(x, y).r_squared().is_finite() ==> fit_of(x2, y).r_squared().same_value(
            fit_of(x, y).r_squared(),
        ),
        p * q > 0 ==> (fit_of(x2, y).sxy > 0 <==> fit_of(x, y).sxy > 0),
        p * q < 0 ==> (fit_of(x2, y).sxy > 0 <==> fit_of(x, y).sxy < 0),
        fit_of(x2, y).strength() == fit_of(x, y).strength(),
{
    lemma_fit_scaled(x, y, p);
    lemma_fit_scaled(x2, y, q);
    assert(scaled(x2, q) =~= scaled(x, p));
    lemma_co_moment_zero_iff_constant(x);
    lemma_co_moment_zero_iff_constant(x2);
    lemma_co_moment_zero_iff_constant(y);
    let f = fit_of(x, y);
    let g = fit_of(x2, y);
    let n = f.count;
    let m = n - 1;
    let b = f.syy;
    let pp = p * p;
    let qq = q * q;
    assert(q * g.sum_x == p * f.sum_x);
    assert(q * g.sxy == p * f.sxy);
    assert(qq * g.sxx == pp * f.sxx);
    assert(pp > 0 && qq > 0) by (nonlinear_arith)
        requires
            pp == p * p,
            qq == q * q,
            p != 0,
            q != 0,
    ;
    assert(g.sxx != 0 <==> f.sxx != 0) by (nonlinear_arith)
        requires
            qq * g.sxx == pp * f.sxx,
            pp > 0,
            qq > 0,
    ;
    let w = f.sxx * m;
    let w2 = g.sxx * m;
    assert(qq * w2 == pp * w) by (nonlinear_arith)
        requires
            qq * g.sxx == pp * f.sxx,
            w == f.sxx * m,
            w2 == g.sxx * m,
    ;
    assert(w2 != 0 <==> w != 0) by (nonlinear_arith)
        requires
            qq * w2 == pp * w,
            pp > 0,
            qq > 0,
    ;
    // slope
    assert(qq * (p * g.sxy) == pp * (q * f.sxy)) by (nonlinear_arith)
        requires
            q * g.sxy == p * f.sxy,
            pp == p * p,
            qq == q * q,
    ;
    if f.slope().is_finite() {
        lemma_same_value_in_proportion(g.slope().times(p), f.slope().times(q), qq, pp);
    }
    // intercept
    let sy = f.sum_y;
    assert(qq * (g.sxy * g.sum_x) == pp * (f.sxy * f.sum_x)) by (nonlinear_arith)
        requires
            q * g.sxy == p * f.sxy,
            q * g.sum_x == p * f.sum_x,
            pp == p * p,
            qq == q * q,
    ;
    assert(qq * (sy * w2 - g.sxy * g.sum_x) == pp * (sy * w - f.sxy * f.sum_x))
        by (nonlinear_arith)
        requires
            qq * w2 == pp * w,
            qq * (g.sxy * g.sum_x) == pp * (f.sxy * f.sum_x),
    ;
    assert(qq * (n * w2) == pp * (n * w)) by (nonlinear_arith)
        requires
            qq * w2 == pp * w,
    ;
    if f.intercept().is_finite() {
        lemma_same_value_in_proportion(g.intercept(), f.intercept(), qq, pp);
    }
    // correlation and its square
    let ab = f.sxx * b;
    let ab2 = g.sxx * b;
    let cc = f.sxy * f.sxy;
    let cc2 = g.sxy * g.sxy;
    assert(qq * ab2 == pp * ab) by (nonlinear_arith)
        requires
            qq * g.sxx == pp * f.sxx,
            ab == f.sxx * b,
            ab2 == g.sxx * b,
    ;
    assert(qq * cc2 == pp * cc) by (nonlinear_arith)
        requires
            q * g.sxy == p * f.sxy,
            pp == p * p,
            qq == q * q,
            cc == f.sxy * f.sxy,
            cc2 == g.sxy * g.sxy,
    ;
    assert(ab2 > 0 <==> ab > 0) by (nonlinear_arith)
        requires
            qq * ab2 == pp * ab,
            pp > 0,
            qq > 0,
    ;
    assert(ab2 != 0 <==> ab != 0) by (nonlinear_arith)
        requires
            qq * ab2 == pp * ab,
            pp > 0,
            qq > 0,
    ;
    if f.r_squared().is_finite() {
        lemma_same_value_in_proportion(g.r_squared(), f.r_squared(), qq, pp);
    }
    let pq = p * q;
    assert(qq * g.sxy == pq * f.sxy) by (nonlinear_arith)
        requires
            q * g.sxy == p * f.sxy,
            qq == q * q,
            pq == p * q,
    ;
    assert(pq > 0 ==> (g.sxy > 0 <==> f.sxy > 0)) by (nonlinear_arith)
        requires
            qq * g.sxy == pq * f.sxy,
            qq > 0,
    ;
    assert(pq < 0 ==> (g.sxy > 0 <==> f.sxy < 0)) by (nonlinear_arith)
        requires
            qq * g.sxy == pq * f.sxy,
            qq > 0,
    ;
    // strength
    assert(100 * cc2 < 9 * ab2 <==> 100 * cc < 9 * ab) by (nonlinear_arith)
        requires
            qq * cc2 == pp * cc,
            qq * ab2 == pp * ab,
            pp > 0,
            qq > 0,
    ;
    assert(100 * cc2 < 49 * ab2 <==> 100 * cc < 49 * ab) by (nonlinear_arith)
        requires
            qq * cc2 == pp * cc,
            qq * ab2 == pp * ab,
            pp > 0,
            qq > 0,
    ;
}

} // verus!
