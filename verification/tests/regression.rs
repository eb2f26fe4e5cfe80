use career_stats::ratio::Fraction;
use career_stats::regression::{
    calculate_linear_regression, classify_strength, Regression, RegressionError, Strength,
};
use career_stats::wide::Wide;

fn wide(w: &Wide) -> f64 {
    let limb = 2f64.powi(128);
    (w.high as f64 * limb + w.middle as f64) * limb + w.low as f64
}

fn decimal(f: &Fraction) -> f64 {
    let magnitude = wide(&f.numerator) / wide(&f.denominator);
    if f.negative {
        -magnitude
    } else {
        magnitude
    }
}

fn slope(fit: &Regression) -> f64 {
    decimal(&fit.slope())
}

fn intercept(fit: &Regression) -> f64 {
    decimal(&fit.intercept())
}

fn correlation(fit: &Regression) -> f64 {
    let c = fit.correlation();
    c.numerator as f64 / wide(&c.radicand).sqrt()
}

fn limbs(w: &Wide) -> (u128, u128, u128) {
    (w.high, w.middle, w.low)
}

#[test]
fn exact_sums_of_a_small_fit() {
    let fit = calculate_linear_regression(&[1, 2, 3, 4], &[2, 4, 5, 8]).unwrap();
    assert_eq!(fit.count, 4);
    assert_eq!(fit.sum_x, 10);
    assert_eq!(fit.sum_y, 19);
    assert_eq!(fit.sxx, 20);
    assert_eq!(fit.syy, 75);
    assert_eq!(fit.sxy, 38);
}

#[test]
fn slope_divides_by_the_variance_and_by_n_minus_one() {
    let fit = calculate_linear_regression(&[1, 2, 3, 4], &[2, 4, 5, 8]).unwrap();
    // covariance 38/16, variance 20/16, n - 1 = 3: slope 38 / 60
    assert!((slope(&fit) - 38.0 / 60.0).abs() < 1e-12);
    assert!((intercept(&fit) - (19.0 / 4.0 - (38.0 / 60.0) * 2.5)).abs() < 1e-12);
    let r = correlation(&fit);
    assert!((r - 38.0 / (20.0f64 * 75.0).sqrt()).abs() < 1e-12);
    assert!((r * r - 1444.0 / 1500.0).abs() < 1e-12);
}

#[test]
fn samples_of_unequal_length_are_rejected() {
    assert_eq!(
        calculate_linear_regression(&[1, 2, 3], &[1, 2]).unwrap_err(),
        RegressionError::LengthMismatch
    );
    assert_eq!(
        calculate_linear_regression(&[], &[1]).unwrap_err(),
        RegressionError::LengthMismatch
    );
}

#[test]
fn fewer_than_two_points_give_no_number() {
    let fit = calculate_linear_regression(&[5], &[7]).unwrap();
    assert_eq!((fit.count, fit.sum_x, fit.sum_y), (1, 5, 7));
    assert_eq!((fit.sxx, fit.syy, fit.sxy), (0, 0, 0));
    assert!(!fit.has_finite_slope());
    assert!(!fit.has_finite_correlation());
    assert!(fit.slope().denominator.is_zero());
    assert!(fit.intercept().denominator.is_zero());
    assert!(fit.r_squared().denominator.is_zero());
    assert!(slope(&fit).is_nan());
    assert!(correlation(&fit).is_nan());
    assert_eq!(fit.strength(), Strength::Strong);

    let fit = calculate_linear_regression(&[], &[]).unwrap();
    assert_eq!((fit.count, fit.sxx, fit.syy, fit.sxy), (0, 0, 0, 0));
    assert!(!fit.has_finite_correlation());
    assert!(calculate_linear_regression(&[5, 6], &[7, 9]).unwrap().has_finite_slope());
}

#[test]
fn correlation_lies_within_the_unit_interval() {
    let samples: [(&[i64], &[i64]); 4] = [
        (&[1, 2, 3, 4, 5], &[9, 1, 8, 2, 7]),
        (&[-3, 0, 12, 7], &[4, -4, 100, 3]),
        (&[1, 2], &[2, 1]),
        (&[i32::MAX as i64, i32::MIN as i64, 0], &[i32::MIN as i64, i32::MAX as i64, 1]),
    ];
    for (x, y) in samples {
        let fit = calculate_linear_regression(x, y).unwrap();
        assert!(fit.has_finite_correlation());
        let r = correlation(&fit);
        assert!((-1.0..=1.0).contains(&r));
        assert!(fit.sxx > 0 && fit.syy > 0);
    }
    let fit = calculate_linear_regression(&[1, 2, 3, 4, 5], &[9, 1, 8, 2, 7]).unwrap();
    // sxy^2 <= sxx * syy, in exact arithmetic
    assert!((fit.sxy * fit.sxy) as u128 <= fit.sxx * fit.syy);
}

#[test]
fn shifting_y_moves_only_the_intercept() {
    let x = [3, 8, 1, 9, 4];
    let y = [10, 2, 7, 7, 5];
    let shifted: Vec<i64> = y.iter().map(|v| v + 1000).collect();
    let a = calculate_linear_regression(&x, &y).unwrap();
    let b = calculate_linear_regression(&x, &shifted).unwrap();
    assert_eq!((a.sxx, a.syy, a.sxy, a.sum_x), (b.sxx, b.syy, b.sxy, b.sum_x));
    assert_eq!(b.sum_y, a.sum_y + 5 * 1000);
    assert_eq!(a.strength(), b.strength());
    assert!((slope(&a) - slope(&b)).abs() < 1e-12);
    assert!((intercept(&b) - (intercept(&a) + 1000.0)).abs() < 1e-9);
}

#[test]
fn scaling_x_divides_the_slope() {
    let x = [3, 8, 1, 9, 4];
    let y = [10, 2, 7, 7, 5];
    let scaled: Vec<i64> = x.iter().map(|v| v * -4).collect();
    let a = calculate_linear_regression(&x, &y).unwrap();
    let b = calculate_linear_regression(&scaled, &y).unwrap();
    assert_eq!(b.sxy, -4 * a.sxy);
    assert_eq!(b.sxx, 16 * a.sxx);
    assert_eq!(b.syy, a.syy);
    assert!((slope(&b) - slope(&a) / -4.0).abs() < 1e-12);
    assert!((correlation(&b) + correlation(&a)).abs() < 1e-12);
    assert!((intercept(&b) - intercept(&a)).abs() < 1e-9);
    assert_eq!(a.strength(), b.strength());
}

#[test]
fn a_constant_sample_gives_no_number() {
    let fit = calculate_linear_regression(&[2, 2, 2], &[1, 5, 9]).unwrap();
    assert_eq!(fit.sxx, 0);
    assert_eq!(fit.sxy, 0);
    assert!(!fit.has_finite_slope());
    assert!(!fit.has_finite_correlation());
    assert!(correlation(&fit).is_nan());
    assert_eq!(fit.strength(), Strength::Strong);

    let fit = calculate_linear_regression(&[1, 5, 9], &[2, 2, 2]).unwrap();
    assert!(fit.has_finite_slope());
    assert!(!fit.has_finite_correlation());
}

#[test]
fn strength_boundaries() {
    // correlation = numerator / sqrt(100 * 100)
    assert_eq!(classify_strength(30, 100, 100), Strength::Moderate);
    assert_eq!(classify_strength(70, 100, 100), Strength::Strong);
    assert_eq!(classify_strength(-30, 100, 100), Strength::Moderate);
    assert_eq!(classify_strength(-70, 100, 100), Strength::Strong);
    assert_eq!(classify_strength(69, 100, 100), Strength::Moderate);
    assert_eq!(classify_strength(29, 100, 100), Strength::Weak);
    assert_eq!(classify_strength(0, 100, 100), Strength::Weak);
    // 0.29999
    assert_eq!(classify_strength(29_999, 100_000, 100_000), Strength::Weak);
    assert_eq!(classify_strength(30_000, 100_000, 100_000), Strength::Moderate);
    assert_eq!(classify_strength(69_999, 100_000, 100_000), Strength::Moderate);
}

#[test]
fn strength_of_an_undefined_correlation() {
    assert_eq!(classify_strength(0, 0, 0), Strength::Strong);
    assert_eq!(classify_strength(0, 0, 5), Strength::Strong);
    assert_eq!(classify_strength(0, 5, 0), Strength::Strong);
}

#[test]
fn strength_is_decided_exactly_on_very_large_sums() {
    let big: u128 = u128::MAX;
    // r^2 = (2^127)^2 / (2^128 - 1)^2, a little above 1/4: |r| is about 0.5
    assert_eq!(classify_strength(i128::MIN, big, big), Strength::Moderate);
    assert_eq!(classify_strength(i128::MAX, big, big), Strength::Moderate);
    // 100 * c^2 < 9 * a * b  with a * b = 10^36 * 100: c < 3 * 10^18
    let a: u128 = 10_000_000_000_000_000_000;
    let c: i128 = 3_000_000_000_000_000_000;
    assert_eq!(classify_strength(c, a, a), Strength::Moderate);
    assert_eq!(classify_strength(c - 1, a, a), Strength::Weak);
    assert_eq!(classify_strength(-(c - 1), a, a), Strength::Weak);
    assert_eq!(classify_strength(7 * (c / 3), a, a), Strength::Strong);
    assert_eq!(classify_strength(7 * (c / 3) - 1, a, a), Strength::Moderate);
}

#[test]
fn large_values_do_not_overflow() {
    let x = vec![i32::MIN as i64; 1000];
    let mut y = vec![i32::MAX as i64; 1000];
    y[0] = i32::MIN as i64;
    let fit = calculate_linear_regression(&x, &y).unwrap();
    assert_eq!(fit.sum_x, -(1i128 << 31) * 1000);
    assert_eq!(fit.sxx, 0);
    let d = i32::MAX as i128 - i32::MIN as i128;
    // n * sum(y^2) - sum(y)^2 = (n - 1) * d^2 for one outlier at distance d
    assert_eq!(fit.syy as i128, 999 * d * d);
}

#[test]
fn samples_beyond_reach_are_refused() {
    // n * sum(x^2) = 2 * 2 * 2^124 = 2^126: the largest within reach
    let edge = 1i64 << 62;
    let fit = calculate_linear_regression(&[edge, edge], &[1, 2]).unwrap();
    assert_eq!(fit.sxx, 0);
    assert_eq!(fit.sum_x, 1i128 << 63);
    let fit = calculate_linear_regression(&[edge, -edge], &[1, 2]).unwrap();
    assert_eq!(fit.sxx, 1u128 << 126);
    assert_eq!(fit.sxy, -(1i128 << 63));
    assert_eq!(
        calculate_linear_regression(&[edge + 1, edge], &[1, 2]).unwrap_err(),
        RegressionError::TooLarge
    );
    assert_eq!(
        calculate_linear_regression(&[1, 2], &[edge, edge + 1]).unwrap_err(),
        RegressionError::TooLarge
    );
    assert_eq!(
        calculate_linear_regression(&[i64::MIN, 0], &[0, 0]).unwrap_err(),
        RegressionError::TooLarge
    );
    assert_eq!(
        calculate_linear_regression(&[edge, edge, 0], &[0, 0, 0]).unwrap_err(),
        RegressionError::TooLarge
    );
    // one point of the largest magnitude is within reach: its square is 2^126
    let fit = calculate_linear_regression(&[i64::MIN], &[0]).unwrap();
    assert_eq!((fit.sum_x, fit.sxx), (-(1i128 << 63), 0));
}

#[test]
fn statistics_as_exact_quotients() {
    let fit = calculate_linear_regression(&[1, 2, 3, 4], &[2, 4, 5, 8]).unwrap();
    let slope = fit.slope();
    assert!(!slope.negative);
    assert_eq!(limbs(&slope.numerator), (0, 0, 38));
    assert_eq!(limbs(&slope.denominator), (0, 0, 60));
    // 19 * 60 - 38 * 10 over 4 * 60
    let intercept = fit.intercept();
    assert!(!intercept.negative);
    assert_eq!(limbs(&intercept.numerator), (0, 0, 760));
    assert_eq!(limbs(&intercept.denominator), (0, 0, 240));
    let c = fit.correlation();
    assert_eq!(c.numerator, 38);
    assert_eq!(limbs(&c.radicand), (0, 0, 1500));
    let r2 = fit.r_squared();
    assert!(!r2.negative);
    assert_eq!(limbs(&r2.numerator), (0, 0, 1444));
    assert_eq!(limbs(&r2.denominator), (0, 0, 1500));
}

#[test]
fn signs_of_slope_and_intercept() {
    // y = 10 - 2x: covariance negative, intercept positive
    let fit = calculate_linear_regression(&[1, 2, 3], &[8, 6, 4]).unwrap();
    assert_eq!((fit.sxx, fit.sxy), (6, -12));
    let slope = fit.slope();
    assert!(slope.negative);
    assert_eq!(limbs(&slope.numerator), (0, 0, 12));
    assert_eq!(limbs(&slope.denominator), (0, 0, 12));
    // 18 * 12 - (-12) * 6 = 288 over 3 * 12
    let intercept = fit.intercept();
    assert!(!intercept.negative);
    assert_eq!(limbs(&intercept.numerator), (0, 0, 288));
    assert_eq!(limbs(&intercept.denominator), (0, 0, 36));

    // y = 2x - 10 on x = 1, 2, 3: sums 6 and -18
    let fit = calculate_linear_regression(&[1, 2, 3], &[-8, -6, -4]).unwrap();
    // -18 * 12 - 12 * 6 = -288
    let intercept = fit.intercept();
    assert!(intercept.negative);
    assert_eq!(limbs(&intercept.numerator), (0, 0, 288));

    // sums of y and of x * covariance with the same sign, the second larger
    let fit = calculate_linear_regression(&[10, 20, 30], &[1, 2, 3]).unwrap();
    // sxx = 600, sxy = 60, sum_y = 6, sum_x = 60: 6 * 1200 - 60 * 60 = 3600
    let intercept = fit.intercept();
    assert!(!intercept.negative);
    assert_eq!(limbs(&intercept.numerator), (0, 0, 3600));
    let fit = calculate_linear_regression(&[10, 20, 30], &[1, 3, 5]).unwrap();
    // sxy = 120, sum_y = 9: 9 * 1200 - 120 * 60 = 3600
    assert_eq!(limbs(&fit.intercept().numerator), (0, 0, 3600));
    let fit = calculate_linear_regression(&[10, 20, 30], &[10, 40, 70]).unwrap();
    // sxy = 1800, sum_y = 120: 120 * 1200 - 1800 * 60 = 36000
    assert!(!fit.intercept().negative);
    let fit = calculate_linear_regression(&[10, 20, 30], &[0, 30, 60]).unwrap();
    // sxy = 1800, sum_y = 90: 90 * 1200 - 1800 * 60 = 0
    assert_eq!(limbs(&fit.intercept().numerator), (0, 0, 0));
    let fit = calculate_linear_regression(&[10, 20, 30], &[0, 40, 80]).unwrap();
    // sxy = 2400, sum_y = 120: 120 * 1200 - 2400 * 60 = 0
    assert_eq!(limbs(&fit.intercept().numerator), (0, 0, 0));
    let fit = calculate_linear_regression(&[10, 20, 30], &[0, 50, 100]).unwrap();
    // sxy = 3000, sum_y = 150: 150 * 1200 - 3000 * 60 = 0
    assert_eq!(limbs(&fit.intercept().numerator), (0, 0, 0));
    let fit = calculate_linear_regression(&[10, 20, 30], &[-5, 45, 95]).unwrap();
    // sxy = 3000, sum_y = 135: 135 * 1200 - 3000 * 60 = -18000
    let intercept = fit.intercept();
    assert!(intercept.negative);
    assert_eq!(limbs(&intercept.numerator), (0, 0, 18000));
}

#[test]
fn quotients_of_extreme_values() {
    let x = [i32::MIN as i64, i32::MAX as i64];
    let y = [i32::MAX as i64, i32::MIN as i64];
    let fit = calculate_linear_regression(&x, &y).unwrap();
    let d = i32::MAX as i128 - i32::MIN as i128;
    assert_eq!(fit.sxx as i128, d * d);
    assert_eq!(fit.sxy, -d * d);
    assert!((slope(&fit) + 1.0).abs() < 1e-12);
    assert!((intercept(&fit) + 1.0).abs() < 1e-6);
    assert!((correlation(&fit) + 1.0).abs() < 1e-12);
    assert!((decimal(&fit.r_squared()) - 1.0).abs() < 1e-12);
}

#[test]
fn rescaling_x_by_a_quotient_divides_the_slope_by_it() {
    // the second sample is the first times 3/2
    let x = [2, 4, 10, 6];
    let x2 = [3, 6, 15, 9];
    let y = [1, 5, 2, 8];
    let a = calculate_linear_regression(&x, &y).unwrap();
    let b = calculate_linear_regression(&x2, &y).unwrap();
    assert_eq!(2 * b.sxy, 3 * a.sxy);
    assert_eq!(4 * b.sxx, 9 * a.sxx);
    assert!((slope(&b) - slope(&a) * 2.0 / 3.0).abs() < 1e-12);
    assert!((intercept(&b) - intercept(&a)).abs() < 1e-9);
    assert!((correlation(&b) - correlation(&a)).abs() < 1e-12);
    assert_eq!(a.strength(), b.strength());
}
