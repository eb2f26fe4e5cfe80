use career_stats::descriptive::calculate_descriptive_stats;

#[test]
fn summary_of_a_sample() {
    let d = calculate_descriptive_stats(&[4, -2, 9, 9, 0]).unwrap();
    assert_eq!(d.count, 5);
    assert_eq!(d.sum, 20);
    assert_eq!(d.min, -2);
    assert_eq!(d.max, 9);
    assert!((d.sum as f64 / d.count as f64 - 4.0).abs() < 1e-12);
}

#[test]
fn an_empty_sample_has_no_summary() {
    assert!(calculate_descriptive_stats(&[]).is_none());
}

#[test]
fn mean_lies_between_minimum_and_maximum() {
    let samples: [&[i64]; 4] = [&[7], &[1, 2, 3], &[-5, -9, -1], &[i64::MAX, i64::MIN, 3]];
    for s in samples {
        let d = calculate_descriptive_stats(s).unwrap();
        let n = d.count as i128;
        assert!(n * d.min as i128 <= d.sum);
        assert!(d.sum <= n * d.max as i128);
        assert!(d.min <= d.max);
    }
}

#[test]
fn mean_of_identical_values_is_that_value() {
    let d = calculate_descriptive_stats(&[42; 17]).unwrap();
    assert_eq!(d.sum, 42 * 17);
    assert_eq!(d.sum as f64 / d.count as f64, 42.0);
    assert_eq!((d.min, d.max), (42, 42));
}

#[test]
fn a_single_value_is_its_own_summary() {
    let d = calculate_descriptive_stats(&[-3]).unwrap();
    assert_eq!((d.count, d.sum, d.min, d.max), (1, -3, -3, -3));
}

#[test]
fn mean_as_an_exact_quotient() {
    let m = calculate_descriptive_stats(&[4, -2, 9, 9, 0]).unwrap().mean();
    assert!(!m.negative);
    assert_eq!((m.numerator.high, m.numerator.middle, m.numerator.low), (0, 0, 20));
    assert_eq!((m.denominator.high, m.denominator.middle, m.denominator.low), (0, 0, 5));
    let m = calculate_descriptive_stats(&[-4, 1]).unwrap().mean();
    assert!(m.negative);
    assert_eq!(m.numerator.low, 3);
    assert_eq!(m.denominator.low, 2);
}
