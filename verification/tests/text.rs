use career_stats::record::{FamilyInfluence, Field};
use career_stats::text::{parse_decimal, same_text, trim, whitespace, Decimal};
use career_stats::wide::{magnitude, product_limbs, scaled_product, Wide};

fn decimal(mantissa: i64, exponent: i32) -> Option<Decimal> {
    Some(Decimal { mantissa, exponent })
}

#[test]
fn whole_numerals() {
    assert_eq!(parse_decimal("42"), decimal(42, 0));
    assert_eq!(parse_decimal("-7"), decimal(-7, 0));
    assert_eq!(parse_decimal("+5"), decimal(5, 0));
    assert_eq!(parse_decimal("0"), decimal(0, 0));
    assert_eq!(parse_decimal("-0"), decimal(0, 0));
    assert_eq!(parse_decimal("00012"), decimal(12, 0));
    assert_eq!(parse_decimal("3000000000"), decimal(3_000_000_000, 0));
}

#[test]
fn numerals_with_a_decimal_point() {
    assert_eq!(parse_decimal("30.5"), decimal(305, -1));
    assert_eq!(parse_decimal("7.0"), decimal(70, -1));
    assert_eq!(parse_decimal("-0.25"), decimal(-25, -2));
    assert_eq!(parse_decimal("5."), decimal(5, 0));
    assert_eq!(parse_decimal(".5"), decimal(5, -1));
    assert_eq!(parse_decimal("+.5"), decimal(5, -1));
    assert_eq!(parse_decimal("0.000"), decimal(0, -3));
    assert_eq!(parse_decimal("54000.50"), decimal(5_400_050, -2));
}

#[test]
fn numerals_with_an_exponent() {
    assert_eq!(parse_decimal("1e3"), decimal(1, 3));
    assert_eq!(parse_decimal("1E3"), decimal(1, 3));
    assert_eq!(parse_decimal("1e+3"), decimal(1, 3));
    assert_eq!(parse_decimal("1e-3"), decimal(1, -3));
    assert_eq!(parse_decimal("2.5e1"), decimal(25, 0));
    assert_eq!(parse_decimal("-2.50E-2"), decimal(-250, -4));
    assert_eq!(parse_decimal(".5e1"), decimal(5, 0));
    assert_eq!(parse_decimal("5.e1"), decimal(5, 1));
    assert_eq!(parse_decimal("1e007"), decimal(1, 7));
    assert_eq!(parse_decimal("1e-0"), decimal(1, 0));
}

#[test]
fn text_that_is_no_numeral() {
    for text in [
        "", "-", "+", ".", "-.", "e5", ".e5", "5e", "5e+", "5e-", "4x", "x4", "--4", "4 2", " 42",
        "42 ", "4.5.6", "1e2.5", "1e2e3", "1,5", "٤٢", "inf", "-inf", "infinity", "NaN", "nan",
        "0x10", "1_000", "5e 3", "+-5",
    ] {
        assert_eq!(parse_decimal(text), None, "{:?}", text);
    }
}

#[test]
fn numerals_agree_with_the_standard_library_on_what_is_a_finite_number() {
    for text in [
        "42", "-7", "30.5", "7.0", "1e3", "3000000000", ".5", "5.", "+.5e-3", "1E+2", "", ".",
        "e5", "5e", "1e2.5", "4x", "--4", "0x10", "1_000",
    ] {
        let std: Option<f64> = text.parse::<f64>().ok();
        match parse_decimal(text) {
            Some(d) => {
                let value = d.mantissa as f64 * 10f64.powi(d.exponent);
                assert!((value - std.unwrap()).abs() <= 1e-9 * value.abs(), "{:?}", text);
            }
            None => assert!(std.is_none(), "{:?}", text),
        }
    }
}

#[test]
fn numerals_at_the_limits() {
    assert_eq!(parse_decimal("9223372036854775807"), decimal(i64::MAX, 0));
    assert_eq!(parse_decimal("-9223372036854775807"), decimal(-i64::MAX, 0));
    assert_eq!(parse_decimal("9223372036854775808"), None);
    assert_eq!(parse_decimal("-9223372036854775808"), None);
    assert_eq!(parse_decimal("92233720368547758.07"), decimal(i64::MAX, -2));
    assert_eq!(parse_decimal("92233720368547758.08"), None);
    assert_eq!(parse_decimal("99999999999999999999999999999999999999.5"), None);
    assert_eq!(parse_decimal("0.99999999999999999999999999999999999999"), None);
    assert_eq!(parse_decimal("000000000000000000000000000000000000007"), decimal(7, 0));
    assert_eq!(parse_decimal("1e2147483647"), decimal(1, i32::MAX));
    assert_eq!(parse_decimal("1e2147483648"), None);
    assert_eq!(parse_decimal("1e-2147483648"), decimal(1, i32::MIN));
    assert_eq!(parse_decimal("1e-2147483649"), None);
    assert_eq!(parse_decimal("1.5e-2147483648"), None);
    assert_eq!(parse_decimal("1.5e2147483648"), decimal(15, i32::MAX));
    assert_eq!(parse_decimal("1e99999999999999999999999999999999999999999999"), None);
    assert_eq!(parse_decimal("1e-99999999999999999999999999999999999999999999"), None);
    assert_eq!(parse_decimal("99999999999999999999e5x"), None);
}

#[test]
fn trimming() {
    assert_eq!(trim("  High \t\n"), "High");
    assert_eq!(trim("High"), "High");
    assert_eq!(trim(""), "");
    assert_eq!(trim(" \t "), "");
    assert_eq!(trim(" a b "), "a b");
    assert_eq!(trim("\u{a0}\u{3000}x\u{2003}\u{85}"), "x");
    assert_eq!(trim("\u{200b}x"), "\u{200b}x");
}

#[test]
fn whitespace_is_the_unicode_property() {
    for code in 0u32..0x11000 {
        if let Some(c) = char::from_u32(code) {
            assert_eq!(whitespace(c), c.is_whitespace(), "U+{:04X}", code);
        }
    }
}

#[test]
fn trimming_agrees_with_the_standard_library() {
    for s in ["", " ", "a", " a", "a ", "\t a\u{2028}b \r\n", "é \u{1680}", "\u{feff}a"] {
        assert_eq!(trim(s), s.trim());
    }
}

#[test]
fn comparing_texts() {
    assert!(same_text("Low", "Low"));
    assert!(!same_text("Low", "low"));
    assert!(!same_text("Low", "Lows"));
    assert!(same_text("", ""));
    assert!(same_text("é", "é"));
}

#[test]
fn family_influence_labels() {
    assert_eq!(FamilyInfluence::from_label("Low"), Some(FamilyInfluence::Low));
    assert_eq!(FamilyInfluence::from_label("Medium"), Some(FamilyInfluence::Medium));
    assert_eq!(FamilyInfluence::from_label("High"), Some(FamilyInfluence::High));
    assert_eq!(FamilyInfluence::from_label("  High\t"), Some(FamilyInfluence::High));
    assert_eq!(FamilyInfluence::from_label("high"), None);
    assert_eq!(FamilyInfluence::from_label("HIGH"), None);
    assert_eq!(FamilyInfluence::from_label("None"), None);
    assert_eq!(FamilyInfluence::from_label(""), None);
    assert_eq!(FamilyInfluence::from_label("Hi gh"), None);
}

#[test]
fn family_influence_codes() {
    assert_eq!(FamilyInfluence::Low.code(), 1);
    assert_eq!(FamilyInfluence::Medium.code(), 2);
    assert_eq!(FamilyInfluence::High.code(), 3);
}

#[test]
fn field_columns_and_names() {
    assert_eq!(Field::Age.column(), 2);
    assert_eq!(Field::YearsOfExperience.column(), 4);
    assert_eq!(Field::JobSatisfaction.column(), 7);
    assert_eq!(Field::Salary.column(), 10);
    assert_eq!(Field::FamilyInfluence.column(), 14);
    assert_eq!(Field::ProfessionalNetworkSize.column(), 19);
    assert_eq!(Field::Age.name(), "Age");
    assert_eq!(Field::YearsOfExperience.name(), "Years of Experience");
    assert_eq!(Field::JobSatisfaction.name(), "Job Satisfaction");
    assert_eq!(Field::ProfessionalNetworkSize.name(), "Professional Network Size");
    assert_eq!(Field::FamilyInfluence.name(), "Family Influence");
    assert_eq!(Field::Salary.name(), "Salary");
}

#[test]
fn products_of_two_limbs() {
    assert_eq!(product_limbs(0, 0), (0, 0));
    assert_eq!(product_limbs(3, 4), (0, 12));
    assert_eq!(product_limbs(1 << 64, 1 << 64), (1, 0));
    assert_eq!(product_limbs(u128::MAX, 2), (1, u128::MAX - 1));
    // (2^128 - 1)^2 = 2^256 - 2^129 + 1
    assert_eq!(product_limbs(u128::MAX, u128::MAX), (u128::MAX - 1, 1));
    assert_eq!(product_limbs(u128::MAX, 1 << 127), ((1 << 127) - 1, 1 << 127));
}

#[test]
fn scaled_products() {
    let w = scaled_product(100, 3, 4);
    assert_eq!((w.high, w.middle, w.low), (0, 0, 1200));
    let w = scaled_product(0, u128::MAX, u128::MAX);
    assert_eq!((w.high, w.middle, w.low), (0, 0, 0));
    // 2 * (2^256 - 2^129 + 1) = 2^257 - 2^130 + 2
    let w = scaled_product(2, u128::MAX, u128::MAX);
    assert_eq!((w.high, w.middle, w.low), (1, u128::MAX - 3, 2));
    // 255 * 2^128 * 1
    let w = scaled_product(255, 1 << 64, 1 << 64);
    assert_eq!((w.high, w.middle, w.low), (0, 255, 0));
}

#[test]
fn wide_numbers_are_ordered_by_value() {
    let small = Wide { high: 0, middle: 5, low: u128::MAX };
    let large = Wide { high: 0, middle: 6, low: 0 };
    let larger = Wide { high: 1, middle: 0, low: 0 };
    assert!(small.less_than(&large));
    assert!(!large.less_than(&small));
    assert!(large.less_than(&larger));
    assert!(!small.less_than(&small));
    assert!(Wide { high: 0, middle: 6, low: 0 }.less_than(&Wide { high: 0, middle: 6, low: 1 }));
}

#[test]
fn wide_arithmetic() {
    let a = Wide::product(u128::MAX, u128::MAX);
    assert_eq!((a.high, a.middle, a.low), (0, u128::MAX - 1, 1));
    // (2^256 - 2^129 + 1) * (2^128 - 1) = 2^384 - 3 * 2^256 + 3 * 2^128 - 1
    let b = a.times(u128::MAX);
    assert_eq!((b.high, b.middle, b.low), (u128::MAX - 2, 2, u128::MAX));
    let c = Wide::from_limb(7).times(6);
    assert_eq!((c.high, c.middle, c.low), (0, 0, 42));

    let one = Wide::from_limb(1);
    let s = Wide { high: 0, middle: u128::MAX, low: u128::MAX }.plus(&one);
    assert_eq!((s.high, s.middle, s.low), (1, 0, 0));
    let d = s.minus(&one);
    assert_eq!((d.high, d.middle, d.low), (0, u128::MAX, u128::MAX));
    let d = Wide { high: 2, middle: 0, low: 5 }.minus(&Wide { high: 0, middle: 1, low: 6 });
    assert_eq!((d.high, d.middle, d.low), (1, u128::MAX - 1, u128::MAX));
    let z = b.minus(&b);
    assert!(z.is_zero());
    assert!(!one.is_zero());
    assert!(!Wide { high: 1, middle: 0, low: 0 }.is_zero());
}

#[test]
fn magnitudes() {
    assert_eq!(magnitude(0), 0);
    assert_eq!(magnitude(5), 5);
    assert_eq!(magnitude(-5), 5);
    assert_eq!(magnitude(i128::MAX), (1u128 << 127) - 1);
    assert_eq!(magnitude(i128::MIN), 1u128 << 127);
}
