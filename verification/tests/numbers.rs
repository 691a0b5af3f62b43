use thrud::decimal::{append_decimal, decimal_string, digit, parse_decimal, parse_i32, parse_i64};
use thrud::fixed::{clamp_percent, floor_div_rem, round_nearest_even, HUNDRED_PERCENT, UNIT};
use thrud::ieee754::{fixed_from_bits, parts_of, small_power_of_two, DoubleParts};
use thrud::order::stable_order_of;
use thrud::text::{find_value, same_text};
use thrud::validation::ValidationError;
use thrud::wide::{quotient_to_places, Wide, MAX_NUMERATOR};

#[test]
fn decimal_text_of_integers() {
    assert_eq!(decimal_string(0), "0");
    assert_eq!(decimal_string(7), "7");
    assert_eq!(decimal_string(10), "10");
    assert_eq!(decimal_string(-1), "-1");
    assert_eq!(decimal_string(1234567890), "1234567890");
    assert_eq!(decimal_string(i64::MIN as i128), "-9223372036854775808");
    assert_eq!(decimal_string(i128::MAX), i128::MAX.to_string());
    assert_eq!(decimal_string(i128::MIN), i128::MIN.to_string());
}

#[test]
fn decimal_text_is_appended() {
    let mut text = String::from("core ");
    append_decimal(&mut text, -42);
    assert_eq!(text, "core -42");
}

#[test]
fn digits_are_the_ten_characters() {
    let all: String = (0..10u8).map(digit).collect();
    assert_eq!(all, "0123456789");
}

#[test]
fn parsing_reads_what_the_standard_library_reads() {
    let cases = [
        "0", "7", "-7", "+7", "007", "-0", "+0", "", "-", "+", " 7", "7 ", "1_000", "12a", "٣",
        "9223372036854775807", "9223372036854775808", "-9223372036854775808",
        "-9223372036854775809", "00000000000000000000000000000000000012",
        "99999999999999999999999999999999999999999", "--1", "+-1", "1.0", "1e3",
    ];
    for case in cases {
        assert_eq!(parse_i64(case), case.parse::<i64>().ok(), "{}", case);
        assert_eq!(parse_i32(case), case.parse::<i32>().ok(), "{}", case);
    }
    assert_eq!(parse_i32("2147483647"), Some(i32::MAX));
    assert_eq!(parse_i32("2147483648"), None);
    assert_eq!(parse_i32("-2147483648"), Some(i32::MIN));
    assert_eq!(parse_i32("-2147483649"), None);
}

#[test]
fn parsing_within_bounds() {
    assert_eq!(parse_decimal("5", 0, 10), Some(5));
    assert_eq!(parse_decimal("11", 0, 10), None);
    assert_eq!(parse_decimal("-1", 0, 10), None);
    assert_eq!(parse_decimal("10", 0, 10), Some(10));
}

#[test]
fn parsing_gives_back_what_was_written() {
    for v in [0i64, 1, -1, 9, 10, 99, 100, 12345, -98765, i64::MAX, i64::MIN] {
        assert_eq!(parse_i64(&decimal_string(v as i128)), Some(v));
    }
}

#[test]
fn percentages_are_clamped() {
    assert_eq!(clamp_percent(-1), 0);
    assert_eq!(clamp_percent(0), 0);
    assert_eq!(clamp_percent(42 * UNIT), 42 * UNIT);
    assert_eq!(clamp_percent(HUNDRED_PERCENT), HUNDRED_PERCENT);
    assert_eq!(clamp_percent(HUNDRED_PERCENT + 1), HUNDRED_PERCENT);
}

#[test]
fn division_rounds_down() {
    assert_eq!(floor_div_rem(7, 2), (3, 1));
    assert_eq!(floor_div_rem(-7, 2), (-4, 1));
    assert_eq!(floor_div_rem(-8, 2), (-4, 0));
    assert_eq!(floor_div_rem(0, 5), (0, 0));
}

#[test]
fn rounding_goes_to_the_nearest_and_halves_to_even() {
    assert_eq!(round_nearest_even(1, 2), 0);
    assert_eq!(round_nearest_even(3, 2), 2);
    assert_eq!(round_nearest_even(5, 2), 2);
    assert_eq!(round_nearest_even(7, 2), 4);
    assert_eq!(round_nearest_even(-1, 2), 0);
    assert_eq!(round_nearest_even(-3, 2), -2);
    assert_eq!(round_nearest_even(-5, 2), -2);
    assert_eq!(round_nearest_even(4, 3), 1);
    assert_eq!(round_nearest_even(5, 3), 2);
    assert_eq!(round_nearest_even(-4, 3), -1);
    assert_eq!(round_nearest_even(-5, 3), -2);
    assert_eq!(round_nearest_even(40_625, 1000), 41);
}

#[test]
fn doubles_are_read_to_the_millionth() {
    assert_eq!(fixed_from_bits(0.0f64.to_bits()), Ok(0));
    assert_eq!(fixed_from_bits((-0.0f64).to_bits()), Ok(0));
    assert_eq!(fixed_from_bits(1.0f64.to_bits()), Ok(1_000_000));
    assert_eq!(fixed_from_bits(12.5f64.to_bits()), Ok(12_500_000));
    assert_eq!(fixed_from_bits((-12.5f64).to_bits()), Ok(-12_500_000));
    assert_eq!(fixed_from_bits(0.1f64.to_bits()), Ok(100_000));
    assert_eq!(fixed_from_bits(0.3f64.to_bits()), Ok(300_000));
    assert_eq!(fixed_from_bits(42.857142857142854f64.to_bits()), Ok(42_857_143));
    assert_eq!(fixed_from_bits(3500.0f64.to_bits()), Ok(3_500_000_000));
    assert_eq!(fixed_from_bits(0.0000005f64.to_bits()), Ok(0));
    assert_eq!(fixed_from_bits(0.0000015f64.to_bits()), Ok(2));
    assert_eq!(fixed_from_bits(0.00000051f64.to_bits()), Ok(1));
    assert_eq!(fixed_from_bits(f64::MIN_POSITIVE.to_bits()), Ok(0));
    assert_eq!(fixed_from_bits(5e-324f64.to_bits()), Ok(0));
    assert_eq!(fixed_from_bits(9_000_000_000_000.0f64.to_bits()), Ok(9_000_000_000_000_000_000));
}

#[test]
fn doubles_without_a_fixed_form_are_refused() {
    assert_eq!(fixed_from_bits(f64::NAN.to_bits()), Err(ValidationError::NotFinite));
    assert_eq!(fixed_from_bits(f64::INFINITY.to_bits()), Err(ValidationError::NotFinite));
    assert_eq!(fixed_from_bits(f64::NEG_INFINITY.to_bits()), Err(ValidationError::NotFinite));
    assert_eq!(fixed_from_bits(1e13f64.to_bits()), Err(ValidationError::OutOfRange));
    assert_eq!(fixed_from_bits((-1e13f64).to_bits()), Err(ValidationError::OutOfRange));
    assert_eq!(fixed_from_bits(f64::MAX.to_bits()), Err(ValidationError::OutOfRange));
    assert_eq!(fixed_from_bits(1e300f64.to_bits()), Err(ValidationError::OutOfRange));
}

#[test]
fn doubles_agree_with_rounding_in_floating_point() {
    for value in [0.25f64, 1.0 / 3.0, 2.0 / 3.0, 99.999999, 100.0, 1234.5678, 7.0e-3, 65.4321] {
        let expected = (value * 1e6).round() as i64;
        assert_eq!(fixed_from_bits(value.to_bits()), Ok(expected), "{}", value);
        assert_eq!(fixed_from_bits((-value).to_bits()), Ok(-expected), "{}", value);
    }
}

#[test]
fn stable_order_sorts_and_keeps_equal_keys_in_place() {
    assert_eq!(stable_order_of(&vec![]), Vec::<usize>::new());
    assert_eq!(stable_order_of(&vec![5]), vec![0]);
    assert_eq!(stable_order_of(&vec![3, 1, 2]), vec![1, 2, 0]);
    assert_eq!(stable_order_of(&vec![2, 1, 2, 1, 2]), vec![1, 3, 0, 2, 4]);
    assert_eq!(stable_order_of(&vec![i64::MAX, i64::MIN, 0]), vec![1, 2, 0]);
    assert_eq!(stable_order_of(&vec![1, 1, 1]), vec![0, 1, 2]);
}

#[test]
fn texts_are_compared_by_their_characters() {
    assert!(same_text("bar", "bar"));
    assert!(!same_text("bar", "braille"));
    assert!(!same_text("bar", "Bar"));
    assert!(same_text("", ""));
}

#[test]
fn a_later_pair_overrides_an_earlier_one() {
    let pairs = vec![
        (String::from("core_id"), String::from("1")),
        (String::from("core_type"), String::from("efficiency")),
        (String::from("core_id"), String::from("2")),
    ];
    assert_eq!(find_value(&pairs, "core_id"), Some(&String::from("2")));
    assert_eq!(find_value(&pairs, "core_type"), Some(&String::from("efficiency")));
    assert_eq!(find_value(&pairs, "cluster_id"), None);
}

#[test]
fn doubles_are_taken_apart() {
    assert_eq!(parts_of(0.0f64.to_bits()), Some(DoubleParts { significand: 0, exponent: 0 }));
    assert_eq!(parts_of((-0.0f64).to_bits()), Some(DoubleParts { significand: 0, exponent: 0 }));
    assert_eq!(parts_of(5e-324f64.to_bits()), Some(DoubleParts { significand: 1, exponent: 0 }));
    assert_eq!(
        parts_of(1.0f64.to_bits()),
        Some(DoubleParts { significand: 1 << 52, exponent: 1022 })
    );
    assert_eq!(
        parts_of((-3.0f64).to_bits()),
        Some(DoubleParts { significand: -(3 << 51), exponent: 1023 })
    );
    assert_eq!(
        parts_of(f64::MAX.to_bits()),
        Some(DoubleParts { significand: (1 << 53) - 1, exponent: 2045 })
    );
    assert_eq!(parts_of(f64::NAN.to_bits()), None);
    assert_eq!(parts_of(f64::INFINITY.to_bits()), None);
    assert_eq!(parts_of(f64::NEG_INFINITY.to_bits()), None);
    for value in [0.1f64, 12.5, 1e-310, 6.02e23, -7.25] {
        let parts = parts_of(value.to_bits()).unwrap();
        let back = parts.significand as f64 * 2f64.powi(parts.exponent as i32 - 1074);
        assert_eq!(back, value);
    }
    assert_eq!(small_power_of_two(0), 1);
    assert_eq!(small_power_of_two(10), 1024);
    assert_eq!(small_power_of_two(45), 1 << 45);
}

#[test]
fn wide_numbers_add_with_carry() {
    let zero = Wide::zero();
    assert!(zero.is_zero());
    assert!(!Wide::from_u128(1).is_zero());
    assert!(!Wide { hi: 1, lo: 0 }.is_zero());
    assert_eq!(Wide::from_u128(7).plus(&Wide::from_u128(8)), Wide { hi: 0, lo: 15 });
    assert_eq!(Wide::from_u128(u128::MAX).plus(&Wide::from_u128(1)), Wide { hi: 1, lo: 0 });
    assert_eq!(
        Wide { hi: 2, lo: u128::MAX }.plus(&Wide { hi: 3, lo: u128::MAX }),
        Wide { hi: 6, lo: u128::MAX - 1 }
    );
    assert_eq!(zero.plus(&Wide { hi: 9, lo: 9 }), Wide { hi: 9, lo: 9 });
}

#[test]
fn quotients_are_taken_to_ninety_places() {
    assert_eq!(quotient_to_places(0, 1), Wide { hi: 0, lo: 0 });
    assert_eq!(quotient_to_places(1, 1), Wide { hi: 0, lo: 1 << 90 });
    assert_eq!(quotient_to_places(3, 2), Wide { hi: 0, lo: 3 << 89 });
    assert_eq!(quotient_to_places(1000, 7000), Wide { hi: 0, lo: (1u128 << 90) / 7 });
    assert_eq!(quotient_to_places(1 << 38, 1), Wide { hi: 1, lo: 0 });
    assert_eq!(quotient_to_places((1 << 38) + 1, 1), Wide { hi: 1, lo: 1 << 90 });
    assert_eq!(
        quotient_to_places(MAX_NUMERATOR, 1),
        Wide { hi: MAX_NUMERATOR >> 38, lo: (MAX_NUMERATOR & ((1 << 38) - 1)) << 90 }
    );
    assert_eq!(quotient_to_places(MAX_NUMERATOR, u64::MAX), Wide { hi: 0, lo: 1000 << 90 });
    assert_eq!(quotient_to_places(1000, u64::MAX), Wide { hi: 0, lo: 67_108_864_000 });
    for (numerator, denominator) in [(1000u128, 3u64), (123_456_000, 977), (5000, 13_001)] {
        let found = quotient_to_places(numerator, denominator);
        let expected = numerator as f64 / denominator as f64;
        let value = (found.hi as f64 * 2f64.powi(128) + found.lo as f64) / 2f64.powi(90);
        assert!((value - expected).abs() <= 1e-12 * expected);
    }
}
