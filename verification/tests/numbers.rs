//! Decimal numbers, texts and maps keyed by text.
use blitzkrieg_core::decimal::{checked_sum, sum_of, sums_fit, Decimal};
use blitzkrieg_core::str_map::{StrMap, StrSet};
use blitzkrieg_core::text::{
    chars_of, contains, is_before, is_listed, join, join_all, same_text, starts_with, text_of,
    two_words_lowered, write_beginning, write_i64, write_u64,
};

fn dec(num: i64, scale: u32) -> Decimal {
    Decimal::new(num, scale)
}

/// The largest magnitude of a decimal number.
const LARGEST: i128 = 79_228_162_514_264_337_593_543_950_335;

fn largest() -> Decimal {
    Decimal::from_i128_with_scale(LARGEST, 0)
}

#[test]
fn sums_and_differences_keep_the_longer_scale() {
    let s = dec(150, 2).plus(dec(25, 1));
    assert_eq!(s.mantissa(), 400);
    assert_eq!(s.scale(), 2);
    let d = dec(15, 1).minus(dec(25, 2));
    assert_eq!(d.mantissa(), 125);
    assert_eq!(d.scale(), 2);
    assert_eq!(dec(1, 0).minus(dec(3, 0)), dec(-2, 0));
}

#[test]
fn products_add_their_scales() {
    let p = dec(43, 2).times(dec(10, 0));
    assert_eq!(p, dec(43, 1));
    assert_eq!(p.mantissa(), 430);
    assert_eq!(p.scale(), 2);
    assert_eq!(dec(-5, 1).times(dec(5, 1)), dec(-25, 2));
}

#[test]
fn quotients_are_exact_or_rounded_to_the_last_digit() {
    assert_eq!(dec(1, 0).over(dec(4, 0)), dec(25, 2));
    assert_eq!(dec(78, 2).over(dec(100, 0)), dec(78, 4));
    // A third has twenty-eight threes behind the point.
    let third = dec(1, 0).over(dec(3, 0));
    assert_eq!(third.mantissa(), 3_333_333_333_333_333_333_333_333_333);
    assert_eq!(third.scale(), 28);
}

#[test]
fn numbers_are_compared_by_value() {
    assert!(dec(39, 2).less(dec(4, 1)));
    assert!(!dec(40, 2).less(dec(4, 1)));
    assert!(!dec(41, 2).less(dec(4, 1)));
    assert!(dec(-1, 0).less(dec(0, 0)));
    assert_eq!(dec(40, 2), dec(4, 1));
    assert_ne!(dec(40, 2), dec(41, 2));
    assert!(dec(1, 9).is_positive());
    assert!(dec(-1, 9).is_negative());
    assert!(!dec(0, 3).is_positive());
    assert!(!dec(0, 3).is_negative());
    assert_eq!(dec(5, 1).max(dec(4, 1)), dec(5, 1));
    assert_eq!(dec(5, 1).min(dec(4, 1)), dec(4, 1));
    assert_eq!(dec(5, 1).neg(), dec(-5, 1));
    assert_eq!(Decimal::zero(), dec(0, 5));
}

#[test]
fn a_number_is_written_with_the_digits_of_its_scale() {
    assert_eq!(dec(40, 2).text(), "0.40");
    assert_eq!(dec(4, 1).text(), "0.4");
    assert_eq!(dec(-5, 3).text(), "-0.005");
    assert_eq!(dec(-1234, 2).text(), "-12.34");
    assert_eq!(dec(7, 0).text(), "7");
    assert_eq!(dec(0, 2).text(), "0.00");
    assert_eq!(dec(1005, 3).text(), "1.005");
    assert_eq!(largest().text(), "79228162514264337593543950335");
}

#[test]
fn what_does_not_fit_is_told_beforehand() {
    let one = dec(1, 0);
    assert!(dec(1, 1).can_plus(dec(2, 1)));
    assert!(!largest().can_plus(one));
    assert!(largest().can_minus(one));
    assert!(!largest().neg().can_minus(one));
    assert!(largest().can_times(one));
    assert!(!largest().can_times(dec(2, 0)));
    assert!(dec(1, 0).can_over(dec(3, 0)));
    assert!(!dec(1, 0).can_over(dec(0, 0)));
    assert!(!largest().can_over(dec(1, 1)));
}

#[test]
fn a_sum_that_leaves_the_range_is_no_sum() {
    let small = vec![dec(10, 2), dec(25, 2), dec(-5, 2)];
    assert!(sums_fit(&small));
    assert_eq!(sum_of(&small), dec(30, 2));
    assert_eq!(checked_sum(&small), Some(dec(3, 1)));
    assert_eq!(checked_sum(&Vec::new()), Some(dec(0, 0)));
    let wide = vec![largest(), dec(1, 0)];
    assert!(!sums_fit(&wide));
    assert_eq!(checked_sum(&wide), None);
    // The order decides: what leaves the range on the way is no sum, though it would come back.
    let back = vec![largest(), dec(1, 0), dec(-2, 0)];
    assert_eq!(checked_sum(&back), None);
}

#[test]
fn integers_are_written_in_digits() {
    assert_eq!(write_u64(0), "0");
    assert_eq!(write_u64(18_446_744_073_709_551_615), "18446744073709551615");
    assert_eq!(write_i64(-70), "-70");
    assert_eq!(write_i64(i64::MIN), "-9223372036854775808");
}

#[test]
fn texts_are_compared_and_searched_by_character() {
    assert!(same_text("tok", "tok"));
    assert!(!same_text("tok", "token"));
    assert!(is_before("Z", "a"));
    assert!(is_before("ab", "abc"));
    assert!(!is_before("abc", "abc"));
    assert!(starts_with("exit:tok", "exit:"));
    assert!(!starts_with("exit", "exit:"));
    assert!(starts_with("exit", ""));
    assert!(contains("libprobe.so", "probe"));
    assert!(!contains("libprob.so", "probe"));
    assert!(contains("x", ""));
}

#[test]
fn texts_are_put_together() {
    assert_eq!(join("a", "ü"), "aü");
    assert_eq!(text_of(&chars_of("a — ü")), "a — ü");
    let parts = vec!["a".to_string(), "b".to_string(), "c".to_string()];
    assert_eq!(join_all(&parts, ", "), "a, b, c");
    assert_eq!(join_all(&Vec::new(), ", "), "");
    assert!(is_listed(&parts, "b"));
    assert!(!is_listed(&parts, "bc"));
    assert_eq!(write_beginning("teapot", 3), "tea");
    assert_eq!(write_beginning("tea", 32), "tea");
}

#[test]
fn the_first_two_words_are_lowered() {
    assert_eq!(two_words_lowered("Max Positions reached"), "max_positions");
    assert_eq!(two_words_lowered("  ÄRGER\u{2003}Über alles"), "ärger_über");
    assert_eq!(two_words_lowered("ONE"), "one");
    assert_eq!(two_words_lowered("@AZ[`az{ 09_~Q"), "@az[`az{_09_~q");
    assert_eq!(two_words_lowered(" \t "), "");
    assert_eq!(two_words_lowered("A\u{85}B\u{3000}C"), "a_b");
    // A zero-width space is no white space.
    assert_eq!(two_words_lowered("A\u{200b}B C"), "a\u{200b}b_c");
}

#[test]
fn a_map_keeps_its_keys_in_order() {
    let mut m: StrMap<u64> = StrMap::new();
    m.insert("b".to_string(), 2);
    m.insert("a".to_string(), 1);
    m.insert("c".to_string(), 3);
    m.insert("b".to_string(), 20);
    assert_eq!(m.len(), 3);
    assert_eq!(m.key_at(0), "a");
    assert_eq!(m.key_at(1), "b");
    assert_eq!(m.key_at(2), "c");
    assert_eq!(*m.value_at(1), 20);
    assert_eq!(m.get("c"), Some(&3));
    assert_eq!(m.get("d"), None);
    assert!(m.contains_key("a"));
    assert_eq!(m.remove("a"), Some(1));
    assert_eq!(m.remove("a"), None);
    assert_eq!(m.key_at(0), "b");
    m.set_value_at(0, 5);
    assert_eq!(m.get("b"), Some(&5));
}

#[test]
fn a_set_takes_each_text_once() {
    let mut s = StrSet::new();
    assert!(s.insert("x".to_string()));
    assert!(!s.insert("x".to_string()));
    assert!(s.contains("x"));
    assert_eq!(s.len(), 1);
    s.remove("x");
    assert!(!s.contains("x"));
    assert_eq!(s.len(), 0);
}

#[test]
fn plain_results_keep_their_parts() {
    let parts = |d: Decimal| (d.mantissa(), d.scale());
    assert_eq!(parts(dec(10, 0).plus(dec(150, 2))), (1150, 2));
    assert_eq!(parts(dec(50, 2).minus(dec(2, 2))), (48, 2));
    assert_eq!(parts(dec(5, 1).minus(dec(50, 2))), (0, 2));
    assert_eq!(parts(dec(1, 0).minus(dec(25, 1))), (-15, 1));
    // Where one number is zero the other one stays as it is.
    assert_eq!(parts(dec(0, 5).plus(dec(7, 1))), (7, 1));
    assert_eq!(parts(dec(7, 1).plus(dec(0, 5))), (7, 1));
    assert_eq!(parts(dec(0, 5).minus(dec(7, 1))), (-7, 1));
    assert_eq!(parts(dec(0, 5).minus(dec(0, 3))), (0, 3));
    assert_eq!(parts(dec(7, 1).minus(dec(0, 5))), (7, 1));
    // A product adds the scales, and a product with zero has none.
    assert_eq!(parts(dec(10, 0).times(dec(1, 0))), (10, 0));
    assert_eq!(parts(dec(40, 2).times(dec(-50, 1))), (-2000, 3));
    assert_eq!(parts(dec(0, 4).times(dec(5, 2))), (0, 0));
    // So has a quotient of zero.
    assert_eq!(parts(dec(0, 4).over(dec(5, 2))), (0, 0));
    // Far-apart scales, and mantissas beyond 64 bits.
    assert_eq!(
        parts(dec(3, 0).plus(dec(1, 25))),
        (30_000_000_000_000_000_000_000_001, 25)
    );
    let wide = Decimal::from_i128_with_scale(70_000_000_000_000_000_000_000_000_000, 3);
    assert_eq!(parts(wide.minus(dec(1, 3))), (69_999_999_999_999_999_999_999_999_999, 3));
    assert_eq!(
        parts(Decimal::from_i128_with_scale(9_000_000_000_000_000_000_000, 4).times(dec(11, 5))),
        (99_000_000_000_000_000_000_000, 9)
    );
}
