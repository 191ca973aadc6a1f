use system_monitor::text::{append_decimal, decimal_text};
use system_monitor::units::{bytes_to_mebibytes, BYTES_PER_MEBIBYTE};

#[test]
fn one_mebibyte_is_one() {
    assert_eq!(bytes_to_mebibytes(1_048_576), 1);
}

#[test]
fn one_and_a_half_mebibytes_truncate_to_one() {
    assert_eq!(bytes_to_mebibytes(1_572_864), 1);
}

#[test]
fn less_than_a_mebibyte_is_zero() {
    assert_eq!(bytes_to_mebibytes(0), 0);
    assert_eq!(bytes_to_mebibytes(1_048_575), 0);
}

#[test]
fn conversion_is_floor_division() {
    let samples: [u64; 8] = [
        0,
        1,
        1_048_577,
        2_097_151,
        2_097_152,
        4_294_967_296,
        123_456_789_012_345,
        u64::MAX,
    ];
    for bytes in samples {
        assert_eq!(bytes_to_mebibytes(bytes), bytes / BYTES_PER_MEBIBYTE);
    }
    assert_eq!(bytes_to_mebibytes(u64::MAX), 17_592_186_044_415);
}

#[test]
fn decimal_text_of_small_and_large() {
    assert_eq!(decimal_text(0), "0");
    assert_eq!(decimal_text(7), "7");
    assert_eq!(decimal_text(10), "10");
    assert_eq!(decimal_text(4096), "4096");
    assert_eq!(decimal_text(u128::MAX), "340282366920938463463374607431768211455");
}

#[test]
fn decimal_text_agrees_with_display() {
    let mut n: u128 = 1;
    for _ in 0..38 {
        assert_eq!(decimal_text(n), format!("{}", n));
        assert_eq!(decimal_text(n - 1), format!("{}", n - 1));
        n = n * 10 + 3;
    }
}

#[test]
fn every_digit_is_written() {
    assert_eq!(decimal_text(1_234_567_890), "1234567890");
}

#[test]
fn append_decimal_keeps_what_is_there() {
    let mut text = String::from("n = ");
    append_decimal(&mut text, 305);
    assert_eq!(text, "n = 305");
    append_decimal(&mut text, 0);
    assert_eq!(text, "n = 3050");
}
