use ply_writer::decimal::{push_decimal, push_signed_decimal};

fn unsigned(n: u64) -> String {
    let mut out = Vec::new();
    push_decimal(&mut out, n);
    String::from_utf8(out).unwrap()
}

fn signed(v: i64) -> String {
    let mut out = Vec::new();
    push_signed_decimal(&mut out, v);
    String::from_utf8(out).unwrap()
}

#[test]
fn zero_is_one_digit() {
    assert_eq!(unsigned(0), "0");
    assert_eq!(signed(0), "0");
}

#[test]
fn digits_come_most_significant_first() {
    assert_eq!(unsigned(7), "7");
    assert_eq!(unsigned(10), "10");
    assert_eq!(unsigned(120), "120");
    assert_eq!(unsigned(4294967295), "4294967295");
    assert_eq!(unsigned(u64::MAX), "18446744073709551615");
}

#[test]
fn negative_numbers_carry_a_minus_sign() {
    assert_eq!(signed(-1), "-1");
    assert_eq!(signed(-128), "-128");
    assert_eq!(signed(-2147483648), "-2147483648");
    assert_eq!(signed(i64::MIN), "-9223372036854775808");
    assert_eq!(signed(i64::MAX), "9223372036854775807");
}

#[test]
fn decimal_text_is_appended_to_what_is_there() {
    let mut out = b"n=".to_vec();
    push_decimal(&mut out, 42);
    push_signed_decimal(&mut out, -3);
    assert_eq!(out, b"n=42-3".to_vec());
}

#[test]
fn decimal_text_agrees_with_std() {
    for n in [0u64, 9, 10, 99, 100, 101, 65535, 65536, 1_000_000_007] {
        assert_eq!(unsigned(n), n.to_string());
    }
    for v in [-1i64, -9, -10, -32768, 32767, -1_000_000_007] {
        assert_eq!(signed(v), v.to_string());
    }
}
