use diamond::vformat::int_to_decimal;
use diamond::codegen::CodegenError;
use diamond::readint::{mrb_digitmap, readint_mrb_int, tolower};

#[test]
fn digit_map() {
    assert_eq!(mrb_digitmap(0), b'0');
    assert_eq!(mrb_digitmap(9), b'9');
    assert_eq!(mrb_digitmap(10), b'a');
    assert_eq!(mrb_digitmap(35), b'z');
}

#[test]
fn lower_casing() {
    assert_eq!(tolower(b'A' as i32), b'a' as i32);
    assert_eq!(tolower(b'Z' as i32), b'z' as i32);
    assert_eq!(tolower(b'q' as i32), b'q' as i32);
    assert_eq!(tolower(b'5' as i32), b'5' as i32);
    assert_eq!(tolower(-3), -3);
}

#[test]
fn reads_decimal_and_hex() {
    assert_eq!(readint_mrb_int(b"123", 10, false), Ok((123, false)));
    assert_eq!(readint_mrb_int(b"+7f", 16, false), Ok((127, false)));
    assert_eq!(readint_mrb_int(b"FF", 16, true), Ok((-255, false)));
    assert_eq!(readint_mrb_int(b"1010", 2, false), Ok((10, false)));
    assert_eq!(readint_mrb_int(b"zz", 36, false), Ok((1295, false)));
    assert_eq!(readint_mrb_int(b"", 10, false), Ok((0, false)));
}

#[test]
fn rejects_digits_outside_the_base() {
    assert_eq!(readint_mrb_int(b"12a", 10, false), Err(CodegenError::MalformedReadintInput));
    assert_eq!(readint_mrb_int(b"2", 2, false), Err(CodegenError::MalformedReadintInput));
    assert_eq!(readint_mrb_int(b"-1", 10, false), Err(CodegenError::MalformedReadintInput));
}

#[test]
fn limits_of_64_bits() {
    assert_eq!(readint_mrb_int(b"9223372036854775807", 10, false), Ok((i64::MAX, false)));
    assert_eq!(readint_mrb_int(b"9223372036854775808", 10, false), Ok((0, true)));
    assert_eq!(readint_mrb_int(b"9223372036854775808", 10, true), Ok((i64::MIN, false)));
    assert_eq!(readint_mrb_int(b"9223372036854775809", 10, true), Ok((0, true)));
}

#[test]
fn overflow_is_reported_before_a_later_bad_digit() {
    assert_eq!(readint_mrb_int(b"99999999999999999999x", 10, false), Ok((0, true)));
}

#[test]
fn reading_back_written_decimals() {
    assert_eq!(readint_mrb_int(&int_to_decimal(12345), 10, false), Ok((12345, false)));
    let minus = int_to_decimal(-77);
    assert_eq!(minus[0], b'-');
    assert_eq!(readint_mrb_int(&minus[1..], 10, true), Ok((-77, false)));
    let max = int_to_decimal(i64::MAX);
    assert_eq!(readint_mrb_int(&max, 10, false), Ok((i64::MAX, false)));
    let min = int_to_decimal(i64::MIN);
    assert_eq!(readint_mrb_int(&min[1..], 10, true), Ok((i64::MIN, false)));
}
