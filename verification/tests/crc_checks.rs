use diamond::crc::calc_crc_16_ccitt;

#[test]
fn crc_of_nothing_is_the_seed() {
    assert_eq!(calc_crc_16_ccitt(&[], 0, 0), 0);
    assert_eq!(calc_crc_16_ccitt(&[], 0, 0x1234), 0x1234);
}

#[test]
fn crc_of_check_string() {
    let data = b"123456789";
    assert_eq!(calc_crc_16_ccitt(data, 9, 0), 48879);
    assert_eq!(calc_crc_16_ccitt(data, 9, 0xffff), 42653);
}

#[test]
fn crc_single_byte() {
    assert_eq!(calc_crc_16_ccitt(b"A", 1, 0), 65);
}

#[test]
fn crc_uses_only_the_given_prefix() {
    assert_eq!(calc_crc_16_ccitt(b"abcXYZ", 3, 0x1234), 64182);
    assert_eq!(calc_crc_16_ccitt(&[0, 0, 7], 2, 0x1d0f), 33984);
}

#[test]
fn crc_chains_over_concatenation() {
    let whole = calc_crc_16_ccitt(b"123456789", 9, 0);
    let first = calc_crc_16_ccitt(b"1234", 4, 0);
    let second = calc_crc_16_ccitt(b"56789", 5, first);
    assert_eq!(whole, second);
}
