use rarblocks::crc32::crc32;

#[test]
fn it_works() {
    let result = 2 + 2;
    assert_eq!(result, 4);
}

#[test]
fn crc32_matches_the_standard_check_value() {
    // the ISO-HDLC CRC-32 of "123456789" is the classic check value
    assert_eq!(crc32(b"123456789"), 0xCBF4_3926);
}

#[test]
fn crc32_of_nothing_is_zero() {
    assert_eq!(crc32(&[]), 0);
}
