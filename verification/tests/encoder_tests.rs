use rarblocks::encoder::write_vint;

#[test]
fn test_write_vint() {
    let mut buffer = Vec::new();
    write_vint(&mut buffer, 0x01);
    assert_eq!(buffer, vec![0x01]);

    buffer.clear();

    write_vint(&mut buffer, 0x80);
    assert_eq!(buffer, vec![0x80, 0x01]);

    buffer.clear();

    write_vint(&mut buffer, 0x3FFF);
    assert_eq!(buffer, vec![0xFF, 0x7F]);

    buffer.clear();

    write_vint(&mut buffer, 0x4000);
    assert_eq!(buffer, vec![0x80, 0x80, 0x01]);
}
