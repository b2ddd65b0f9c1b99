use rarblocks::decompression::{decompress_data, get_decompressor, Decompressor, DummyDecompressor};
use rarblocks::structures::FileHeader;

#[test]
fn file_header_decompress_uses_the_boundary() {
    let header = FileHeader {
        compression_info: 0x30,
        ..Default::default()
    };
    assert_eq!(header.decompress(&[5, 6, 7]).unwrap(), vec![5, 6, 7]);
}

#[test]
fn dummy_decompressor_returns_input_as_is() {
    let decompressor = DummyDecompressor;
    let test_data = vec![10, 20, 30, 40, 50];
    let result = decompressor.decompress(&test_data).unwrap();
    assert_eq!(result, test_data);
}

#[test]
fn get_decompressor_returns_dummy_decompressor() {
    let decompressor = get_decompressor(0);
    let test_data = vec![1, 2, 3];
    let result = decompressor.decompress(&test_data).unwrap();
    assert_eq!(result, test_data);
}

#[test]
fn decompress_data_is_identity_for_every_method_code() {
    let test_data = vec![0u8, 255, 7, 7, 42];
    for method in [0u64, 0x30, 99, u64::MAX] {
        let result = decompress_data(&test_data, method).unwrap();
        assert_eq!(result, test_data);
    }
}
