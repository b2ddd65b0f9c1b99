use rarblocks::archive::Archive;
use rarblocks::crc32::crc32;
use rarblocks::decoder::read_vint;
use rarblocks::encoder::{encode_block, encode_general_header, write_vint};
use rarblocks::error::ArchiveError;
use rarblocks::structures::{
    BaseBlock, BlockHeader, EndOfArchiveHeader, FileHeader, GeneralBlockHeader,
    MainArchiveHeader,
};

const SIGNATURE: [u8; 8] = [0x52, 0x61, 0x72, 0x21, 0x1A, 0x07, 0x01, 0x00];

fn build_block(block: &BlockHeader) -> Vec<u8> {
    let mut buffer = Vec::new();
    encode_block(block, &mut buffer);
    buffer
}

#[test]
fn vint_round_trip_for_edge_values() {
    for v in [0u64, 1, 0x7F, 0x80, 0x3FFF, 0x4000, 12345, u64::MAX / 2, u64::MAX] {
        let mut buffer = Vec::new();
        write_vint(&mut buffer, v);
        assert!(buffer.len() <= 10);
        let mut pos: usize = 0;
        assert_eq!(read_vint(&buffer, &mut pos).unwrap(), v);
        assert_eq!(pos, buffer.len());
    }
}

#[test]
fn vint_zero_is_a_single_zero_byte() {
    let mut buffer = Vec::new();
    write_vint(&mut buffer, 0);
    assert_eq!(buffer, vec![0x00]);
}

#[test]
fn vint_ten_byte_run_truncates_to_64_bits() {
    // ten bytes carry 70 payload bits; the decoder keeps the low 64
    let data: Vec<u8> = vec![0xFF, 0xFF, 0xFF, 0xFF, 0xFF, 0xFF, 0xFF, 0xFF, 0xFF, 0x7F];
    let mut pos: usize = 0;
    assert_eq!(read_vint(&data, &mut pos).unwrap(), u64::MAX);
}

#[test]
fn vint_ten_continuation_bytes_are_malformed() {
    let data: Vec<u8> = vec![0x80; 10];
    let mut pos: usize = 0;
    assert_eq!(read_vint(&data, &mut pos).unwrap_err(), ArchiveError::MalformedVint);
}

#[test]
fn vint_input_ending_mid_run_is_an_error() {
    let data: Vec<u8> = vec![0x80, 0x80];
    let mut pos: usize = 0;
    assert_eq!(
        read_vint(&data, &mut pos).unwrap_err(),
        ArchiveError::UnexpectedEndOfInput
    );
}

#[test]
fn general_header_checksum_is_recomputed_on_encode() {
    // whatever the caller stored in crc32 is discarded; the stored checksum
    // covers exactly the serialized header fields
    let header = GeneralBlockHeader {
        crc32: 0xDEAD_BEEF,
        header_size: 10,
        header_type: 1,
        header_flags: 0,
        data_size: None,
    };
    let mut out = Vec::new();
    encode_general_header(&mut out, &header);
    let fields = [0x0Au8, 0x01, 0x00];
    assert_eq!(&out[4..], &fields);
    let stored = u32::from_le_bytes([out[0], out[1], out[2], out[3]]);
    assert_eq!(stored, crc32(&fields));
    assert_ne!(stored, 0xDEAD_BEEF);
}

#[test]
fn block_round_trip_preserves_every_field() {
    let main = BlockHeader::Main(
        BaseBlock::default(),
        MainArchiveHeader {
            archive_flags: 1,
            volume_number: Some(7),
        },
    );
    let file = BlockHeader::File(
        BaseBlock {
            general_header: GeneralBlockHeader {
                header_flags: 0x0001,
                data_size: Some(3),
                ..Default::default()
            },
        },
        FileHeader {
            file_flags: 0x02 | 0x04 | 0x08,
            unpacked_size: 999_999,
            file_attributes: 0o644,
            modification_time: Some(0x1234_5678),
            file_crc32: Some(0x8765_4321),
            compression_info: 0x30,
            file_name: "dir/entry".to_string(),
            symlink_target: Some("dir/entry".to_string()),
        },
    );
    let end = BlockHeader::End(
        BaseBlock::default(),
        EndOfArchiveHeader { end_archive_flags: 2 },
    );

    let mut data = SIGNATURE.to_vec();
    data.extend_from_slice(&build_block(&main));
    data.extend_from_slice(&build_block(&file));
    data.extend_from_slice(&[0xAA, 0xBB, 0xCC]); // the file block's data region
    data.extend_from_slice(&build_block(&end));

    let mut archive = Archive::new(data).unwrap();

    match archive.next().unwrap().unwrap() {
        BlockHeader::Main(base, h) => {
            assert_eq!(h.archive_flags, 1);
            assert_eq!(h.volume_number, Some(7));
            assert_eq!(base.general_header.header_type, 1);
            assert_eq!(base.general_header.data_size, None);
        }
        other => panic!("expected a main header, got {:?}", other),
    }

    match archive.next().unwrap().unwrap() {
        BlockHeader::File(base, h) => {
            assert_eq!(h.file_flags, 0x0E);
            assert_eq!(h.unpacked_size, 999_999);
            assert_eq!(h.file_attributes, 0o644);
            assert_eq!(h.modification_time, Some(0x1234_5678));
            assert_eq!(h.file_crc32, Some(0x8765_4321));
            assert_eq!(h.compression_info, 0x30);
            assert_eq!(h.file_name, "dir/entry");
            assert_eq!(h.symlink_target.as_deref(), Some("dir/entry"));
            assert_eq!(base.general_header.header_type, 2);
            assert_eq!(base.general_header.data_size, Some(3));
            let region = archive.read_file_data(&base, &h).unwrap();
            assert_eq!(region, vec![0xAA, 0xBB, 0xCC]);
        }
        other => panic!("expected a file header, got {:?}", other),
    }

    match archive.next().unwrap().unwrap() {
        BlockHeader::End(base, h) => {
            assert_eq!(h.end_archive_flags, 2);
            assert_eq!(base.general_header.header_type, 5);
        }
        other => panic!("expected an end-of-archive header, got {:?}", other),
    }

    assert!(archive.next().is_none());
}

#[test]
fn unread_data_region_is_skipped_automatically() {
    let main = BlockHeader::Main(BaseBlock::default(), MainArchiveHeader::default());
    let file = BlockHeader::File(
        BaseBlock {
            general_header: GeneralBlockHeader {
                header_flags: 0x0001,
                data_size: Some(3),
                ..Default::default()
            },
        },
        FileHeader {
            file_name: "payload.bin".to_string(),
            ..Default::default()
        },
    );
    let end = BlockHeader::End(BaseBlock::default(), EndOfArchiveHeader::default());

    let mut data = SIGNATURE.to_vec();
    data.extend_from_slice(&build_block(&main));
    data.extend_from_slice(&build_block(&file));
    data.extend_from_slice(&[9, 8, 7]); // never read through read_file_data
    data.extend_from_slice(&build_block(&end));

    let mut archive = Archive::new(data).unwrap();
    assert!(matches!(archive.next(), Some(Ok(BlockHeader::Main(..)))));
    assert!(matches!(archive.next(), Some(Ok(BlockHeader::File(..)))));
    // the three unread data bytes must not be parsed as a header
    assert!(matches!(archive.next(), Some(Ok(BlockHeader::End(..)))));
    assert!(archive.next().is_none());
}

#[test]
fn data_free_block_reads_as_empty() {
    let file = BlockHeader::File(
        BaseBlock::default(),
        FileHeader {
            file_name: "empty".to_string(),
            ..Default::default()
        },
    );
    let mut data = SIGNATURE.to_vec();
    data.extend_from_slice(&build_block(&file));
    let mut archive = Archive::new(data).unwrap();
    match archive.next().unwrap().unwrap() {
        BlockHeader::File(base, h) => {
            assert_eq!(archive.read_file_data(&base, &h).unwrap(), Vec::<u8>::new());
        }
        other => panic!("expected a file header, got {:?}", other),
    }
}

#[test]
fn data_region_already_passed_reads_as_empty() {
    let file = BlockHeader::File(
        BaseBlock {
            general_header: GeneralBlockHeader {
                header_flags: 0x0001,
                data_size: Some(4),
                ..Default::default()
            },
        },
        FileHeader {
            file_name: "late".to_string(),
            ..Default::default()
        },
    );
    let end = BlockHeader::End(BaseBlock::default(), EndOfArchiveHeader::default());

    let mut data = SIGNATURE.to_vec();
    data.extend_from_slice(&build_block(&file));
    data.extend_from_slice(&[1, 2, 3, 4]);
    data.extend_from_slice(&build_block(&end));

    let mut archive = Archive::new(data).unwrap();
    let (base, header) = match archive.next().unwrap().unwrap() {
        BlockHeader::File(base, header) => (base, header),
        other => panic!("expected a file header, got {:?}", other),
    };
    // advance past the block first; its data region is skipped, and a late
    // read yields nothing instead of misreading the next block
    assert!(matches!(archive.next(), Some(Ok(BlockHeader::End(..)))));
    assert_eq!(archive.read_file_data(&base, &header).unwrap(), Vec::<u8>::new());
    // reading twice in a row behaves the same way: the second call finds the
    // region already consumed
    let mut data2 = SIGNATURE.to_vec();
    data2.extend_from_slice(&build_block(&file));
    data2.extend_from_slice(&[1, 2, 3, 4]);
    let mut archive2 = Archive::new(data2).unwrap();
    let (base2, header2) = match archive2.next().unwrap().unwrap() {
        BlockHeader::File(base, header) => (base, header),
        other => panic!("expected a file header, got {:?}", other),
    };
    assert_eq!(archive2.read_file_data(&base2, &header2).unwrap(), vec![1, 2, 3, 4]);
    assert_eq!(archive2.read_file_data(&base2, &header2).unwrap(), Vec::<u8>::new());
}

#[test]
fn unknown_block_type_is_reported_not_skipped() {
    // a block whose general header carries type tag 99
    let mut data = SIGNATURE.to_vec();
    let mut header_bytes = Vec::new();
    encode_general_header(
        &mut header_bytes,
        &GeneralBlockHeader {
            crc32: 0,
            header_size: 0,
            header_type: 99,
            header_flags: 0,
            data_size: None,
        },
    );
    data.extend_from_slice(&header_bytes);
    let mut archive = Archive::new(data).unwrap();
    match archive.next() {
        Some(Err(e)) => assert_eq!(e, ArchiveError::UnknownBlockType),
        other => panic!("expected an unknown-block-type error, got {:?}", other.is_some()),
    }
}

#[test]
fn end_of_input_at_block_boundary_terminates_normally() {
    // nothing after the signature: zero complete blocks, then clean end
    let archive_data = SIGNATURE.to_vec();
    let mut archive = Archive::new(archive_data).unwrap();
    assert!(archive.next().is_none());
}

#[test]
fn end_of_input_mid_header_is_an_error() {
    // two stray bytes cannot even hold the header's checksum word
    let mut data = SIGNATURE.to_vec();
    data.extend_from_slice(&[0x11, 0x22]);
    let mut archive = Archive::new(data).unwrap();
    match archive.next() {
        Some(Err(e)) => assert_eq!(e, ArchiveError::UnexpectedEndOfInput),
        other => panic!("expected an end-of-input error, got {:?}", other.is_some()),
    }
}

#[test]
fn truncated_signature_is_rejected() {
    let result = Archive::new(vec![0x52, 0x61, 0x72]);
    assert_eq!(result.unwrap_err(), ArchiveError::UnexpectedEndOfInput);
}
