//! The data model: the general block header shared by every block, the three
//! typed payloads (main archive header, file header, end-of-archive header),
//! and the closed sum of all block variants.
//!
//! Every decoded value owns its data outright; nothing borrows from the input
//! buffer. Each type also carries the ghost description of its own payload
//! bytes, against which the encoder and decoder are specified.

use vstd::prelude::*;
use crate::block::Block;
use crate::encoder::write_vint;
use crate::format::vint_encoding;

verus! {

use vstd::bytes::spec_u32_to_le_bytes;
use vstd::utf8::encode_utf8;

/// The fixed 8-byte signature that opens a well-formed container. This
/// library treats the bytes as opaque and only requires that all eight are
/// present.
#[derive(Debug, Clone, PartialEq, Eq)]
pub struct RarSignature {
    pub signature: [u8; 8],
}

/// The common envelope in front of every block's payload.
///
/// `header_size` is the byte length of the type-specific payload that follows
/// the header (not of the header itself); it and `crc32` are recomputed on
/// every encode, so values stored here by a caller are never trusted.
#[derive(Debug, Clone, Copy, PartialEq, Eq, Default)]
pub struct GeneralBlockHeader {
    /// Checksum over the serialized header fields (everything after these
    /// four bytes).
    pub crc32: u32,
    /// Byte length of the type-specific payload that follows.
    pub header_size: u64,
    /// Which payload follows: 1 = main, 2 = file, 5 = end of archive.
    pub header_type: u64,
    /// Bitmask of flags; bit 0 says a data region follows the payload.
    pub header_flags: u64,
    /// Length of the data region, present exactly when bit 0 of
    /// `header_flags` is set.
    pub data_size: Option<u64>,
}

impl GeneralBlockHeader {
    /// The header's invariant: the data size is stored if and only if flag
    /// bit 0 announces it.
    pub open spec fn wf(&self) -> bool {
        self.data_size is Some <==> self.header_flags & 1 == 1
    }

    /// The serialized header fields (everything the checksum covers): the
    /// three mandatory vints and, when announced, the data size vint.
    pub open spec fn fields_bytes(&self) -> Seq<u8> {
        vint_encoding(self.header_size) + vint_encoding(self.header_type) + vint_encoding(
            self.header_flags,
        ) + match self.data_size {
            Some(ds) => vint_encoding(ds),
            None => Seq::<u8>::empty(),
        }
    }

    /// The full wire form of the header: the little-endian CRC-32 of the
    /// serialized fields, then the fields. The stored `crc32` field plays no
    /// part: encoding always recomputes it.
    pub open spec fn header_bytes(&self) -> Seq<u8> {
        spec_u32_to_le_bytes(crate::crc32::crc32_of(self.fields_bytes())) + self.fields_bytes()
    }
}

/// The part of every block that all variants share.
#[derive(Debug, Clone, Copy, PartialEq, Eq, Default)]
pub struct BaseBlock {
    pub general_header: GeneralBlockHeader,
}

/// Payload of the main archive header block (type tag 1).
#[derive(Debug, Clone, Copy, PartialEq, Eq, Default)]
pub struct MainArchiveHeader {
    /// Bitmask of archive properties; bit 0 says a volume number follows.
    pub archive_flags: u64,
    /// Sequence number of this volume, present exactly when bit 0 of
    /// `archive_flags` is set.
    pub volume_number: Option<u64>,
}

impl MainArchiveHeader {
    /// The payload invariant: the volume number is stored if and only if
    /// flag bit 0 announces it.
    pub open spec fn wf(&self) -> bool {
        self.volume_number is Some <==> self.archive_flags & 1 == 1
    }

    /// The payload's wire form: the flags vint, then the volume number vint
    /// when present.
    pub open spec fn payload_bytes(&self) -> Seq<u8> {
        vint_encoding(self.archive_flags) + match self.volume_number {
            Some(v) => vint_encoding(v),
            None => Seq::<u8>::empty(),
        }
    }
}

impl Block for MainArchiveHeader {
    open spec fn type_tag_spec() -> u64 {
        1
    }

    open spec fn payload_bytes_spec(&self) -> Seq<u8> {
        self.payload_bytes()
    }

    fn header_type(&self) -> u64 {
        1
    }

    fn encode_data(&self, out: &mut Vec<u8>) {
        write_vint(out, self.archive_flags);
        match self.volume_number {
            Some(volume_number) => write_vint(out, volume_number),
            None => (),
        }
        proof {
            assert(out@ =~= old(out)@ + self.payload_bytes());
        }
    }
}

/// Payload of a file header block (type tag 2).
#[derive(Debug, Clone, PartialEq, Eq, Default)]
pub struct FileHeader {
    /// Bitmask of file properties: bit 1 announces a modification time,
    /// bit 2 a file checksum, bit 3 marks a symlink.
    pub file_flags: u64,
    /// Size of the file once decompressed.
    pub unpacked_size: u64,
    /// Host-specific attribute bits, carried without interpretation.
    pub file_attributes: u64,
    /// Timestamp, present exactly when bit 1 of `file_flags` is set.
    pub modification_time: Option<u32>,
    /// Checksum of the uncompressed file data, present exactly when bit 2 of
    /// `file_flags` is set.
    pub file_crc32: Option<u32>,
    /// Compression method and host code, handed to the compression boundary.
    pub compression_info: u64,
    /// The file name, UTF-8.
    pub file_name: String,
    /// Where the symlink points. When bit 3 of `file_flags` is set, decoding
    /// fills this from the same bytes as `file_name`.
    pub symlink_target: Option<String>,
}

/// Ghost image of a `FileHeader`: the same fields with each string replaced
/// by its character sequence.
pub struct FileHeaderView {
    pub file_flags: u64,
    pub unpacked_size: u64,
    pub file_attributes: u64,
    pub modification_time: Option<u32>,
    pub file_crc32: Option<u32>,
    pub compression_info: u64,
    pub file_name: Seq<char>,
    pub symlink_target: Option<Seq<char>>,
}

impl View for FileHeader {
    type V = FileHeaderView;

    open spec fn view(&self) -> FileHeaderView {
        FileHeaderView {
            file_flags: self.file_flags,
            unpacked_size: self.unpacked_size,
            file_attributes: self.file_attributes,
            modification_time: self.modification_time,
            file_crc32: self.file_crc32,
            compression_info: self.compression_info,
            file_name: self.file_name@,
            symlink_target: match self.symlink_target {
                Some(t) => Some(t@),
                None => None,
            },
        }
    }
}

impl FileHeaderView {
    /// The payload invariant: each optional field is stored if and only if
    /// its flag bit announces it, and a symlink target, when stored, holds
    /// the same characters as the file name (decoding reuses the name bytes
    /// for it).
    pub open spec fn wf(&self) -> bool {
        &&& (self.modification_time is Some <==> self.file_flags & 0x02 != 0)
        &&& (self.file_crc32 is Some <==> self.file_flags & 0x04 != 0)
        &&& (self.symlink_target is Some <==> self.file_flags & 0x08 != 0)
        &&& (self.symlink_target matches Some(t) ==> t == self.file_name)
    }

    /// The UTF-8 bytes of the file name as they appear on the wire.
    pub open spec fn name_bytes(&self) -> Seq<u8> {
        encode_utf8(self.file_name)
    }

    /// The payload's wire form, in its fixed field order: flags, unpacked
    /// size, attributes, the announced optional fields, compression info,
    /// name length, name bytes, and finally the symlink target bytes when
    /// present (appended without a length of their own).
    pub open spec fn payload_bytes(&self) -> Seq<u8> {
        vint_encoding(self.file_flags) + vint_encoding(self.unpacked_size) + vint_encoding(
            self.file_attributes,
        ) + (match self.modification_time {
            Some(t) => spec_u32_to_le_bytes(t),
            None => Seq::<u8>::empty(),
        }) + (match self.file_crc32 {
            Some(c) => spec_u32_to_le_bytes(c),
            None => Seq::<u8>::empty(),
        }) + vint_encoding(self.compression_info) + vint_encoding(
            self.name_bytes().len() as u64,
        ) + self.name_bytes() + (match self.symlink_target {
            Some(t) => encode_utf8(t),
            None => Seq::<u8>::empty(),
        })
    }
}

impl FileHeader {
    /// The payload invariant, stated on the ghost image.
    pub open spec fn wf(&self) -> bool {
        self@.wf()
    }

    /// The payload's wire form, stated on the ghost image.
    pub open spec fn payload_bytes(&self) -> Seq<u8> {
        self@.payload_bytes()
    }
}

impl FileHeader {
    /// Runs a compressed data region through the compression boundary,
    /// keyed by this header's compression info (the identity transform in
    /// this build).
    pub fn decompress(&self, compressed_data: &[u8]) -> (r: Result<
        Vec<u8>,
        crate::decompression::DecompressionError,
    >)
        ensures
            r matches Ok(v) && v@ == compressed_data@,
    {
        crate::decompression::decompress_data(compressed_data, self.compression_info)
    }
}

impl Block for FileHeader {
    open spec fn type_tag_spec() -> u64 {
        2
    }

    open spec fn payload_bytes_spec(&self) -> Seq<u8> {
        self.payload_bytes()
    }

    fn header_type(&self) -> u64 {
        2
    }

    #[verifier::rlimit(60)]
    fn encode_data(&self, out: &mut Vec<u8>) {
        write_vint(out, self.file_flags);
        write_vint(out, self.unpacked_size);
        write_vint(out, self.file_attributes);
        match self.modification_time {
            Some(modification_time) => {
                let mut word = vstd::bytes::u32_to_le_bytes(modification_time);
                out.append(&mut word);
            },
            None => (),
        }
        match self.file_crc32 {
            Some(file_crc32) => {
                let mut word = vstd::bytes::u32_to_le_bytes(file_crc32);
                out.append(&mut word);
            },
            None => (),
        }
        write_vint(out, self.compression_info);
        let name_bytes = self.file_name.as_str().as_bytes();
        write_vint(out, name_bytes.len() as u64);
        out.extend_from_slice(name_bytes);
        match &self.symlink_target {
            Some(symlink_target) => {
                out.extend_from_slice(symlink_target.as_str().as_bytes());
            },
            None => (),
        }
        proof {
            assert(out@ =~= old(out)@ + self.payload_bytes());
        }
    }
}

/// Payload of the end-of-archive block (type tag 5).
#[derive(Debug, Clone, Copy, PartialEq, Eq, Default)]
pub struct EndOfArchiveHeader {
    /// Bitmask of end-of-archive properties, carried without interpretation.
    pub end_archive_flags: u64,
}

impl EndOfArchiveHeader {
    /// The payload's wire form: a single vint.
    pub open spec fn payload_bytes(&self) -> Seq<u8> {
        vint_encoding(self.end_archive_flags)
    }
}

impl Block for EndOfArchiveHeader {
    open spec fn type_tag_spec() -> u64 {
        5
    }

    open spec fn payload_bytes_spec(&self) -> Seq<u8> {
        self.payload_bytes()
    }

    fn header_type(&self) -> u64 {
        5
    }

    fn encode_data(&self, out: &mut Vec<u8>) {
        write_vint(out, self.end_archive_flags);
    }
}

/// One decoded block: the shared general header plus the typed payload the
/// header's type tag selected.
#[derive(Debug, Clone, PartialEq, Eq)]
pub enum BlockHeader {
    Main(BaseBlock, MainArchiveHeader),
    File(BaseBlock, FileHeader),
    End(BaseBlock, EndOfArchiveHeader),
}

/// Ghost image of a `BlockHeader`, with the file payload replaced by its own
/// ghost image.
pub enum BlockHeaderView {
    Main(BaseBlock, MainArchiveHeader),
    File(BaseBlock, FileHeaderView),
    End(BaseBlock, EndOfArchiveHeader),
}

impl View for BlockHeader {
    type V = BlockHeaderView;

    open spec fn view(&self) -> BlockHeaderView {
        match self {
            BlockHeader::Main(base, payload) => BlockHeaderView::Main(*base, *payload),
            BlockHeader::File(base, payload) => BlockHeaderView::File(*base, payload@),
            BlockHeader::End(base, payload) => BlockHeaderView::End(*base, *payload),
        }
    }
}

} // verus!
