//! The executable encoder: writers that append a value's wire form to a
//! growing byte buffer. Encoding never fails and never mutates the value
//! being written.

use vstd::prelude::*;
use crate::block::Block;
use crate::format::{vint_encoding, block_view_bytes};
use crate::structures::{BlockHeader, GeneralBlockHeader};

verus! {

/// Appends the vint encoding of `value`: 7 bits at a time, low-order first,
/// the continuation bit set on every byte but the last. Zero still emits
/// exactly one zero byte.
#[verifier::loop_isolation(false)]
pub fn write_vint(out: &mut Vec<u8>, value: u64)
    ensures
        final(out)@ == old(out)@ + vint_encoding(value),
{
    let mut w = value;
    while w >= 0x80
        invariant
            old(out)@ + vint_encoding(value) == out@ + vint_encoding(w),
        decreases w,
    {
        let byte = ((w & 0x7f) as u8) | 0x80;
        let ghost w0 = w;
        proof {
            assert(w & 0x7f == w % 0x80 && w % 0x80 < 0x80 && w >> 7 == w / 0x80) by (
            bit_vector);
            assert(((w0 & 0x7f) as u8) | 0x80 == ((w0 & 0x7f) as u8) + 0x80) by (bit_vector);
            assert(byte == ((w0 % 0x80) + 0x80) as u8);
            assert(vint_encoding(w0) == seq![byte] + vint_encoding(w0 / 0x80));
            assert(out@.push(byte) + vint_encoding(w0 / 0x80) =~= out@ + vint_encoding(w0));
        }
        out.push(byte);
        w = w >> 7;
    }
    proof {
        assert(vint_encoding(w) == seq![w as u8]);
        assert(out@.push(w as u8) =~= out@ + vint_encoding(w));
    }
    out.push(w as u8);
}

/// Appends the wire form of a general block header: the header size, type,
/// flags and optional data size vints are serialized first, a CRC-32 is
/// computed over exactly those bytes, and the 4-byte little-endian checksum
/// is written in front of them. Whatever `header.crc32` held is ignored and
/// recomputed here.
pub fn encode_general_header(out: &mut Vec<u8>, header: &GeneralBlockHeader)
    ensures
        final(out)@ == old(out)@ + header.header_bytes(),
{
    let mut fields: Vec<u8> = Vec::new();
    write_vint(&mut fields, header.header_size);
    write_vint(&mut fields, header.header_type);
    write_vint(&mut fields, header.header_flags);
    match header.data_size {
        Some(ds) => write_vint(&mut fields, ds),
        None => (),
    }
    proof {
        assert(fields@ =~= header.fields_bytes());
    }
    let crc = crate::crc32::crc32(fields.as_slice());
    let mut crc_bytes = vstd::bytes::u32_to_le_bytes(crc);
    let ghost crc_seq = crc_bytes@;
    out.append(&mut crc_bytes);
    out.append(&mut fields);
    proof {
        assert(out@ =~= old(out)@ + (crc_seq + header.fields_bytes()));
    }
}

/// Appends the full wire form of one block, dispatching on its variant: the
/// general header (with its size and checksum recomputed) followed by the
/// type-specific payload.
pub fn encode_block(block: &BlockHeader, out: &mut Vec<u8>)
    ensures
        final(out)@ == old(out)@ + block_view_bytes(block@),
{
    match block {
        BlockHeader::Main(base, header) => header.encode(base, out),
        BlockHeader::File(base, header) => header.encode(base, out),
        BlockHeader::End(base, header) => header.encode(base, out),
    }
}

} // verus!
