//! The block abstraction: one capability contract shared by every block
//! variant. A variant supplies its numeric type tag and the serialization of
//! its own payload; the shared `encode` logic derives the rest, writing the
//! payload into a scratch buffer first so the general header can declare the
//! payload's true length before it is emitted.

use vstd::prelude::*;
use crate::format::spec_encoded_block_bytes;
use crate::structures::{BaseBlock, GeneralBlockHeader};

verus! {

/// The contract every block variant implements. `encode_data` serializes
/// only the type-specific fields; the provided `encode` wraps them in a
/// freshly computed general header.
pub trait Block: Sized {
    /// The variant's fixed numeric type tag, used for self-description
    /// during encode and for dispatch during decode.
    spec fn type_tag_spec() -> u64;

    /// The wire form of the variant's own payload fields.
    spec fn payload_bytes_spec(&self) -> Seq<u8>;

    /// The variant's fixed numeric type tag.
    fn header_type(&self) -> (t: u64)
        ensures
            t == Self::type_tag_spec(),
    ;

    /// Appends only the type-specific payload fields, no general header.
    fn encode_data(&self, out: &mut Vec<u8>)
        ensures
            final(out)@ == old(out)@ + self.payload_bytes_spec(),
    ;

    /// Appends the block's full wire form. The payload is serialized into a
    /// temporary buffer first, because the general header must declare the
    /// payload's length before the payload itself is written; the header's
    /// size and checksum are always recomputed here, never taken from
    /// `base`.
    fn encode(&self, base: &BaseBlock, out: &mut Vec<u8>)
        ensures
            final(out)@ == old(out)@ + spec_encoded_block_bytes(
                Self::type_tag_spec(),
                base.general_header,
                self.payload_bytes_spec(),
            ),
    {
        let mut payload: Vec<u8> = Vec::new();
        self.encode_data(&mut payload);
        let header = GeneralBlockHeader {
            crc32: 0,
            header_size: payload.len() as u64,
            header_type: self.header_type(),
            header_flags: base.general_header.header_flags,
            data_size: base.general_header.data_size,
        };
        crate::encoder::encode_general_header(out, &header);
        out.append(&mut payload);
        proof {
            assert(out@ =~= old(out)@ + spec_encoded_block_bytes(
                Self::type_tag_spec(),
                base.general_header,
                self.payload_bytes_spec(),
            ));
        }
    }
}

} // verus!
