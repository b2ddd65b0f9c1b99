//! CRC-32 (the ISO-HDLC polynomial, bit-reflected, as used for the block
//! header checksum). The checksum is computed over the serialized header
//! fields and stored in front of them; this library never verifies a stored
//! checksum on decode.

use vstd::prelude::*;

verus! {

/// One shift of the bit-reflected CRC register: divide by x and, if a one bit
/// fell out, fold the reflected polynomial back in.
pub open spec fn crc32_step_bit(c: u32) -> u32 {
    if c & 1 == 1 {
        (c >> 1) ^ 0xEDB8_8320
    } else {
        c >> 1
    }
}

/// `k` register shifts in a row.
pub open spec fn crc32_bits(c: u32, k: nat) -> u32
    decreases k,
{
    if k == 0 {
        c
    } else {
        crc32_step_bit(crc32_bits(c, (k - 1) as nat))
    }
}

/// Absorb one byte into the register: mix it into the low bits, then shift
/// eight times.
pub open spec fn crc32_byte(c: u32, b: u8) -> u32 {
    crc32_bits(c ^ (b as u32), 8)
}

/// Absorb a whole byte sequence, left to right.
pub open spec fn crc32_fold(c: u32, s: Seq<u8>) -> u32
    decreases s.len(),
{
    if s.len() == 0 {
        c
    } else {
        crc32_byte(crc32_fold(c, s.drop_last()), s.last())
    }
}

/// The CRC-32 of a byte sequence: register preset to all ones, every byte
/// absorbed, and the result inverted.
pub open spec fn crc32_of(s: Seq<u8>) -> u32 {
    crc32_fold(0xFFFF_FFFFu32, s) ^ 0xFFFF_FFFF
}

/// Computes the CRC-32 of `data`, bit by bit.
pub fn crc32(data: &[u8]) -> (r: u32)
    ensures
        r == crc32_of(data@),
{
    let mut c: u32 = 0xFFFF_FFFF;
    let mut i: usize = 0;
    while i < data.len()
        invariant
            i <= data@.len(),
            c == crc32_fold(0xFFFF_FFFFu32, data@.take(i as int)),
        decreases data@.len() - i,
    {
        let b = data[i];
        let mut reg: u32 = c ^ (b as u32);
        let mut k: usize = 0;
        while k < 8
            invariant
                k <= 8,
                reg == crc32_bits(c ^ (b as u32), k as nat),
        decreases 8 - k,
        {
            if reg & 1 == 1 {
                reg = (reg >> 1) ^ 0xEDB8_8320;
            } else {
                reg = reg >> 1;
            }
            k = k + 1;
        }
        proof {
            assert(data@.take(i + 1).drop_last() =~= data@.take(i as int));
            assert(data@.take(i + 1).last() == data@[i as int]);
        }
        c = reg;
        i = i + 1;
    }
    proof {
        assert(data@.take(data@.len() as int) =~= data@);
    }
    c ^ 0xFFFF_FFFF
}

} // verus!
