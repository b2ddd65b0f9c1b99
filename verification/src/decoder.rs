//! The executable decoder: sequential readers over a byte slice and a
//! cursor, one per layer of the format. Each function is specified against
//! the ghost parsers in `format`.

use vstd::prelude::*;
use crate::error::ArchiveError;
use crate::format::{
    has_continuation, spec_read_vint, vint_max_len, vint_value,
    lemma_vint_run_all_continuation, lemma_vint_run_hits_end, lemma_vint_run_end_finds,
    lemma_vint_value_bound, lemma_vint_value_push, spec_read_u32_le, spec_read_general_header,
    spec_read_main_header, spec_read_file_header, spec_read_end_header,
};
use crate::structures::{EndOfArchiveHeader, FileHeader, GeneralBlockHeader, MainArchiveHeader};

verus! {

use vstd::utf8::{decode_utf8, valid_utf8};

use vstd::arithmetic::power2::{
    pow2, lemma_pow2_adds, lemma_pow2_strictly_increases, lemma2_to64, lemma2_to64_rest,
};
use vstd::arithmetic::div_mod::{lemma_small_mod, lemma_mod_multiples_vanish};
use vstd::bits::{lemma_u64_shl_is_mul, lemma_u64_pow2_no_overflow};

/// Reads a variable-length integer at `*pos`: the low seven bits of each
/// byte are merged at an increasing shift until a byte without the
/// continuation bit ends the run. A run of ten continuation bytes is
/// rejected as malformed rather than read without bound.
#[verifier::loop_isolation(false)]
pub fn read_vint(input: &[u8], pos: &mut usize) -> (r: Result<u64, ArchiveError>)
    requires
        *old(pos) <= input@.len(),
    ensures
        *old(pos) <= *final(pos) <= input@.len(),
        (match spec_read_vint(input@, *old(pos) as int) {
            Ok((v, p)) => r == Ok::<u64, ArchiveError>(v) && *final(pos) == p,
            Err(e) => r == Err::<u64, ArchiveError>(e),
        }),
{
    let ghost s = input@;
    let ghost pos0 = *pos as int;
    let mut p = *pos;
    let mut value: u64 = 0;
    let mut shift: u64 = 0;
    let mut i: usize = 0;
    loop
        invariant
            0 <= pos0 <= s.len(),
            s == input@,
            pos0 + i == p as int,
            p <= s.len(),
            i <= 10,
            shift == 7 * i,
            i < 10 ==> value as int == vint_value(s.subrange(pos0, p as int)),
            forall|j: int| pos0 <= j < p ==> has_continuation(#[trigger] s[j]),
        decreases 10 - i,
    {
        if i >= 10 {
            proof {
                lemma_vint_run_all_continuation(s, pos0, vint_max_len() as nat);
            }
            *pos = p;
            return Err(ArchiveError::MalformedVint);
        }
        if p >= input.len() {
            proof {
                lemma_vint_run_hits_end(s, pos0, vint_max_len() as nat);
            }
            *pos = p;
            return Err(ArchiveError::UnexpectedEndOfInput);
        }
        let byte = input[p];
        let ghost sub = s.subrange(pos0, p as int);
        let ghost newsub = s.subrange(pos0, p + 1);
        proof {
            lemma_vint_value_bound(sub);
            lemma_vint_value_push(sub, byte);
            assert(newsub =~= sub.push(byte));
            lemma2_to64();
            lemma2_to64_rest();
            assert((1u64 << shift) == pow2(shift as nat)) by {
                lemma_u64_pow2_no_overflow(shift as nat);
                lemma_u64_shl_is_mul(1u64, shift);
            }
            if shift < 63 {
                lemma_pow2_strictly_increases(shift as nat, 63);
            }
        }
        let merged = ((byte & 0x7f) as u64) << shift;
        let new_value = value | merged;
        proof {
            let bb = (byte & 0x7f) as u64;
            assert(((byte & 0x7f) as u64) as int == (byte % 0x80) as int) by (bit_vector);
            assert(vint_value(newsub) == vint_value(sub) + bb * pow2((7 * i) as nat)) by {
                assert(bb as int * pow2((7 * i) as nat) == (byte % 0x80) as int * pow2(
                    (7 * i) as nat,
                )) by (nonlinear_arith)
                    requires
                        bb as int == (byte % 0x80) as int,
                ;
                assert(sub.len() == i);
            }
            if i < 9 {
                // below the tenth byte nothing truncates: the shifted bits
                // sit wholly above the accumulated value
                assert(pow2(shift as nat) <= pow2(56)) by {
                    if shift < 56 {
                        lemma_pow2_strictly_increases(shift as nat, 56);
                    }
                }
                assert(bb * pow2(shift as nat) <= 0x7f * pow2(56)) by (nonlinear_arith)
                    requires
                        bb <= 0x7f,
                        0 < pow2(shift as nat) <= pow2(56) as int,
                ;
                assert(merged == bb * pow2(shift as nat)) by {
                    lemma_u64_shl_is_mul(bb, shift);
                }
                assert(new_value == value + merged) by (bit_vector)
                    requires
                        shift <= 56,
                        value < (1u64 << shift),
                        merged == (bb << shift),
                        bb <= 0x7f,
                        new_value == (value | merged),
                ;
                assert(new_value as int == vint_value(newsub));
                lemma_vint_value_bound(newsub);
                assert(pow2((7 * (i + 1)) as nat) <= pow2(63)) by {
                    if i + 1 < 9 {
                        lemma_pow2_strictly_increases((7 * (i + 1)) as nat, 63);
                    }
                }
                lemma_small_mod(vint_value(newsub) as nat, pow2(64) as nat);
            } else {
                // the tenth byte: only its lowest payload bit still fits in
                // the 64-bit accumulator; everything above is truncated
                assert(new_value == value + ((bb & 1) as u64) * 0x8000_0000_0000_0000 && (bb
                    & 1) as int == bb as int % 2) by (bit_vector)
                    requires
                        shift == 63,
                        value < (1u64 << 63),
                        merged == (bb << shift),
                        bb <= 0x7f,
                        new_value == (value | merged),
                ;
                let m = bb as int;
                assert(m * pow2(63) == (m / 2) * pow2(64) + (m % 2) * pow2(63)) by (
                nonlinear_arith)
                    requires
                        pow2(64) as int == 2 * pow2(63),
                        m == 2 * (m / 2) + m % 2,
                ;
                assert(vint_value(newsub) == ((m / 2) * pow2(64)) + (vint_value(sub) + (m % 2)
                    * pow2(63)));
                assert(vint_value(newsub) % pow2(64) as int == vint_value(sub) + (m % 2) * pow2(
                    63,
                )) by {
                    lemma_mod_multiples_vanish(
                        m / 2,
                        vint_value(sub) + (m % 2) * pow2(63),
                        pow2(64) as int,
                    );
                    assert(0 <= (m % 2) * pow2(63) <= pow2(63)) by (nonlinear_arith)
                        requires
                            0 <= m % 2 <= 1,
                            pow2(63) > 0,
                    ;
                    lemma_small_mod(
                        (vint_value(sub) + (m % 2) * pow2(63)) as nat,
                        pow2(64) as nat,
                    );
                }
                assert(new_value as int == vint_value(newsub) % pow2(64) as int);
            }
            assert(new_value as int == vint_value(newsub) % 0x1_0000_0000_0000_0000);
        }
        value = new_value;
        p = p + 1;
        i = i + 1;
        shift = shift + 7;
        if byte & 0x80 == 0 {
            proof {
                assert(!has_continuation(byte)) by (bit_vector)
                    requires
                        byte & 0x80 == 0,
                ;
                lemma_vint_run_end_finds(s, pos0, vint_max_len() as nat, i as int);
            }
            *pos = p;
            return Ok(value);
        }
        proof {
            assert(has_continuation(byte)) by (bit_vector)
                requires
                    byte & 0x80 != 0,
            ;
            if i < 10 {
                lemma_vint_value_bound(newsub);
                lemma_pow2_strictly_increases((7 * i) as nat, 64);
                lemma_small_mod(vint_value(newsub) as nat, pow2(64) as nat);
                lemma2_to64();
            }
        }
    }
}

/// Reads a 4-byte little-endian word at `*pos`.
fn read_u32_le(input: &[u8], pos: &mut usize) -> (r: Result<u32, ArchiveError>)
    requires
        *old(pos) <= input@.len(),
    ensures
        *old(pos) <= *final(pos) <= input@.len(),
        (match spec_read_u32_le(input@, *old(pos) as int) {
            Ok((v, p)) => r == Ok::<u32, ArchiveError>(v) && *final(pos) == p,
            Err(e) => r == Err::<u32, ArchiveError>(e) && *final(pos) == *old(pos),
        }),
{
    let p = *pos;
    if input.len() - p < 4 {
        return Err(ArchiveError::UnexpectedEndOfInput);
    }
    let mut word: Vec<u8> = Vec::new();
    word.push(input[p]);
    word.push(input[p + 1]);
    word.push(input[p + 2]);
    word.push(input[p + 3]);
    proof {
        assert(word@ =~= input@.subrange(p as int, p + 4));
    }
    let v = vstd::bytes::u32_from_le_bytes(word.as_slice());
    *pos = p + 4;
    Ok(v)
}

/// Reads and parses a general block header at `*pos`: the checksum word,
/// the header size, type and flags vints, and the data size vint when flag
/// bit 0 announces one.
pub fn read_general_block_header(input: &[u8], pos: &mut usize) -> (r: Result<
    GeneralBlockHeader,
    ArchiveError,
>)
    requires
        *old(pos) <= input@.len(),
    ensures
        *old(pos) <= *final(pos) <= input@.len(),
        (match spec_read_general_header(input@, *old(pos) as int) {
            Ok((h, p)) => r == Ok::<GeneralBlockHeader, ArchiveError>(h) && *final(pos) == p,
            Err(e) => r == Err::<GeneralBlockHeader, ArchiveError>(e),
        }),
{
    let crc32 = match read_u32_le(input, pos) {
        Ok(v) => v,
        Err(e) => {
            return Err(e);
        },
    };
    let header_size = match read_vint(input, pos) {
        Ok(v) => v,
        Err(e) => {
            return Err(e);
        },
    };
    let header_type = match read_vint(input, pos) {
        Ok(v) => v,
        Err(e) => {
            return Err(e);
        },
    };
    let header_flags = match read_vint(input, pos) {
        Ok(v) => v,
        Err(e) => {
            return Err(e);
        },
    };
    let data_size = if header_flags & 1 == 1 {
        match read_vint(input, pos) {
            Ok(v) => Some(v),
            Err(e) => {
                return Err(e);
            },
        }
    } else {
        None
    };
    Ok(GeneralBlockHeader { crc32, header_size, header_type, header_flags, data_size })
}

/// Reads a main archive header payload at `*pos`: the archive flags vint and,
/// when flag bit 0 announces one, the volume number vint.
pub fn read_main_archive_header(input: &[u8], pos: &mut usize) -> (r: Result<
    MainArchiveHeader,
    ArchiveError,
>)
    requires
        *old(pos) <= input@.len(),
    ensures
        *old(pos) <= *final(pos) <= input@.len(),
        (match spec_read_main_header(input@, *old(pos) as int) {
            Ok((h, p)) => r == Ok::<MainArchiveHeader, ArchiveError>(h) && *final(pos) == p,
            Err(e) => r == Err::<MainArchiveHeader, ArchiveError>(e),
        }),
{
    let archive_flags = match read_vint(input, pos) {
        Ok(v) => v,
        Err(e) => {
            return Err(e);
        },
    };
    let volume_number = if archive_flags & 1 == 1 {
        match read_vint(input, pos) {
            Ok(v) => Some(v),
            Err(e) => {
                return Err(e);
            },
        }
    } else {
        None
    };
    Ok(MainArchiveHeader { archive_flags, volume_number })
}

/// Reads an end-of-archive payload at `*pos`: a single flags vint.
pub fn read_end_of_archive_header(input: &[u8], pos: &mut usize) -> (r: Result<
    EndOfArchiveHeader,
    ArchiveError,
>)
    requires
        *old(pos) <= input@.len(),
    ensures
        *old(pos) <= *final(pos) <= input@.len(),
        (match spec_read_end_header(input@, *old(pos) as int) {
            Ok((h, p)) => r == Ok::<EndOfArchiveHeader, ArchiveError>(h) && *final(pos) == p,
            Err(e) => r == Err::<EndOfArchiveHeader, ArchiveError>(e),
        }),
{
    let end_archive_flags = match read_vint(input, pos) {
        Ok(v) => v,
        Err(e) => {
            return Err(e);
        },
    };
    Ok(EndOfArchiveHeader { end_archive_flags })
}

/// Relies on `String::from_utf8`: it succeeds exactly when the bytes are
/// valid UTF-8, and then returns the string those bytes spell.
#[verifier::external_body]
fn string_from_utf8(bytes: Vec<u8>) -> (r: Option<String>)
    ensures
        r is Some <==> valid_utf8(bytes@),
        (r matches Some(s) ==> s@ == decode_utf8(bytes@)),
{
    match String::from_utf8(bytes) {
        Ok(s) => Some(s),
        Err(_) => None,
    }
}

/// Reads a file header payload at `*pos`, in the format's fixed field order:
/// flags, unpacked size, attributes, the optional timestamp and checksum
/// words the flags announce, compression info, name length, then the name
/// bytes. The name must be valid UTF-8, else the decode fails with
/// `InvalidEncoding`; when the symlink flag (bit 3) is set, the target is
/// populated from those same name bytes rather than read again.
pub fn read_file_header(input: &[u8], pos: &mut usize) -> (r: Result<FileHeader, ArchiveError>)
    requires
        *old(pos) <= input@.len(),
    ensures
        *old(pos) <= *final(pos) <= input@.len(),
        (match spec_read_file_header(input@, *old(pos) as int) {
            Ok((h, p)) => r matches Ok(fh) && fh@ == h && *final(pos) == p,
            Err(e) => r == Err::<FileHeader, ArchiveError>(e),
        }),
{
    let file_flags = match read_vint(input, pos) {
        Ok(v) => v,
        Err(e) => {
            return Err(e);
        },
    };
    let unpacked_size = match read_vint(input, pos) {
        Ok(v) => v,
        Err(e) => {
            return Err(e);
        },
    };
    let file_attributes = match read_vint(input, pos) {
        Ok(v) => v,
        Err(e) => {
            return Err(e);
        },
    };
    let modification_time = if file_flags & 0x02 != 0 {
        match read_u32_le(input, pos) {
            Ok(v) => Some(v),
            Err(e) => {
                return Err(e);
            },
        }
    } else {
        None
    };
    let file_crc32 = if file_flags & 0x04 != 0 {
        match read_u32_le(input, pos) {
            Ok(v) => Some(v),
            Err(e) => {
                return Err(e);
            },
        }
    } else {
        None
    };
    let compression_info = match read_vint(input, pos) {
        Ok(v) => v,
        Err(e) => {
            return Err(e);
        },
    };
    let name_len = match read_vint(input, pos) {
        Ok(v) => v,
        Err(e) => {
            return Err(e);
        },
    };
    let p = *pos;
    if name_len > (input.len() - p) as u64 {
        return Err(ArchiveError::UnexpectedEndOfInput);
    }
    let n = name_len as usize;
    let mut name_bytes: Vec<u8> = Vec::new();
    let mut j: usize = 0;
    while j < n
        invariant
            j <= n,
            p + n <= usize::MAX,
            p + n <= input@.len(),
            name_bytes@ == input@.subrange(p as int, p + j),
        decreases n - j,
    {
        name_bytes.push(input[p + j]);
        proof {
            assert(input@.subrange(p as int, p + j + 1) =~= input@.subrange(p as int, p + j).push(
                input@[p + j],
            ));
        }
        j = j + 1;
    }
    let file_name = match string_from_utf8(name_bytes) {
        Some(s) => s,
        None => {
            return Err(ArchiveError::InvalidEncoding);
        },
    };
    let symlink_target = if file_flags & 0x08 != 0 {
        Some(file_name.clone())
    } else {
        None
    };
    *pos = p + n;
    Ok(
        FileHeader {
            file_flags,
            unpacked_size,
            file_attributes,
            modification_time,
            file_crc32,
            compression_info,
            file_name,
            symlink_target,
        },
    )
}

} // verus!
