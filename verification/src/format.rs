//! Mathematical model of the wire format.
//!
//! Everything here is ghost: spec functions that say what a byte sequence
//! means, and lemmas relating the canonical encodings to the parsers. The
//! executable decoder and encoder are specified against these definitions.

use vstd::prelude::*;
use crate::error::ArchiveError;
use crate::structures::{
    BaseBlock, BlockHeaderView, EndOfArchiveHeader, FileHeaderView, GeneralBlockHeader,
    MainArchiveHeader,
};

verus! {

use vstd::arithmetic::power2::{pow2, lemma_pow2_adds, lemma2_to64};
use vstd::bytes::spec_u32_from_le_bytes;
use vstd::utf8::{decode_utf8, valid_utf8};

/// A vint (variable-length integer) stores 7 payload bits per byte, low-order
/// group first; the high bit of a byte says that more bytes follow.
pub open spec fn has_continuation(b: u8) -> bool {
    b >= 0x80
}

/// The decoder gives up once a vint has run for this many bytes without its
/// continuation bit clearing: 10 bytes carry 70 payload bits, which already
/// exceeds the 64-bit range.
pub open spec fn vint_max_len() -> int {
    10
}

/// The canonical encoding of `v`: 7 bits at a time, low-order first, with the
/// continuation bit set on every byte but the last. Zero encodes to one zero
/// byte.
pub open spec fn vint_encoding(v: u64) -> Seq<u8>
    decreases v,
{
    if v < 0x80 {
        seq![v as u8]
    } else {
        seq![((v % 0x80) + 0x80) as u8] + vint_encoding(v / 0x80)
    }
}

/// The unbounded value denoted by a run of vint bytes (continuation bits are
/// ignored; only the low 7 bits of each byte count).
pub open spec fn vint_value(run: Seq<u8>) -> int
    decreases run.len(),
{
    if run.len() == 0 {
        0
    } else {
        (run[0] % 0x80) as int + 0x80 * vint_value(run.drop_first())
    }
}

/// Where the vint run that starts at `pos` ends (exclusive), scanning at most
/// `fuel` further bytes: the first byte without its continuation bit is the
/// last byte of the run.
pub open spec fn vint_run_end(s: Seq<u8>, pos: int, fuel: nat) -> Result<int, ArchiveError>
    decreases fuel,
{
    if fuel == 0 {
        Err(ArchiveError::MalformedVint)
    } else if pos >= s.len() {
        Err(ArchiveError::UnexpectedEndOfInput)
    } else if !has_continuation(s[pos]) {
        Ok(pos + 1)
    } else {
        vint_run_end(s, pos + 1, (fuel - 1) as nat)
    }
}

/// What reading a vint at `pos` yields: the decoded value (truncated to 64
/// bits, as the accumulator is a `u64`) and the position just past the run.
pub open spec fn spec_read_vint(s: Seq<u8>, pos: int) -> Result<(u64, int), ArchiveError> {
    match vint_run_end(s, pos, vint_max_len() as nat) {
        Ok(end) => Ok(
            ((vint_value(s.subrange(pos, end)) % 0x1_0000_0000_0000_0000) as u64, end),
        ),
        Err(e) => Err(e),
    }
}

/// A vint run is worth less than 128^len.
pub proof fn lemma_vint_value_bound(run: Seq<u8>)
    ensures
        0 <= vint_value(run) < pow2(7 * run.len()),
    decreases run.len(),
{
    if run.len() == 0 {
        lemma2_to64();
    } else {
        lemma_vint_value_bound(run.drop_first());
        lemma_pow2_adds(7, 7 * (run.len() - 1) as nat);
        lemma2_to64();
    }
}

/// Appending one byte to a run adds its 7 payload bits at the top.
pub proof fn lemma_vint_value_push(run: Seq<u8>, b: u8)
    ensures
        vint_value(run.push(b)) == vint_value(run) + (b % 0x80) as int * pow2(7 * run.len()),
    decreases run.len(),
{
    if run.len() == 0 {
        assert(run.push(b) =~= seq![b]);
        assert(seq![b].drop_first() =~= Seq::<u8>::empty());
        assert(vint_value(Seq::<u8>::empty()) == 0);
        lemma2_to64();
        assert(pow2(0) == 1);
        assert(vint_value(run) == 0);
        assert(vint_value(run.push(b)) == (b % 0x80) as int);
        assert(7 * run.len() == 0);
        assert(pow2(7 * run.len()) == 1);
        assert((b % 0x80) as int * pow2(7 * run.len()) == (b % 0x80) as int) by {
            let y = (b % 0x80) as int;
            let p = pow2(7 * run.len()) as int;
            assert(p == 1);
            assert(y * p == y) by (nonlinear_arith)
                requires
                    p == 1,
            ;
        }
        assert(vint_value(run.push(b)) == vint_value(run) + (b % 0x80) as int * pow2(
            7 * run.len(),
        ));
    } else {
        let d = run.drop_first();
        let e = 7 * (run.len() - 1) as nat;
        assert(run.push(b).drop_first() =~= d.push(b));
        lemma_vint_value_push(d, b);
        lemma_pow2_adds(7, e);
        lemma2_to64();
        assert(pow2(7) == 0x80);
        assert(pow2(7 * run.len()) == 0x80 * pow2(e));
        assert(vint_value(run.push(b)) == (run[0] % 0x80) as int + 0x80 * vint_value(d.push(b)));
        assert(vint_value(d.push(b)) == vint_value(d) + (b % 0x80) as int * pow2(e));
        let x = vint_value(d);
        let y = (b % 0x80) as int;
        let p = pow2(e) as int;
        assert(0x80 * (x + y * p) == 0x80 * x + y * (0x80 * p)) by (nonlinear_arith);
        assert(vint_value(run.push(b)) == (run[0] % 0x80) as int + 0x80 * x + y * (0x80 * p));
        assert(vint_value(run) == (run[0] % 0x80) as int + 0x80 * x);
        assert(y * (0x80 * p) == y * (pow2(7 * run.len()) as int)) by {
            assert(0x80 * p == pow2(7 * run.len()) as int);
        }
        assert(vint_value(run.push(b)) == vint_value(run) + y * (pow2(7 * run.len()) as int));
        assert(vint_value(run.push(b)) == vint_value(run) + (b % 0x80) as int * pow2(
            7 * run.len(),
        ));
    }
}

/// The canonical encoding is a well-formed vint run: one to ten bytes, every
/// byte but the last carrying the continuation bit, the last byte without it,
/// and it denotes exactly the encoded value.
pub proof fn lemma_vint_encoding_wf(v: u64)
    ensures
        1 <= vint_encoding(v).len() <= vint_max_len(),
        forall|i: int|
            0 <= i < vint_encoding(v).len() - 1 ==> has_continuation(#[trigger] vint_encoding(v)[i]),
        !has_continuation(vint_encoding(v)[vint_encoding(v).len() - 1]),
        vint_value(vint_encoding(v)) == v,
    decreases v,
{
    if v < 0x80 {
        assert(vint_encoding(v) =~= seq![v as u8]);
        assert(vint_value(seq![v as u8]) == (v as u8 % 0x80) as int + 0x80 * vint_value(
            seq![v as u8].drop_first(),
        ));
        assert(seq![v as u8].drop_first() =~= Seq::<u8>::empty());
        assert(vint_value(Seq::<u8>::empty()) == 0);
    } else {
        let first = ((v % 0x80) + 0x80) as u8;
        let rest = vint_encoding(v / 0x80);
        lemma_vint_encoding_wf(v / 0x80);
        assert(vint_encoding(v) =~= seq![first] + rest);
        assert(has_continuation(first));
        lemma_vint_encoding_len_bound(v);
        assert((seq![first] + rest).drop_first() =~= rest);
        assert(vint_value(vint_encoding(v)) == (first % 0x80) as int + 0x80 * vint_value(rest));
        assert((first % 0x80) as int == v % 0x80);
        assert(v % 0x80 + 0x80 * (v / 0x80) as int == v) by {
            vstd::arithmetic::div_mod::lemma_fundamental_div_mod(v as int, 0x80);
        }
    }
}

/// An encoding needs one byte for each seven significant bits: values below
/// 128^n encode in at most n bytes.
proof fn lemma_vint_encoding_len_bound(v: u64)
    ensures
        v < pow2((7 * vint_encoding(v).len()) as nat),
        vint_encoding(v).len() <= vint_max_len(),
    decreases v,
{
    lemma2_to64();
    if v < 0x80 {
        assert(vint_encoding(v).len() == 1);
        assert(pow2(7) == 0x80);
    } else {
        let n = vint_encoding(v / 0x80).len();
        lemma_vint_encoding_len_bound(v / 0x80);
        assert(vint_encoding(v).len() == n + 1);
        lemma_pow2_adds(7, (7 * n) as nat);
        // from v / 0x80 < pow2(7n) conclude v < pow2(7n + 7)
        assert(v < 0x80 * pow2((7 * n) as nat)) by {
            let q = (v / 0x80) as int;
            let p = pow2((7 * n) as nat) as int;
            assert(q < p);
            assert(v < 0x80 * (q + 1)) by {
                vstd::arithmetic::div_mod::lemma_fundamental_div_mod(v as int, 0x80);
            }
            assert(0x80 * (q + 1) <= 0x80 * p) by (nonlinear_arith)
                requires
                    q + 1 <= p,
            ;
        }
        // the length bound: a u64 never needs more than ten bytes
        if n + 1 > 10 {
            assert(n == 10);
            assert(false) by {
                lemma_vint_encoding_min_value(v / 0x80);
                // v / 0x80 would then be at least 2^63, making v exceed u64
                let q = (v / 0x80) as int;
                assert(q >= pow2(63));
                assert(v >= 0x80 * q) by {
                    vstd::arithmetic::div_mod::lemma_fundamental_div_mod(v as int, 0x80);
                }
                assert(0x80 * q >= 0x80 * pow2(63)) by (nonlinear_arith)
                    requires
                        q >= pow2(63) as int,
                ;
                lemma_pow2_adds(7, 63);
                vstd::arithmetic::power2::lemma_pow2_strictly_increases(64, 70);
                assert(pow2(64) == 0x1_0000_0000_0000_0000) by {
                    lemma_pow2_adds(63, 1);
                }
            }
        }
    }
}

/// The scan stops exactly at the end of a well-formed run: if the bytes from
/// `pos` up to `pos + n` look like a run (all but the last with the
/// continuation bit), the scan reports `pos + n`.
pub proof fn lemma_vint_run_end_finds(s: Seq<u8>, pos: int, fuel: nat, n: int)
    requires
        1 <= n <= fuel,
        0 <= pos,
        pos + n <= s.len(),
        forall|i: int| pos <= i < pos + n - 1 ==> has_continuation(#[trigger] s[i]),
        !has_continuation(s[pos + n - 1]),
    ensures
        vint_run_end(s, pos, fuel) == Ok::<int, ArchiveError>(pos + n),
    decreases n,
{
    if n == 1 {
    } else {
        assert(has_continuation(s[pos]));
        lemma_vint_run_end_finds(s, pos + 1, (fuel - 1) as nat, n - 1);
    }
}

/// If every byte within the scan budget carries the continuation bit, the
/// scan gives up with `MalformedVint`.
pub proof fn lemma_vint_run_all_continuation(s: Seq<u8>, pos: int, fuel: nat)
    requires
        0 <= pos,
        pos + fuel <= s.len(),
        forall|i: int| pos <= i < pos + fuel ==> has_continuation(#[trigger] s[i]),
    ensures
        vint_run_end(s, pos, fuel) == Err::<int, ArchiveError>(ArchiveError::MalformedVint),
    decreases fuel,
{
    if fuel > 0 {
        lemma_vint_run_all_continuation(s, pos + 1, (fuel - 1) as nat);
    }
}

/// If the input ends while every remaining byte still carries the
/// continuation bit, and the scan budget is not yet exhausted, the scan
/// fails with `UnexpectedEndOfInput`.
pub proof fn lemma_vint_run_hits_end(s: Seq<u8>, pos: int, fuel: nat)
    requires
        0 <= pos <= s.len(),
        s.len() - pos < fuel,
        forall|i: int| pos <= i < s.len() ==> has_continuation(#[trigger] s[i]),
    ensures
        vint_run_end(s, pos, fuel) == Err::<int, ArchiveError>(
            ArchiveError::UnexpectedEndOfInput,
        ),
    decreases fuel,
{
    if pos < s.len() {
        lemma_vint_run_hits_end(s, pos + 1, (fuel - 1) as nat);
    }
}

/// Reading a vint where the canonical encoding of `v` was laid down yields
/// `v` back and stops just past the encoding, whatever bytes surround it.
pub proof fn lemma_vint_round_trip(s: Seq<u8>, pos: int, v: u64)
    requires
        0 <= pos,
        pos + vint_encoding(v).len() <= s.len(),
        s.subrange(pos, pos + vint_encoding(v).len()) == vint_encoding(v),
    ensures
        spec_read_vint(s, pos) == Ok::<(u64, int), ArchiveError>(
            (v, pos + vint_encoding(v).len()),
        ),
{
    let enc = vint_encoding(v);
    let n = enc.len() as int;
    lemma_vint_encoding_wf(v);
    assert(forall|i: int| pos <= i < pos + n ==> #[trigger] s[i] == enc[i - pos]);
    lemma_vint_run_end_finds(s, pos, vint_max_len() as nat, n);
    assert(vint_value(s.subrange(pos, pos + n)) == v);
    assert(v < 0x1_0000_0000_0000_0000);
    assert(vint_value(enc) % 0x1_0000_0000_0000_0000 == v);
}

/// A positive value whose encoding takes n bytes is at least 128^(n-1).
proof fn lemma_vint_encoding_min_value(v: u64)
    requires
        v >= 1,
    ensures
        v >= pow2((7 * (vint_encoding(v).len() - 1)) as nat),
    decreases v,
{
    lemma2_to64();
    if v < 0x80 {
        assert(pow2(0) == 1);
        assert(vint_encoding(v).len() == 1);
    } else {
        let n = vint_encoding(v / 0x80).len();
        lemma_vint_encoding_min_value(v / 0x80);
        assert(vint_encoding(v).len() == n + 1);
        lemma_pow2_adds(7, (7 * (n - 1)) as nat);
        assert(v >= 0x80 * (v / 0x80)) by {
            vstd::arithmetic::div_mod::lemma_fundamental_div_mod(v as int, 0x80);
        }
        let q = (v / 0x80) as int;
        let p = pow2((7 * (n - 1)) as nat) as int;
        assert(0x80 * q >= 0x80 * p) by (nonlinear_arith)
            requires
                q >= p,
        ;
    }
}

/// Vint round trip: decoding the encoding of any 64-bit value — zero and
/// `u64::MAX` included — yields that value back and consumes exactly the
/// encoding.
pub proof fn lemma_vint_codec_round_trip(v: u64)
    ensures
        spec_read_vint(vint_encoding(v), 0) == Ok::<(u64, int), ArchiveError>(
            (v, vint_encoding(v).len() as int),
        ),
{
    assert(vint_encoding(v).subrange(0, vint_encoding(v).len() as int) =~= vint_encoding(v));
    lemma_vint_round_trip(vint_encoding(v), 0, v);
}

/// Zero's canonical encoding is the single zero byte.
pub proof fn lemma_vint_encoding_zero()
    ensures
        vint_encoding(0) =~= seq![0u8],
{
}

/// A run of ten continuation bytes (whatever follows them) is rejected as
/// `MalformedVint`: reading gives up before an eleventh byte is touched.
pub proof fn lemma_vint_rejects_long_runs(s: Seq<u8>, pos: int)
    requires
        0 <= pos,
        pos + vint_max_len() <= s.len(),
        forall|i: int| pos <= i < pos + vint_max_len() ==> has_continuation(#[trigger] s[i]),
    ensures
        spec_read_vint(s, pos) == Err::<(u64, int), ArchiveError>(ArchiveError::MalformedVint),
{
    lemma_vint_run_all_continuation(s, pos, vint_max_len() as nat);
}

/// What reading a 4-byte little-endian word at `pos` yields.
pub open spec fn spec_read_u32_le(s: Seq<u8>, pos: int) -> Result<(u32, int), ArchiveError> {
    if pos + 4 <= s.len() {
        Ok((spec_u32_from_le_bytes(s.subrange(pos, pos + 4)), pos + 4))
    } else {
        Err(ArchiveError::UnexpectedEndOfInput)
    }
}

/// What parsing a general block header at `pos` yields: the checksum word,
/// then the header size, type and flags vints, then the data size vint
/// exactly when flag bit 0 is set.
pub open spec fn spec_read_general_header(s: Seq<u8>, pos: int) -> Result<
    (GeneralBlockHeader, int),
    ArchiveError,
> {
    match spec_read_u32_le(s, pos) {
        Err(e) => Err(e),
        Ok((crc32, p)) => match spec_read_vint(s, p) {
            Err(e) => Err(e),
            Ok((header_size, p)) => match spec_read_vint(s, p) {
                Err(e) => Err(e),
                Ok((header_type, p)) => match spec_read_vint(s, p) {
                    Err(e) => Err(e),
                    Ok((header_flags, p)) => if header_flags & 1 == 1 {
                        match spec_read_vint(s, p) {
                            Err(e) => Err(e),
                            Ok((data_size, p)) => Ok(
                                (
                                    GeneralBlockHeader {
                                        crc32,
                                        header_size,
                                        header_type,
                                        header_flags,
                                        data_size: Some(data_size),
                                    },
                                    p,
                                ),
                            ),
                        }
                    } else {
                        Ok(
                            (
                                GeneralBlockHeader {
                                    crc32,
                                    header_size,
                                    header_type,
                                    header_flags,
                                    data_size: None,
                                },
                                p,
                            ),
                        )
                    },
                },
            },
        },
    }
}

/// What parsing a main archive header payload at `pos` yields: the archive
/// flags vint, then the volume number vint exactly when flag bit 0 is set.
pub open spec fn spec_read_main_header(s: Seq<u8>, pos: int) -> Result<
    (MainArchiveHeader, int),
    ArchiveError,
> {
    match spec_read_vint(s, pos) {
        Err(e) => Err(e),
        Ok((archive_flags, p)) => if archive_flags & 1 == 1 {
            match spec_read_vint(s, p) {
                Err(e) => Err(e),
                Ok((volume_number, p)) => Ok(
                    (MainArchiveHeader { archive_flags, volume_number: Some(volume_number) }, p),
                ),
            }
        } else {
            Ok((MainArchiveHeader { archive_flags, volume_number: None }, p))
        },
    }
}

/// What parsing an end-of-archive payload at `pos` yields: one vint.
pub open spec fn spec_read_end_header(s: Seq<u8>, pos: int) -> Result<
    (EndOfArchiveHeader, int),
    ArchiveError,
> {
    match spec_read_vint(s, pos) {
        Err(e) => Err(e),
        Ok((end_archive_flags, p)) => Ok((EndOfArchiveHeader { end_archive_flags }, p)),
    }
}

/// What parsing a file header payload at `pos` yields. The field order is
/// fixed: flags, unpacked size, attributes, then the optional timestamp and
/// checksum words that the flags announce, compression info, name length and
/// name bytes. The name must be valid UTF-8; when the symlink flag (bit 3)
/// is set, the target is taken from those same name bytes, not read from the
/// input again.
pub open spec fn spec_read_file_header(s: Seq<u8>, pos: int) -> Result<
    (FileHeaderView, int),
    ArchiveError,
> {
    match spec_read_vint(s, pos) {
        Err(e) => Err(e),
        Ok((file_flags, p)) => match spec_read_vint(s, p) {
            Err(e) => Err(e),
            Ok((unpacked_size, p)) => match spec_read_vint(s, p) {
                Err(e) => Err(e),
                Ok((file_attributes, p)) => match (if file_flags & 0x02 != 0 {
                    match spec_read_u32_le(s, p) {
                        Err(e) => Err(e),
                        Ok((t, p)) => Ok((Some(t), p)),
                    }
                } else {
                    Ok((None, p))
                }) {
                    Err(e) => Err(e),
                    Ok((modification_time, p)) => match (if file_flags & 0x04 != 0 {
                        match spec_read_u32_le(s, p) {
                            Err(e) => Err(e),
                            Ok((c, p)) => Ok((Some(c), p)),
                        }
                    } else {
                        Ok((None, p))
                    }) {
                        Err(e) => Err(e),
                        Ok((file_crc32, p)) => match spec_read_vint(s, p) {
                            Err(e) => Err(e),
                            Ok((compression_info, p)) => match spec_read_vint(s, p) {
                                Err(e) => Err(e),
                                Ok((name_len, p)) => if p + name_len <= s.len() {
                                    let name_bytes = s.subrange(p, p + name_len);
                                    if valid_utf8(name_bytes) {
                                        let name = decode_utf8(name_bytes);
                                        Ok(
                                            (
                                                FileHeaderView {
                                                    file_flags,
                                                    unpacked_size,
                                                    file_attributes,
                                                    modification_time,
                                                    file_crc32,
                                                    compression_info,
                                                    file_name: name,
                                                    symlink_target: if file_flags & 0x08 != 0 {
                                                        Some(name)
                                                    } else {
                                                        None
                                                    },
                                                },
                                                p + name_len,
                                            ),
                                        )
                                    } else {
                                        Err(ArchiveError::InvalidEncoding)
                                    }
                                } else {
                                    Err(ArchiveError::UnexpectedEndOfInput)
                                },
                            },
                        },
                    },
                },
            },
        },
    }
}

/// What decoding the payload of a block with general header `gh` yields,
/// given exactly the payload bytes the header's size bounds. The header's
/// type tag selects the variant; any tag other than 1, 2 or 5 is an error,
/// never a silently skipped block. Payload bytes past what the variant's
/// fields consume are discarded by the size bound.
pub open spec fn spec_decode_block(gh: GeneralBlockHeader, payload: Seq<u8>) -> Result<
    BlockHeaderView,
    ArchiveError,
> {
    let base = BaseBlock { general_header: gh };
    if gh.header_type == 1 {
        match spec_read_main_header(payload, 0) {
            Err(e) => Err(e),
            Ok((h, _p)) => Ok(BlockHeaderView::Main(base, h)),
        }
    } else if gh.header_type == 2 {
        match spec_read_file_header(payload, 0) {
            Err(e) => Err(e),
            Ok((h, _p)) => Ok(BlockHeaderView::File(base, h)),
        }
    } else if gh.header_type == 5 {
        match spec_read_end_header(payload, 0) {
            Err(e) => Err(e),
            Ok((h, _p)) => Ok(BlockHeaderView::End(base, h)),
        }
    } else {
        Err(ArchiveError::UnknownBlockType)
    }
}

/// Parsing the wire form of a well-formed general header gives its fields
/// back, with the checksum field holding the recomputed checksum, and stops
/// just past the header, whatever bytes surround it.
pub proof fn lemma_general_header_round_trip(s: Seq<u8>, pos: int, h: GeneralBlockHeader)
    requires
        h.wf(),
        0 <= pos,
        pos + h.header_bytes().len() <= s.len(),
        s.subrange(pos, pos + h.header_bytes().len()) == h.header_bytes(),
    ensures
        spec_read_general_header(s, pos) == Ok::<(GeneralBlockHeader, int), ArchiveError>(
            (
                GeneralBlockHeader {
                    crc32: crate::crc32::crc32_of(h.fields_bytes()),
                    header_size: h.header_size,
                    header_type: h.header_type,
                    header_flags: h.header_flags,
                    data_size: h.data_size,
                },
                pos + h.header_bytes().len(),
            ),
        ),
{
    let crc = crate::crc32::crc32_of(h.fields_bytes());
    let c = vstd::bytes::spec_u32_to_le_bytes(crc);
    let f1 = vint_encoding(h.header_size);
    let f2 = vint_encoding(h.header_type);
    let f3 = vint_encoding(h.header_flags);
    let hb = h.header_bytes();
    vstd::bytes::lemma_auto_spec_u32_to_from_le_bytes();
    let fb = h.fields_bytes();
    let o1 = pos + 4;
    let o2 = o1 + f1.len();
    let o3 = o2 + f2.len();
    let o4 = o3 + f3.len();
    assert(hb =~= c + fb);
    assert forall|j: int| 0 <= j < hb.len() implies s[pos + j] == hb[j] by {
        assert(s.subrange(pos, pos + hb.len())[j] == hb[j]);
    }
    assert(s.subrange(pos, o1) =~= c);
    assert(c.len() == 4);
    assert forall|i: int| 0 <= i < fb.len() implies s.subrange(o1, pos + hb.len())[i] == fb[i] by {
        assert(s.subrange(o1, pos + hb.len())[i] == s[o1 + i]);
        assert(s[pos + (4 + i)] == hb[4 + i]);
        assert(hb[4 + i] == fb[i]);
    }
    assert(s.subrange(o1, pos + hb.len()) =~= fb);
    assert(fb.subrange(0, f1.len() as int) =~= f1);
    assert(fb.subrange(f1.len() as int, (f1.len() + f2.len()) as int) =~= f2);
    assert(fb.subrange(
        (f1.len() + f2.len()) as int,
        (f1.len() + f2.len() + f3.len()) as int,
    ) =~= f3);
    assert(s.subrange(o1, o1 + f1.len()) =~= fb.subrange(0, f1.len() as int));
    assert(s.subrange(o2, o2 + f2.len()) =~= fb.subrange(
        f1.len() as int,
        (f1.len() + f2.len()) as int,
    ));
    assert(s.subrange(o3, o3 + f3.len()) =~= fb.subrange(
        (f1.len() + f2.len()) as int,
        (f1.len() + f2.len() + f3.len()) as int,
    ));
    assert(spec_read_u32_le(s, pos) == Ok::<(u32, int), ArchiveError>((crc, o1)));
    lemma_vint_round_trip(s, o1, h.header_size);
    lemma_vint_round_trip(s, o2, h.header_type);
    lemma_vint_round_trip(s, o3, h.header_flags);
    match h.data_size {
        Some(ds) => {
            let f4 = vint_encoding(ds);
            assert(fb.subrange((f1.len() + f2.len() + f3.len()) as int, fb.len() as int)
                =~= f4);
            assert(s.subrange(o4, o4 + f4.len()) =~= fb.subrange(
                (f1.len() + f2.len() + f3.len()) as int,
                fb.len() as int,
            ));
            lemma_vint_round_trip(s, o4, ds);
        },
        None => {},
    }
}

/// Parsing the encoded payload of a well-formed main archive header gives
/// the same fields back.
pub proof fn lemma_main_payload_round_trip(p: Seq<u8>, m: MainArchiveHeader)
    requires
        m.wf(),
        p == m.payload_bytes(),
    ensures
        spec_read_main_header(p, 0) == Ok::<(MainArchiveHeader, int), ArchiveError>(
            (m, p.len() as int),
        ),
{
    let f1 = vint_encoding(m.archive_flags);
    assert(p.subrange(0, f1.len() as int) =~= f1);
    lemma_vint_round_trip(p, 0, m.archive_flags);
    match m.volume_number {
        Some(v) => {
            let f2 = vint_encoding(v);
            assert(p.subrange(f1.len() as int, p.len() as int) =~= f2);
            lemma_vint_round_trip(p, f1.len() as int, v);
        },
        None => {},
    }
}

/// Parsing the encoded payload of an end-of-archive header gives the same
/// fields back.
pub proof fn lemma_end_payload_round_trip(p: Seq<u8>, e: EndOfArchiveHeader)
    requires
        p == e.payload_bytes(),
    ensures
        spec_read_end_header(p, 0) == Ok::<(EndOfArchiveHeader, int), ArchiveError>(
            (e, p.len() as int),
        ),
{
    assert(p.subrange(0, p.len() as int) =~= p);
    lemma_vint_round_trip(p, 0, e.end_archive_flags);
}

/// Parsing the encoded payload of a well-formed file header gives the same
/// fields back. The parse stops after the name bytes; the symlink target
/// bytes appended behind them (the same bytes again, by well-formedness)
/// are left for the header's size bound to discard.
/// Where each field of an encoded file header payload sits: the payload
/// splits at the offsets the field widths dictate.
#[verifier::rlimit(100)]
proof fn lemma_file_payload_pieces(p: Seq<u8>, f: FileHeaderView)
    requires
        p == f.payload_bytes(),
    ensures
        ({
            let f1 = vint_encoding(f.file_flags);
            let f2 = vint_encoding(f.unpacked_size);
            let f3 = vint_encoding(f.file_attributes);
            let mt = match f.modification_time {
                Some(t) => vstd::bytes::spec_u32_to_le_bytes(t),
                None => Seq::<u8>::empty(),
            };
            let fc = match f.file_crc32 {
                Some(c) => vstd::bytes::spec_u32_to_le_bytes(c),
                None => Seq::<u8>::empty(),
            };
            let f6 = vint_encoding(f.compression_info);
            let nb = f.name_bytes();
            let f7 = vint_encoding(nb.len() as u64);
            let o1 = f1.len() as int;
            let o2 = o1 + f2.len();
            let o3 = o2 + f3.len();
            let o4 = o3 + mt.len();
            let o5 = o4 + fc.len();
            let o6 = o5 + f6.len();
            let o7 = o6 + f7.len();
            let o8 = o7 + nb.len();
            &&& o8 <= p.len()
            &&& p.subrange(0, o1) == f1
            &&& p.subrange(o1, o2) == f2
            &&& p.subrange(o2, o3) == f3
            &&& p.subrange(o3, o4) == mt
            &&& p.subrange(o4, o5) == fc
            &&& p.subrange(o5, o6) == f6
            &&& p.subrange(o6, o7) == f7
            &&& p.subrange(o7, o8) == nb
        }),
{
    let f1 = vint_encoding(f.file_flags);
    let f2 = vint_encoding(f.unpacked_size);
    let f3 = vint_encoding(f.file_attributes);
    let mt = match f.modification_time {
        Some(t) => vstd::bytes::spec_u32_to_le_bytes(t),
        None => Seq::<u8>::empty(),
    };
    let fc = match f.file_crc32 {
        Some(c) => vstd::bytes::spec_u32_to_le_bytes(c),
        None => Seq::<u8>::empty(),
    };
    let f6 = vint_encoding(f.compression_info);
    let nb = f.name_bytes();
    let f7 = vint_encoding(nb.len() as u64);
    let o1 = f1.len() as int;
    let o2 = o1 + f2.len();
    let o3 = o2 + f3.len();
    let o4 = o3 + mt.len();
    let o5 = o4 + fc.len();
    let o6 = o5 + f6.len();
    let o7 = o6 + f7.len();
    let o8 = o7 + nb.len();
    assert(p.subrange(0, o1) =~= f1);
    assert(p.subrange(o1, o2) =~= f2);
    assert(p.subrange(o2, o3) =~= f3);
    assert(p.subrange(o3, o4) =~= mt);
    assert(p.subrange(o4, o5) =~= fc);
    assert(p.subrange(o5, o6) =~= f6);
    assert(p.subrange(o6, o7) =~= f7);
    assert(p.subrange(o7, o8) =~= nb);
}

#[verifier::rlimit(100)]
pub proof fn lemma_file_payload_round_trip(p: Seq<u8>, f: FileHeaderView)
    requires
        f.wf(),
        f.name_bytes().len() <= u64::MAX,
        p == f.payload_bytes(),
    ensures
        spec_read_file_header(p, 0) matches Ok((g, _)) && g == f,
{
    lemma_file_payload_pieces(p, f);
    let f1 = vint_encoding(f.file_flags);
    let f2 = vint_encoding(f.unpacked_size);
    let f3 = vint_encoding(f.file_attributes);
    let mt = match f.modification_time {
        Some(t) => vstd::bytes::spec_u32_to_le_bytes(t),
        None => Seq::<u8>::empty(),
    };
    let fc = match f.file_crc32 {
        Some(c) => vstd::bytes::spec_u32_to_le_bytes(c),
        None => Seq::<u8>::empty(),
    };
    let f6 = vint_encoding(f.compression_info);
    let nb = f.name_bytes();
    let f7 = vint_encoding(nb.len() as u64);
    vstd::bytes::lemma_auto_spec_u32_to_from_le_bytes();
    let o1 = f1.len() as int;
    let o2 = o1 + f2.len();
    let o3 = o2 + f3.len();
    let o4 = o3 + mt.len();
    let o5 = o4 + fc.len();
    let o6 = o5 + f6.len();
    let o7 = o6 + f7.len();
    let o8 = o7 + nb.len();
    lemma_vint_round_trip(p, 0, f.file_flags);
    lemma_vint_round_trip(p, o1, f.unpacked_size);
    lemma_vint_round_trip(p, o2, f.file_attributes);
    match f.modification_time {
        Some(t) => {
            assert(spec_read_u32_le(p, o3) == Ok::<(u32, int), ArchiveError>((t, o4)));
        },
        None => {},
    }
    match f.file_crc32 {
        Some(c) => {
            assert(spec_read_u32_le(p, o4) == Ok::<(u32, int), ArchiveError>((c, o5)));
        },
        None => {},
    }
    lemma_vint_round_trip(p, o5, f.compression_info);
    lemma_vint_round_trip(p, o6, nb.len() as u64);
    vstd::utf8::encode_utf8_valid_utf8(f.file_name);
    vstd::utf8::encode_utf8_decode_utf8(f.file_name);
    assert(o7 + (nb.len() as u64) <= p.len());
}

/// The type tag a block variant describes itself with on encode.
pub open spec fn block_view_tag(b: BlockHeaderView) -> u64 {
    match b {
        BlockHeaderView::Main(_, _) => 1,
        BlockHeaderView::File(_, _) => 2,
        BlockHeaderView::End(_, _) => 5,
    }
}

/// The stored base of a block variant.
pub open spec fn block_view_base(b: BlockHeaderView) -> BaseBlock {
    match b {
        BlockHeaderView::Main(base, _) => base,
        BlockHeaderView::File(base, _) => base,
        BlockHeaderView::End(base, _) => base,
    }
}

/// The payload bytes of a block variant.
pub open spec fn block_view_payload(b: BlockHeaderView) -> Seq<u8> {
    match b {
        BlockHeaderView::Main(_, h) => h.payload_bytes(),
        BlockHeaderView::File(_, h) => h.payload_bytes(),
        BlockHeaderView::End(_, h) => h.payload_bytes(),
    }
}

/// The general header a block is encoded with: the variant's own type tag,
/// the flags and data size the block carries, and the header size recomputed
/// from the payload that is actually written.
pub open spec fn encoded_general_header(b: BlockHeaderView) -> GeneralBlockHeader {
    GeneralBlockHeader {
        crc32: crate::crc32::crc32_of(
            GeneralBlockHeader {
                crc32: 0,
                header_size: block_view_payload(b).len() as u64,
                header_type: block_view_tag(b),
                header_flags: block_view_base(b).general_header.header_flags,
                data_size: block_view_base(b).general_header.data_size,
            }.fields_bytes(),
        ),
        header_size: block_view_payload(b).len() as u64,
        header_type: block_view_tag(b),
        header_flags: block_view_base(b).general_header.header_flags,
        data_size: block_view_base(b).general_header.data_size,
    }
}

/// The wire form of one block built from its parts: a general header whose
/// size is recomputed from the payload actually written (and whose checksum
/// is recomputed in turn), followed by that payload. The flags and data size
/// are taken over from the block's stored general header; its stored size,
/// type and checksum are not.
pub open spec fn spec_encoded_block_bytes(tag: u64, gh: GeneralBlockHeader, payload: Seq<u8>) -> Seq<
    u8,
> {
    GeneralBlockHeader {
        crc32: 0,
        header_size: payload.len() as u64,
        header_type: tag,
        header_flags: gh.header_flags,
        data_size: gh.data_size,
    }.header_bytes() + payload
}

/// The full wire form of one block: the recomputed general header, then the
/// payload.
pub open spec fn block_view_bytes(b: BlockHeaderView) -> Seq<u8> {
    spec_encoded_block_bytes(
        block_view_tag(b),
        block_view_base(b).general_header,
        block_view_payload(b),
    )
}

/// What a block looks like after one encode/decode cycle: the same variant
/// and payload fields, with the general header replaced by the one encode
/// writes — size and checksum recomputed, the type tag self-described by the
/// variant.
pub open spec fn block_view_normalized(b: BlockHeaderView) -> BlockHeaderView {
    let base = BaseBlock { general_header: encoded_general_header(b) };
    match b {
        BlockHeaderView::Main(_, h) => BlockHeaderView::Main(base, h),
        BlockHeaderView::File(_, h) => BlockHeaderView::File(base, h),
        BlockHeaderView::End(_, h) => BlockHeaderView::End(base, h),
    }
}

/// The field values under which a block survives an encode/decode cycle:
/// its general header and payload obey their invariants, and nothing
/// outgrows the 64-bit sizes the wire format stores.
pub open spec fn block_view_wf(b: BlockHeaderView) -> bool {
    &&& block_view_base(b).general_header.wf()
    &&& (match b {
        BlockHeaderView::Main(_, h) => h.wf(),
        BlockHeaderView::File(_, h) => h.wf() && h.name_bytes().len() <= u64::MAX,
        BlockHeaderView::End(_, _) => true,
    })
    &&& block_view_payload(b).len() <= u64::MAX
}

/// Block round trip: wherever the encoded form of a well-formed block was
/// laid down, parsing the general header gives the header encode wrote, and
/// decoding the payload the header's size delimits gives the block back,
/// its recomputed header attached.
pub proof fn lemma_block_round_trip(s: Seq<u8>, pos: int, b: BlockHeaderView)
    requires
        block_view_wf(b),
        0 <= pos,
        pos + block_view_bytes(b).len() <= s.len(),
        s.subrange(pos, pos + block_view_bytes(b).len()) == block_view_bytes(b),
    ensures
        ({
            let egh = encoded_general_header(b);
            let hlen = egh.header_bytes().len() as int;
            let plen = block_view_payload(b).len() as int;
            &&& egh.header_size == plen
            &&& spec_read_general_header(s, pos) == Ok::<(GeneralBlockHeader, int), ArchiveError>(
                (egh, pos + hlen),
            )
            &&& spec_decode_block(egh, s.subrange(pos + hlen, pos + hlen + plen)) == Ok::<
                BlockHeaderView,
                ArchiveError,
            >(block_view_normalized(b))
            &&& block_view_bytes(b).len() == hlen + plen
        }),
{
    let egh = encoded_general_header(b);
    let payload = block_view_payload(b);
    let gh0 = GeneralBlockHeader {
        crc32: 0,
        header_size: payload.len() as u64,
        header_type: block_view_tag(b),
        header_flags: block_view_base(b).general_header.header_flags,
        data_size: block_view_base(b).general_header.data_size,
    };
    let bb = block_view_bytes(b);
    let hb = gh0.header_bytes();
    let hlen = hb.len() as int;
    assert(gh0.fields_bytes() == egh.fields_bytes());
    assert(egh.header_bytes() == hb);
    assert(bb == hb + payload);
    assert forall|j: int| pos <= j < pos + bb.len() implies s[j] == bb[j - pos] by {
        assert(s.subrange(pos, pos + bb.len())[j - pos] == bb[j - pos]);
    }
    assert(s.subrange(pos, pos + hlen) =~= hb);
    lemma_general_header_round_trip(s, pos, gh0);
    assert(spec_read_general_header(s, pos) == Ok::<(GeneralBlockHeader, int), ArchiveError>(
        (egh, pos + hlen),
    ));
    let pl = s.subrange(pos + hlen, pos + hlen + payload.len());
    assert(pl =~= payload);
    match b {
        BlockHeaderView::Main(_, h) => {
            lemma_main_payload_round_trip(payload, h);
        },
        BlockHeaderView::File(_, h) => {
            lemma_file_payload_round_trip(payload, h);
        },
        BlockHeaderView::End(_, h) => {
            lemma_end_payload_round_trip(payload, h);
        },
    }
}

} // verus!
