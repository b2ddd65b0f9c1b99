//! The archive stream: consumes the fixed signature once, then yields one
//! decoded block per call, tracking how many data-region bytes the caller
//! left unread so the cursor is always positioned at the next header.

use vstd::prelude::*;
use crate::decoder::{
    read_general_block_header, read_main_archive_header, read_file_header,
    read_end_of_archive_header,
};
use crate::error::ArchiveError;
use crate::format::spec_decode_block;
use crate::structures::{BaseBlock, BlockHeader, BlockHeaderView, FileHeader};

verus! {

/// A sequential reader over one in-memory archive. The caller drives it:
/// each `next` yields one block (or the terminal `None`), and
/// `read_file_data` hands out the data region of the file block that was
/// just yielded.
#[derive(Debug)]
pub struct Archive {
    input: Vec<u8>,
    pos: usize,
    current_block_data_size: u64,
}

/// Ghost image of an archive stream: the whole input, the cursor, and the
/// pending data-region bytes not yet consumed or skipped.
pub struct ArchiveView {
    pub data: Seq<u8>,
    pub pos: int,
    pub pending: u64,
}

impl View for Archive {
    type V = ArchiveView;

    closed spec fn view(&self) -> ArchiveView {
        ArchiveView {
            data: self.input@,
            pos: self.pos as int,
            pending: self.current_block_data_size,
        }
    }
}

impl ArchiveView {
    /// The stream invariant: the cursor stays within the input.
    pub open spec fn wf(&self) -> bool {
        0 <= self.pos <= self.data.len()
    }
}

/// Skipping a pending data region: the cursor moves past it (or to the end
/// of a truncated input) and nothing is left pending.
pub open spec fn spec_skip(v: ArchiveView) -> ArchiveView {
    ArchiveView {
        data: v.data,
        pos: if v.pos + v.pending <= v.data.len() {
            v.pos + v.pending
        } else {
            v.data.len() as int
        },
        pending: 0,
    }
}

/// The stream state after an error: the cursor is parked at the end, so
/// iteration terminates rather than resynchronizing on corrupt input.
pub open spec fn spec_poisoned(v: ArchiveView) -> ArchiveView {
    ArchiveView { data: v.data, pos: v.data.len() as int, pending: 0 }
}

/// One advance of the stream: skip whatever data region is still pending;
/// end the stream if the input stops exactly here; otherwise parse a general
/// header, remember its declared data size as the next pending skip, and
/// decode the payload the header's size delimits. Every error, including an
/// end of input in the middle of a header, is an error result, and leaves
/// the stream terminated.
pub open spec fn spec_next(v: ArchiveView) -> (Option<
    Result<BlockHeaderView, ArchiveError>,
>, ArchiveView) {
    let v1 = spec_skip(v);
    if v1.pos == v1.data.len() {
        (None, v1)
    } else {
        match crate::format::spec_read_general_header(v1.data, v1.pos) {
            Err(e) => (Some(Err(e)), spec_poisoned(v1)),
            Ok((gh, p)) => {
                let payload_end = if p + gh.header_size <= v1.data.len() {
                    p + gh.header_size
                } else {
                    v1.data.len() as int
                };
                match spec_decode_block(gh, v1.data.subrange(p, payload_end)) {
                    Err(e) => (Some(Err(e)), spec_poisoned(v1)),
                    Ok(b) => (
                        Some(Ok(b)),
                        ArchiveView {
                            data: v1.data,
                            pos: payload_end,
                            pending: match gh.data_size {
                                Some(ds) => ds,
                                None => 0,
                            },
                        },
                    ),
                }
            },
        }
    }
}

/// When the stream stands before the wire form of a well-formed block —
/// with any pending data region in between — one advance skips the pending
/// bytes, yields exactly that block (its header normalized by the encode),
/// and records the block's declared data size as the next pending skip.
pub proof fn lemma_next_yields_block(v: ArchiveView, b: BlockHeaderView)
    requires
        v.wf(),
        crate::format::block_view_wf(b),
        v.pos + v.pending + crate::format::block_view_bytes(b).len() <= v.data.len(),
        v.data.subrange(
            v.pos + v.pending,
            v.pos + v.pending + crate::format::block_view_bytes(b).len(),
        ) == crate::format::block_view_bytes(b),
    ensures
        ({
            let start = v.pos + v.pending;
            let (r, v2) = spec_next(v);
            &&& r == Some(Ok::<BlockHeaderView, ArchiveError>(
                crate::format::block_view_normalized(b),
            ))
            &&& v2.data == v.data
            &&& v2.pos == start + crate::format::block_view_bytes(b).len()
            &&& v2.pending == (match crate::format::block_view_base(b).general_header.data_size {
                Some(ds) => ds,
                None => 0u64,
            })
        }),
{
    let start = v.pos + v.pending;
    let bb = crate::format::block_view_bytes(b);
    let v1 = spec_skip(v);
    assert(v1.pos == start);
    assert(v1.pos < v.data.len());
    crate::format::lemma_block_round_trip(v.data, start, b);
    let egh = crate::format::encoded_general_header(b);
    let hlen = egh.header_bytes().len() as int;
    let plen = crate::format::block_view_payload(b).len() as int;
    assert(start + hlen + egh.header_size == start + bb.len());
}

/// Once every remaining byte belongs to a pending data region — in
/// particular when the input ends exactly at a block boundary — the next
/// advance terminates the stream normally instead of failing.
pub proof fn lemma_next_terminates_at_end(v: ArchiveView)
    requires
        v.wf(),
        v.pos + v.pending >= v.data.len(),
    ensures
        spec_next(v).0 is None,
        spec_next(v).1 == spec_skip(v),
{
}

/// Skip correctness for a whole stream: in an archive holding a main
/// header, then a file block whose data region the caller never reads, then
/// an end-of-archive block, iteration still yields main, file and end in
/// order and then terminates — the unread data region is skipped
/// automatically between the second and third advance.
pub proof fn lemma_stream_skips_unread_data(
    sig: Seq<u8>,
    mb: BlockHeaderView,
    fb: BlockHeaderView,
    data: Seq<u8>,
    eb: BlockHeaderView,
)
    requires
        sig.len() == 8,
        mb is Main,
        fb is File,
        eb is End,
        crate::format::block_view_wf(mb),
        crate::format::block_view_wf(fb),
        crate::format::block_view_wf(eb),
        crate::format::block_view_base(mb).general_header.data_size is None,
        crate::format::block_view_base(eb).general_header.data_size is None,
        crate::format::block_view_base(fb).general_header.data_size == Some(data.len() as u64),
        data.len() <= u64::MAX,
    ensures
        ({
            let input = sig + crate::format::block_view_bytes(mb)
                + crate::format::block_view_bytes(fb) + data
                + crate::format::block_view_bytes(eb);
            let v0 = ArchiveView { data: input, pos: 8, pending: 0 };
            let (r1, v1) = spec_next(v0);
            let (r2, v2) = spec_next(v1);
            let (r3, v3) = spec_next(v2);
            let (r4, _v4) = spec_next(v3);
            &&& r1 == Some(Ok::<BlockHeaderView, ArchiveError>(
                crate::format::block_view_normalized(mb),
            ))
            &&& r2 == Some(Ok::<BlockHeaderView, ArchiveError>(
                crate::format::block_view_normalized(fb),
            ))
            &&& r3 == Some(Ok::<BlockHeaderView, ArchiveError>(
                crate::format::block_view_normalized(eb),
            ))
            &&& r4 is None
        }),
{
    let mbb = crate::format::block_view_bytes(mb);
    let fbb = crate::format::block_view_bytes(fb);
    let ebb = crate::format::block_view_bytes(eb);
    let input = sig + mbb + fbb + data + ebb;
    let o1 = 8 + mbb.len() as int;
    let o2 = o1 + fbb.len();
    let o3 = o2 + data.len();
    let o4 = o3 + ebb.len();
    assert(input.len() == o4);
    let v0 = ArchiveView { data: input, pos: 8, pending: 0 };
    assert(input.subrange(8, o1) =~= mbb);
    assert(input.subrange(o1, o2) =~= fbb);
    assert(input.subrange(o3, o4) =~= ebb);
    lemma_next_yields_block(v0, mb);
    let v1 = spec_next(v0).1;
    assert(v1.pos == o1 && v1.pending == 0);
    lemma_next_yields_block(v1, fb);
    let v2 = spec_next(v1).1;
    assert(v2.pos == o2 && v2.pending == data.len());
    lemma_next_yields_block(v2, eb);
    let v3 = spec_next(v2).1;
    assert(v3.pos == o4 && v3.pending == 0);
    lemma_next_terminates_at_end(v3);
}

/// Copies the bytes of `input[start..end]` into a fresh buffer.
fn copy_range(input: &[u8], start: usize, end: usize) -> (out: Vec<u8>)
    requires
        start <= end <= input@.len(),
    ensures
        out@ == input@.subrange(start as int, end as int),
{
    let mut out: Vec<u8> = Vec::new();
    let mut j: usize = start;
    while j < end
        invariant
            start <= j <= end <= input@.len(),
            out@ == input@.subrange(start as int, j as int),
        decreases end - j,
    {
        out.push(input[j]);
        proof {
            assert(input@.subrange(start as int, j + 1) =~= input@.subrange(
                start as int,
                j as int,
            ).push(input@[j as int]));
        }
        j = j + 1;
    }
    out
}

impl Archive {
    /// Opens a stream over `input`: consumes the 8-byte signature (checked
    /// for presence only, not for its byte pattern) and positions the cursor
    /// at the first block. Fails exactly when fewer than 8 bytes exist.
    pub fn new(input: Vec<u8>) -> (r: Result<Archive, ArchiveError>)
        ensures
            (match r {
                Ok(a) => {
                    &&& input@.len() >= 8
                    &&& a@.data == input@
                    &&& a@.pos == 8
                    &&& a@.pending == 0
                    &&& a@.wf()
                },
                Err(e) => e == ArchiveError::UnexpectedEndOfInput && input@.len() < 8,
            }),
    {
        if input.len() < 8 {
            return Err(ArchiveError::UnexpectedEndOfInput);
        }
        Ok(Archive { input, pos: 8, current_block_data_size: 0 })
    }

    /// Skips whatever data region the caller never read, so the cursor
    /// stands at the next general header.
    fn advance_reader(&mut self)
        requires
            old(self)@.wf(),
        ensures
            final(self)@ == spec_skip(old(self)@),
            final(self)@.wf(),
    {
        if self.current_block_data_size > 0 {
            let remaining = self.input.len() - self.pos;
            if self.current_block_data_size <= remaining as u64 {
                self.pos = self.pos + self.current_block_data_size as usize;
            } else {
                self.pos = self.input.len();
            }
            self.current_block_data_size = 0;
        }
    }

    /// Yields the next block of the stream, or `None` once the input ends
    /// exactly at a block boundary. Any malformed header or payload — an
    /// unknown type tag, a vint over its bound, input ending mid-field, a
    /// name that is not UTF-8 — comes back as `Some(Err(..))` and terminates
    /// the iteration.
    pub fn next(&mut self) -> (r: Option<Result<BlockHeader, ArchiveError>>)
        requires
            old(self)@.wf(),
        ensures
            final(self)@.wf(),
            final(self)@.data == old(self)@.data,
            final(self)@ == spec_next(old(self)@).1,
            (match (r, spec_next(old(self)@).0) {
                (None, None) => true,
                (Some(Ok(b)), Some(Ok(bv))) => b@ == bv,
                (Some(Err(e)), Some(Err(ev))) => e == ev,
                _ => false,
            }),
    {
        self.advance_reader();
        if self.pos == self.input.len() {
            return None;
        }
        let mut p = self.pos;
        let gh = match read_general_block_header(self.input.as_slice(), &mut p) {
            Ok(gh) => gh,
            Err(e) => {
                self.pos = self.input.len();
                self.current_block_data_size = 0;
                return Some(Err(e));
            },
        };
        let remaining = self.input.len() - p;
        let payload_end = if gh.header_size <= remaining as u64 {
            p + gh.header_size as usize
        } else {
            self.input.len()
        };
        let payload = copy_range(self.input.as_slice(), p, payload_end);
        let mut ppos: usize = 0;
        let decoded: Result<BlockHeader, ArchiveError> = if gh.header_type == 1 {
            match read_main_archive_header(payload.as_slice(), &mut ppos) {
                Ok(h) => Ok(BlockHeader::Main(BaseBlock { general_header: gh }, h)),
                Err(e) => Err(e),
            }
        } else if gh.header_type == 2 {
            match read_file_header(payload.as_slice(), &mut ppos) {
                Ok(h) => Ok(BlockHeader::File(BaseBlock { general_header: gh }, h)),
                Err(e) => Err(e),
            }
        } else if gh.header_type == 5 {
            match read_end_of_archive_header(payload.as_slice(), &mut ppos) {
                Ok(h) => Ok(BlockHeader::End(BaseBlock { general_header: gh }, h)),
                Err(e) => Err(e),
            }
        } else {
            Err(ArchiveError::UnknownBlockType)
        };
        match decoded {
            Ok(block) => {
                self.pos = payload_end;
                self.current_block_data_size = match gh.data_size {
                    Some(ds) => ds,
                    None => 0,
                };
                Some(Ok(block))
            },
            Err(e) => {
                self.pos = self.input.len();
                self.current_block_data_size = 0;
                Some(Err(e))
            },
        }
    }

    /// Reads the data region declared by the file block that was just
    /// yielded: exactly `data_size` bytes, which are then run through the
    /// compression boundary keyed by the file's compression info (the
    /// identity transform in this build). Consuming the bytes clears the
    /// pending skip, so the next advance starts right after them. A block
    /// with no declared data region, or a call made after the stream has
    /// already advanced past (or consumed) the region, yields an empty
    /// buffer rather than an error.
    pub fn read_file_data(&mut self, base: &BaseBlock, file_header: &FileHeader) -> (r: Result<
        Vec<u8>,
        ArchiveError,
    >)
        requires
            old(self)@.wf(),
        ensures
            final(self)@.wf(),
            final(self)@.data == old(self)@.data,
            (match base.general_header.data_size {
                None => {
                    &&& r matches Ok(d) && d@ == Seq::<u8>::empty()
                    &&& final(self)@ == old(self)@
                },
                Some(n) => {
                    if old(self)@.pending == 0 {
                        &&& r matches Ok(d) && d@ == Seq::<u8>::empty()
                        &&& final(self)@ == old(self)@
                    } else if n <= old(self)@.data.len() - old(self)@.pos {
                        &&& r matches Ok(d) && d@ == old(self)@.data.subrange(
                            old(self)@.pos,
                            old(self)@.pos + n,
                        )
                        &&& final(self)@.pos == old(self)@.pos + n
                        &&& final(self)@.pending == 0
                    } else {
                        &&& r == Err::<Vec<u8>, ArchiveError>(ArchiveError::UnexpectedEndOfInput)
                        &&& final(self)@ == old(self)@
                    }
                },
            }),
    {
        match base.general_header.data_size {
            None => Ok(Vec::new()),
            Some(n) => {
                if self.current_block_data_size == 0 {
                    // the region was already consumed or skipped
                    return Ok(Vec::new());
                }
                let remaining = self.input.len() - self.pos;
                if n > remaining as u64 {
                    return Err(ArchiveError::UnexpectedEndOfInput);
                }
                let len = n as usize;
                let compressed = copy_range(self.input.as_slice(), self.pos, self.pos + len);
                self.pos = self.pos + len;
                self.current_block_data_size = 0;
                match file_header.decompress(compressed.as_slice()) {
                    Ok(d) => Ok(d),
                    Err(_) => Err(ArchiveError::UnexpectedEndOfInput),
                }
            },
        }
    }
}

} // verus!
