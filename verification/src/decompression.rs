//! The compression boundary: a strategy lookup from a compression-method
//! code to a byte transform. The archive core supplies compressed bytes in
//! and expects decompressed bytes out; the only strategy present today is
//! the identity transform.

use vstd::prelude::*;

verus! {

use vstd::slice::slice_to_vec;

/// What the compression boundary can report: a method code this build has
/// no strategy for, or compressed bytes the chosen strategy cannot make
/// sense of.
#[derive(Debug, Clone, Copy, PartialEq, Eq, Structural)]
pub enum DecompressionError {
    UnsupportedMethod,
    CorruptPayload,
}

/// A byte transform from a block's data region to application-visible
/// content. Each implementation states its own behaviour as
/// `transform_spec`, and `decompress` must follow it exactly.
pub trait Decompressor {
    /// What this strategy turns a given byte sequence into.
    spec fn transform_spec(&self, data: Seq<u8>) -> Result<Seq<u8>, DecompressionError>;

    /// Applies the transform.
    fn decompress(&self, data: &[u8]) -> (r: Result<Vec<u8>, DecompressionError>)
        ensures
            (match self.transform_spec(data@) {
                Ok(s) => r matches Ok(v) && v@ == s,
                Err(e) => r == Err::<Vec<u8>, DecompressionError>(e),
            }),
    ;
}

/// The identity strategy: hands the compressed bytes back unchanged. Stands
/// in for real decompression while the format's stored-uncompressed method
/// is the only one supported.
pub struct DummyDecompressor;

impl Decompressor for DummyDecompressor {
    open spec fn transform_spec(&self, data: Seq<u8>) -> Result<Seq<u8>, DecompressionError> {
        Ok(data)
    }

    fn decompress(&self, data: &[u8]) -> (r: Result<Vec<u8>, DecompressionError>) {
        Ok(slice_to_vec(data))
    }
}

/// Looks up the strategy for a compression-method code. Every code maps to
/// the identity strategy for now; a future build would inspect the code
/// here.
pub fn get_decompressor(_compression_method: u64) -> (r: DummyDecompressor)
    ensures
        forall|data: Seq<u8>|
            r.transform_spec(data) == Ok::<Seq<u8>, DecompressionError>(data),
{
    DummyDecompressor
}

/// Runs the strategy selected by `compression_method` over the given bytes.
/// With the identity strategy as the only one present, this returns a copy
/// of the input.
pub fn decompress_data(compressed_data: &[u8], compression_method: u64) -> (r: Result<
    Vec<u8>,
    DecompressionError,
>)
    ensures
        r matches Ok(v) && v@ == compressed_data@,
{
    let decompressor = get_decompressor(compression_method);
    decompressor.decompress(compressed_data)
}

} // verus!
