//! Zlib compression for packet payloads, through `libdeflater`. The
//! compressed image of a payload is named `deflate_of`; what a zlib stream
//! decompresses to is named `inflate_of`. Both are functions of the input
//! bytes alone: `libdeflater` compresses deterministically at the fixed
//! default level, and zlib decompression is deterministic.

use vstd::prelude::*;

verus! {

/// The zlib stream that `libdeflater` produces for `data` at the default
/// compression level.
pub uninterp spec fn deflate_of(data: Seq<u8>) -> Seq<u8>;

/// The bytes that the zlib stream `data` decompresses to, or `None` when
/// `data` is not one single well-formed zlib stream.
pub uninterp spec fn inflate_of(data: Seq<u8>) -> Option<Seq<u8>>;

/// Why compressing or decompressing a payload failed.
#[derive(Clone, Copy, Debug, PartialEq, Eq)]
pub enum CompressErr {
    /// The bytes are not a well-formed zlib stream, or its decompressed size
    /// does not fit the given bound.
    Decompression,
}

/// Relies on `libdeflater::Compressor::zlib_compress` at the default level:
/// with an output buffer of `zlib_compress_bound` bytes (documented as a hard
/// upper bound) it writes the zlib encoding of `data` and returns its size.
/// Compression is lossless, so decompressing the result yields `data` again.
#[verifier::external_body]
pub(crate) fn zlib_compress(data: &Vec<u8>) -> (r: Vec<u8>)
    requires
        data@.len() <= 0x1FFFFF,
    ensures
        r@ == deflate_of(data@),
        inflate_of(r@) == Some(data@),
{
    let mut c = libdeflater::Compressor::new(libdeflater::CompressionLvl::default());
    let bound = c.zlib_compress_bound(data.len());
    let mut out = vec![0u8; bound];
    let n = c.zlib_compress(data, &mut out).expect("zlib_compress_bound sized the buffer");
    out.truncate(n);
    out
}

/// Relies on `libdeflater::Decompressor::zlib_decompress`: into a buffer of
/// `cap` bytes it succeeds exactly when `data` is one well-formed zlib stream
/// whose decompressed size is at most `cap`, and then returns the
/// decompressed bytes.
#[verifier::external_body]
pub(crate) fn zlib_decompress(data: &Vec<u8>, cap: usize) -> (r: Result<Vec<u8>, CompressErr>)
    requires
        cap <= 0x1FFFFF,
    ensures
        r matches Ok(v) ==> inflate_of(data@) == Some(v@) && v@.len() <= cap,
        (inflate_of(data@) matches Some(p) && p.len() <= cap) ==> r is Ok,
{
    let mut d = libdeflater::Decompressor::new();
    let mut out = vec![0u8; cap];
    match d.zlib_decompress(data, &mut out) {
        Ok(n) => {
            out.truncate(n);
            Ok(out)
        },
        Err(_) => Err(CompressErr::Decompression),
    }
}

} // verus!
