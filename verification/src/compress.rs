//! Compression of stored objects with zlib.

use vstd::prelude::*;
use flate2::read::ZlibDecoder;
use flate2::write::ZlibEncoder;
use flate2::Compression;
use std::io::Read;
use std::io::Write;

verus! {

/// What a zlib stream decompresses to; `None` where the bytes are no zlib
/// stream. It depends on the bytes alone.
pub uninterp spec fn zlib_inflate(data: Seq<u8>) -> Option<Seq<u8>>;

/// What bytes compress to as a zlib stream at the default level; `None`
/// where the encoder fails. It depends on the bytes alone.
pub uninterp spec fn zlib_deflate(data: Seq<u8>) -> Option<Seq<u8>>;

/// Compresses `data` with `flate2::write::ZlibEncoder` at the default level,
/// writing into a vector. The contract names the result, and claims of it
/// that it decompresses to `data`; `None` stands for a failure of the
/// encoder.
#[verifier::external_body]
pub(crate) fn zlib_compress(data: &[u8]) -> (r: Option<Vec<u8>>)
    ensures
        r is Some <==> zlib_deflate(data@) is Some,
        r is Some ==> r->0@ == zlib_deflate(data@)->0,
        r is Some ==> zlib_inflate(r->0@) == Some(data@),
{
    let mut encoder = ZlibEncoder::new(Vec::new(), Compression::default());
    encoder.write_all(data).ok()?;
    encoder.finish().ok()
}

/// Decompresses `data` with `flate2::read::ZlibDecoder`, reading to the end of
/// the stream. The contract names the result; `None` stands for a failure of
/// the decoder.
#[verifier::external_body]
pub(crate) fn zlib_decompress(data: &[u8]) -> (r: Option<Vec<u8>>)
    ensures
        r is Some <==> zlib_inflate(data@) is Some,
        r is Some ==> r->0@ == zlib_inflate(data@)->0,
{
    let mut decoder = ZlibDecoder::new(data);
    let mut out = Vec::new();
    decoder.read_to_end(&mut out).ok()?;
    Some(out)
}

} // verus!
