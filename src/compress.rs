use vstd::prelude::*;

use std::io::Read;

verus! {

/// The zlib stream that `flate2` produces for `data` at its fast level.
pub uninterp spec fn zlib_of(data: Seq<u8>) -> Seq<u8>;

/// What `flate2` decompresses `data` to when read to the end: `None` where the
/// input is not a zlib stream or is cut short; bytes after a complete stream
/// are ignored.
pub uninterp spec fn inflate_of(data: Seq<u8>) -> Option<Seq<u8>>;

/// Relies on `flate2::read::ZlibEncoder` with `Compression::fast()`: the
/// compressed stream depends on the input bytes alone, compressing a slice in
/// memory does not fail, and `flate2::read::ZlibDecoder` inflates the stream
/// back to exactly those bytes.
#[verifier::external_body]
pub(crate) fn zlib_compress(data: &Vec<u8>) -> (r: Option<Vec<u8>>)
    ensures
        r is Some,
        r matches Some(v) ==> v@ == zlib_of(data@),
        r matches Some(v) ==> inflate_of(v@) == Some(data@),
{
    let mut encoder = flate2::read::ZlibEncoder::new(data.as_slice(), flate2::Compression::fast());
    let mut out = Vec::new();
    encoder.read_to_end(&mut out).ok().map(|_| out)
}

/// Relies on `flate2::read::ZlibDecoder`: the inflated bytes, or a failure
/// where the input is not a complete zlib stream; either depends on the input
/// alone.
#[verifier::external_body]
pub(crate) fn zlib_decompress(data: &Vec<u8>) -> (r: Option<Vec<u8>>)
    ensures
        r matches Some(v) ==> inflate_of(data@) == Some(v@),
        r is None ==> inflate_of(data@) is None,
{
    let mut decoder = flate2::read::ZlibDecoder::new(data.as_slice());
    let mut out = Vec::new();
    decoder.read_to_end(&mut out).ok().map(|_| out)
}

} // verus!
