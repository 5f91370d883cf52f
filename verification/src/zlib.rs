//! Compression with zlib.

use vstd::prelude::*;
use flate2::read::ZlibDecoder;
use flate2::write::ZlibEncoder;
use flate2::Compression;
use std::io::Read;
use std::io::Write;

verus! {

/// What zlib reads from some bytes; nothing, where they are no complete stream.
pub uninterp spec fn zlib_inflated(bytes: Seq<u8>) -> Option<Seq<u8>>;

/// `flate2::read::ZlibDecoder`, read to its end: the stream's contents, or
/// nothing where reading fails.
#[verifier::external_body]
fn inflate_all(bytes: &[u8]) -> (r: Option<Vec<u8>>)
    ensures
        match r {
            Some(v) => zlib_inflated(bytes@) == Some(v@),
            None => zlib_inflated(bytes@) is None,
        },
{
    let mut out = Vec::new();
    match ZlibDecoder::new(bytes).read_to_end(&mut out) {
        Ok(_) => Some(out),
        Err(_) => None,
    }
}

/// The contents of a zlib stream.
pub fn inflate(bytes: &[u8]) -> (r: Option<Vec<u8>>)
    ensures
        match r {
            Some(v) => zlib_inflated(bytes@) == Some(v@),
            None => zlib_inflated(bytes@) is None,
        },
{
    inflate_all(bytes)
}

/// What zlib makes of some bytes at a level; nothing, where writing fails.
pub uninterp spec fn zlib_deflated(bytes: Seq<u8>, level: u32) -> Option<Seq<u8>>;

/// `flate2::write::ZlibEncoder` over a vector. What it makes is a zlib stream
/// that holds the bytes, and the low half of its first byte is the number of the
/// compression method, which is eight. Levels above ten are not asked for.
#[verifier::external_body]
fn deflate_all(bytes: &[u8], level: u32) -> (r: Option<Vec<u8>>)
    requires
        level <= 10,
    ensures
        match r {
            Some(v) => {
                &&& zlib_deflated(bytes@, level) == Some(v@)
                &&& zlib_inflated(v@) == Some(bytes@)
                &&& v@.len() >= 2
                &&& v@[0] % 16 == 8
            },
            None => zlib_deflated(bytes@, level) is None,
        },
{
    let mut encoder = ZlibEncoder::new(Vec::new(), Compression::new(level));
    match encoder.write_all(bytes) {
        Ok(_) => encoder.finish().ok(),
        Err(_) => None,
    }
}

/// A zlib stream of some bytes.
pub fn deflate(bytes: &[u8], level: u32) -> (r: Option<Vec<u8>>)
    requires
        level <= 10,
    ensures
        match r {
            Some(v) => {
                &&& zlib_deflated(bytes@, level) == Some(v@)
                &&& zlib_inflated(v@) == Some(bytes@)
                &&& v@.len() >= 2
                &&& v@[0] % 16 == 8
            },
            None => zlib_deflated(bytes@, level) is None,
        },
{
    deflate_all(bytes, level)
}

} // verus!
