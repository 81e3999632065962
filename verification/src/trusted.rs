//! The codec's outside collaborators: CRC-32 and raw DEFLATE from the
//! `crc32fast` and `flate2` crates, and UTF-8 validation from std.
//! Each is reached through one wrapper whose contract names or states
//! what the call returns; nothing else in the crate touches them.

use vstd::prelude::*;

use std::io::Read;
use std::io::Write;

verus! {

/// The IEEE CRC-32 of a byte sequence.  The checksum is a function of
/// the bytes alone; its value is not written out here.
pub uninterp spec fn crc32_of(data: Seq<u8>) -> u32;

/// The raw DEFLATE stream that compressing `data` at `level` produces.
/// For a fixed codec the stream depends on the data and level alone.
pub uninterp spec fn deflate_of(data: Seq<u8>, level: u32) -> Seq<u8>;

/// What decoding a raw DEFLATE stream yields: the uncompressed bytes,
/// or nothing when the stream is not a DEFLATE encoding.
pub uninterp spec fn inflate_of(data: Seq<u8>) -> Option<Seq<u8>>;

/// Relies on crc32fast::Hasher (new, update, finalize): the IEEE
/// CRC-32 of the bytes handed to `update`, a pure function of them.
#[verifier::external_body]
pub(crate) fn crc32(data: &Vec<u8>) -> (r: u32)
    ensures
        r == crc32_of(data@),
{
    let mut hasher = crc32fast::Hasher::new();
    hasher.update(data.as_slice());
    hasher.finalize()
}

/// Relies on flate2's write::DeflateEncoder over a Vec sink (write_all,
/// then finish): the raw DEFLATE stream for the input at the given
/// level, which read::DeflateDecoder decodes back to the input.  With
/// a Vec sink and a level in range the encoder has no failure path, so
/// the call always returns.
#[verifier::external_body]
pub(crate) fn deflate(data: &Vec<u8>, level: u32) -> (r: Vec<u8>)
    requires
        level <= 9,
    ensures
        r@ == deflate_of(data@, level),
        inflate_of(r@) == Some(data@),
{
    let mut enc = flate2::write::DeflateEncoder::new(
        Vec::new(),
        flate2::Compression::new(level),
    );
    enc.write_all(data.as_slice()).expect("writing to an in-memory deflate encoder");
    enc.finish().expect("finishing an in-memory deflate stream")
}

/// Relies on flate2's read::DeflateDecoder (read_to_end): decoding a
/// raw DEFLATE stream is a function of the bytes alone, and fails
/// exactly on the byte sequences that are no DEFLATE stream.
#[verifier::external_body]
pub(crate) fn inflate(data: &Vec<u8>) -> (r: Result<Vec<u8>, ()>)
    ensures
        r matches Ok(v) ==> inflate_of(data@) == Some(v@),
        r matches Err(e) ==> inflate_of(data@) is None,
{
    let mut dec = flate2::read::DeflateDecoder::new(data.as_slice());
    let mut out = Vec::new();
    match dec.read_to_end(&mut out) {
        Ok(_) => Ok(out),
        Err(_) => Err(()),
    }
}

/// Relies on std's str::from_utf8: it accepts exactly the byte
/// sequences that are valid UTF-8, and returns their decoding.
#[verifier::external_body]
pub(crate) fn utf8_to_string(b: &Vec<u8>) -> (r: Option<String>)
    ensures
        r matches Some(s) ==> vstd::utf8::valid_utf8(b@) && s@ == vstd::utf8::decode_utf8(b@),
        r matches None ==> !vstd::utf8::valid_utf8(b@),
{
    match std::str::from_utf8(b.as_slice()) {
        Ok(s) => Some(s.to_string()),
        Err(_) => None,
    }
}

} // verus!
