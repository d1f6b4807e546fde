//! The trusted boundary to the outside codecs used by viewpoint
//! serialization: URL-safe unpadded base64, and zlib compression.
//!
//! Each outside call sits behind one wrapper; what the call returns is named
//! by an uninterpreted function, and only facts that the outside crates'
//! sources show are stated about those names.

use std::io::Read;
use std::io::Write;
use vstd::prelude::*;

verus! {

/// A character of the URL-safe base64 alphabet.
pub open spec fn is_b64url_char(c: char) -> bool {
    ('A' <= c <= 'Z') || ('a' <= c <= 'z') || ('0' <= c <= '9') || c == '-' || c == '_'
}

/// The URL-safe, unpadded base64 encoding of a byte sequence, as
/// `base64::encode_config` with the `UrlSafe` character set produces it.
pub uninterp spec fn b64_of(b: Seq<u8>) -> Seq<char>;

/// The zlib stream that `flate2`'s encoder at its best compression level
/// produces for a byte sequence.
pub uninterp spec fn deflate_of(b: Seq<u8>) -> Seq<u8>;

/// What `flate2`'s zlib decoder returns for a byte sequence: the
/// decompressed bytes, or nothing when the input is no well-formed zlib
/// stream.
pub uninterp spec fn inflate_of(b: Seq<u8>) -> Option<Seq<u8>>;

/// Relies on `base64::encode_config` with a URL-safe, unpadded config: the
/// encoding is a pure function of the input bytes, it is injective, since
/// `base64::decode_config` inverts it, and it emits only characters of the
/// URL-safe alphabet, with no padding.
#[verifier::external_body]
pub fn b64_encode(b: &[u8]) -> (r: String)
    ensures
        r@ == b64_of(b@),
        forall|other: Seq<u8>| b64_of(other) == r@ ==> other == b@,
        forall|i: int| 0 <= i < r@.len() ==> is_b64url_char(#[trigger] r@[i]),
{
    base64::encode_config(b, base64::Config::new(base64::CharacterSet::UrlSafe, false))
}

/// Relies on `base64::decode_config` with a URL-safe, unpadded config: an
/// encoded string decodes back to the bytes it encodes, decoding fails on
/// any string that no byte sequence encodes to (the decoder also accepts a
/// correctly padded variant, so a successful decode is stated only as
/// agreeing with every possible preimage), and it rejects any input holding
/// a character outside the URL-safe alphabet and `=`.
#[verifier::external_body]
pub fn b64_decode(s: &str) -> (r: Option<Vec<u8>>)
    ensures
        forall|d: Seq<u8>| s@ == b64_of(d) ==> r is Some,
        r is Some ==> forall|d: Seq<u8>| s@ == b64_of(d) ==> r->0@ == d,
        r is Some ==> forall|i: int|
            0 <= i < s@.len() ==> is_b64url_char(#[trigger] s@[i]) || s@[i] == '=',
{
    base64::decode_config(s, base64::Config::new(base64::CharacterSet::UrlSafe, false)).ok()
}

/// Relies on `flate2::write::ZlibEncoder` at `Compression::best()`: the
/// stream it produces is a pure function of the input bytes, and
/// `flate2::read::ZlibDecoder` decompresses it back to them. Writing into a
/// `Vec` sink cannot fail.
#[verifier::external_body]
pub fn deflate(data: &[u8]) -> (r: Vec<u8>)
    ensures
        r@ == deflate_of(data@),
        inflate_of(r@) == Some(data@),
{
    let mut enc = flate2::write::ZlibEncoder::new(Vec::new(), flate2::Compression::best());
    enc.write_all(data).unwrap();
    enc.finish().unwrap()
}

/// Relies on `flate2::read::ZlibDecoder`: decompression is a pure function
/// of the input bytes, it fails exactly on ill-formed streams, and it
/// inverts `deflate`.
#[verifier::external_body]
pub fn inflate(data: &[u8]) -> (r: Option<Vec<u8>>)
    ensures
        r is Some <==> inflate_of(data@) is Some,
        r matches Some(d) ==> inflate_of(data@) == Some(d@),
        r is None ==> (forall|orig: Seq<u8>| data@ != deflate_of(orig)),
        r matches Some(d) ==> (forall|orig: Seq<u8>| data@ == deflate_of(orig) ==> d@ == orig),
{
    let mut dec = flate2::read::ZlibDecoder::new(data);
    let mut out = Vec::new();
    match dec.read_to_end(&mut out) {
        Ok(_) => Some(out),
        Err(_) => None,
    }
}

} // verus!
