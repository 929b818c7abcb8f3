//! The four stream compressors the library uses (gzip, bzip2, xz, zstd), run
//! over byte buffers. What each compressor produces and accepts is named
//! rather than written out; the facts stated about those names are that
//! compression is a function of the input bytes, that decompression (what it
//! reads out, and its error's text if it stops on one) is a function of the
//! compressed bytes, and that decompressing what the same compressor
//! produced gives its input back, to the end.
use vstd::prelude::*;
use std::io::Read;
use std::io::Write;
use crate::archive::format::{bzip2_magic, gzip_magic, starts_with, xz_magic, zstd_magic};

verus! {

/// `std::io::Error`, which the compressors fail with.
#[verifier::external_type_specification]
#[verifier::external_body]
pub struct ExIoError(std::io::Error);

/// A stream compressor.
#[derive(Clone, Copy, Debug, PartialEq, Eq, Structural)]
pub enum Codec {
    Gzip,
    Bzip2,
    Xz,
    Zstd,
}

/// What `flate2::write::GzEncoder` (default level) writes for `data`.
pub uninterp spec fn gzip_encoded(data: Seq<u8>) -> Seq<u8>;

/// What reading `flate2::read::GzDecoder` over `bytes` to the end gives: the bytes read
/// out before it stopped, and the text of the error it stopped on, if any.
pub uninterp spec fn gzip_decoding(bytes: Seq<u8>) -> (Seq<u8>, Option<Seq<char>>);

/// What `bzip2::write::BzEncoder` (default level) writes for `data`.
pub uninterp spec fn bzip2_encoded(data: Seq<u8>) -> Seq<u8>;

/// What reading `bzip2::read::BzDecoder` over `bytes` to the end gives: the bytes read
/// out before it stopped, and the text of the error it stopped on, if any.
pub uninterp spec fn bzip2_decoding(bytes: Seq<u8>) -> (Seq<u8>, Option<Seq<char>>);

/// What `xz2::write::XzEncoder` (level 6) writes for `data`.
pub uninterp spec fn xz_encoded(data: Seq<u8>) -> Seq<u8>;

/// What reading `xz2::read::XzDecoder` over `bytes` to the end gives: the bytes read
/// out before it stopped, and the text of the error it stopped on, if any.
pub uninterp spec fn xz_decoding(bytes: Seq<u8>) -> (Seq<u8>, Option<Seq<char>>);

/// What `zstd::stream::encode_all` (level 0, the library default) produces for `data`.
pub uninterp spec fn zstd_encoded(data: Seq<u8>) -> Seq<u8>;

/// What `zstd::stream::copy_decode` of `bytes` into a `Vec` gives: the bytes
/// written out before it stopped, and the text of the error it stopped on,
/// if any.
pub uninterp spec fn zstd_decoding(bytes: Seq<u8>) -> (Seq<u8>, Option<Seq<char>>);

/// The compressed form of `data` under `codec`.
pub open spec fn encoded(codec: Codec, data: Seq<u8>) -> Seq<u8> {
    match codec {
        Codec::Gzip => gzip_encoded(data),
        Codec::Bzip2 => bzip2_encoded(data),
        Codec::Xz => xz_encoded(data),
        Codec::Zstd => zstd_encoded(data),
    }
}

/// A decompression that read out `b` and reached the end.
pub open spec fn produced(b: Seq<u8>) -> (Seq<u8>, Option<Seq<char>>) {
    (b, None)
}

/// The text an optional error message holds.
pub open spec fn text_opt(m: Option<String>) -> Option<Seq<char>> {
    match m {
        Some(t) => Some(t@),
        None => None,
    }
}

/// What decompressing `bytes` under `codec` gives: the bytes read out before
/// it stopped, and the text of the error it stopped on, if any.
pub open spec fn decoding(codec: Codec, bytes: Seq<u8>) -> (Seq<u8>, Option<Seq<char>>) {
    match codec {
        Codec::Gzip => gzip_decoding(bytes),
        Codec::Bzip2 => bzip2_decoding(bytes),
        Codec::Xz => xz_decoding(bytes),
        Codec::Zstd => zstd_decoding(bytes),
    }
}

/// The decompressed form of `bytes` under `codec`, when they decompress to
/// the end.
pub open spec fn decoded(codec: Codec, bytes: Seq<u8>) -> Option<Seq<u8>> {
    if decoding(codec, bytes).1 is None {
        Some(decoding(codec, bytes).0)
    } else {
        None
    }
}

/// Compresses `data` with `flate2::write::GzEncoder` at the default level.
/// Compressing into a `Vec` fails only when memory runs out (which aborts),
/// so the call succeeds. The contract also claims that the output is a
/// function of `data`, that it decompresses back to `data`, and that it
/// begins with the gzip signature. The other encoders are claimed to
/// succeed for the same reason.
#[verifier::external_body]
fn gzip_encode(data: &[u8]) -> (r: Result<Vec<u8>, std::io::Error>)
    ensures
        r is Ok,
        r matches Ok(v) ==> v@ == gzip_encoded(data@),
        r matches Ok(v) ==> gzip_decoding(v@) == produced(data@),
        r matches Ok(v) ==> starts_with(v@, gzip_magic()),
{
    let mut e = flate2::write::GzEncoder::new(Vec::new(), flate2::Compression::default());
    e.write_all(data)?;
    e.finish()
}

/// Decompresses `bytes` with `flate2::read::GzDecoder`, reading to the end
/// with `Read::read_to_end`, which keeps what was read before an error. The
/// contract claims that what was read out, and the error's text, are a
/// function of `bytes`.
#[verifier::external_body]
fn gzip_decode(bytes: &[u8]) -> (r: (Vec<u8>, Option<String>))
    ensures
        gzip_decoding(bytes@) == (r.0@, text_opt(r.1)),
{
    let mut out = Vec::new();
    match flate2::read::GzDecoder::new(bytes).read_to_end(&mut out) {
        Ok(_) => (out, None),
        Err(e) => (out, Some(e.to_string())),
    }
}

/// Compresses `data` with `bzip2::write::BzEncoder` at the default level.
/// The contract claims that the output is a function of `data`, that it
/// decompresses back to `data`, and that it begins with `BZh`.
#[verifier::external_body]
fn bzip2_encode(data: &[u8]) -> (r: Result<Vec<u8>, std::io::Error>)
    ensures
        r is Ok,
        r matches Ok(v) ==> v@ == bzip2_encoded(data@),
        r matches Ok(v) ==> bzip2_decoding(v@) == produced(data@),
        r matches Ok(v) ==> starts_with(v@, bzip2_magic()),
{
    let mut e = bzip2::write::BzEncoder::new(Vec::new(), bzip2::Compression::default());
    e.write_all(data)?;
    e.finish()
}

/// Decompresses `bytes` with `bzip2::read::BzDecoder`; the same claims as
/// for `gzip_decode`.
#[verifier::external_body]
fn bzip2_decode(bytes: &[u8]) -> (r: (Vec<u8>, Option<String>))
    ensures
        bzip2_decoding(bytes@) == (r.0@, text_opt(r.1)),
{
    let mut out = Vec::new();
    match bzip2::read::BzDecoder::new(bytes).read_to_end(&mut out) {
        Ok(_) => (out, None),
        Err(e) => (out, Some(e.to_string())),
    }
}

/// Compresses `data` with `xz2::write::XzEncoder` at level 6. The contract
/// claims that the output is a function of `data`, that it decompresses back
/// to `data`, and that it begins with the xz stream signature.
#[verifier::external_body]
fn xz_encode(data: &[u8]) -> (r: Result<Vec<u8>, std::io::Error>)
    ensures
        r is Ok,
        r matches Ok(v) ==> v@ == xz_encoded(data@),
        r matches Ok(v) ==> xz_decoding(v@) == produced(data@),
        r matches Ok(v) ==> starts_with(v@, xz_magic()),
{
    let mut e = xz2::write::XzEncoder::new(Vec::new(), 6);
    e.write_all(data)?;
    e.finish()
}

/// Decompresses `bytes` with `xz2::read::XzDecoder`; the same claims as for
/// `gzip_decode`.
#[verifier::external_body]
fn xz_decode(bytes: &[u8]) -> (r: (Vec<u8>, Option<String>))
    ensures
        xz_decoding(bytes@) == (r.0@, text_opt(r.1)),
{
    let mut out = Vec::new();
    match xz2::read::XzDecoder::new(bytes).read_to_end(&mut out) {
        Ok(_) => (out, None),
        Err(e) => (out, Some(e.to_string())),
    }
}

/// Compresses `data` with `zstd::stream::encode_all` at level 0. The contract
/// claims that the output is a function of `data`, that it decompresses back
/// to `data`, and that it begins with the zstd frame signature.
#[verifier::external_body]
fn zstd_encode(data: &[u8]) -> (r: Result<Vec<u8>, std::io::Error>)
    ensures
        r is Ok,
        r matches Ok(v) ==> v@ == zstd_encoded(data@),
        r matches Ok(v) ==> zstd_decoding(v@) == produced(data@),
        r matches Ok(v) ==> starts_with(v@, zstd_magic()),
{
    zstd::stream::encode_all(data, 0)
}

/// Decompresses `bytes` with `zstd::stream::copy_decode` into a `Vec`,
/// which keeps what was written before an error; the same claims as for
/// `gzip_decode`.
#[verifier::external_body]
fn zstd_decode(bytes: &[u8]) -> (r: (Vec<u8>, Option<String>))
    ensures
        zstd_decoding(bytes@) == (r.0@, text_opt(r.1)),
{
    let mut out = Vec::new();
    match zstd::stream::copy_decode(bytes, &mut out) {
        Ok(()) => (out, None),
        Err(e) => (out, Some(e.to_string())),
    }
}

/// The text of an I/O error (its `Display` output).
#[verifier::external_body]
pub(crate) fn io_error_text(e: &std::io::Error) -> String {
    e.to_string()
}

/// The signature every stream of `codec` begins with.
pub open spec fn magic(codec: Codec) -> Seq<u8> {
    match codec {
        Codec::Gzip => gzip_magic(),
        Codec::Bzip2 => bzip2_magic(),
        Codec::Xz => xz_magic(),
        Codec::Zstd => zstd_magic(),
    }
}

/// Compresses `data` with `codec`, which always succeeds; what comes out
/// begins with the codec's signature and decompresses to `data`.
pub fn encode(codec: Codec, data: &[u8]) -> (r: Result<Vec<u8>, String>)
    ensures
        r is Ok,
        r matches Ok(v) ==> v@ == encoded(codec, data@),
        r matches Ok(v) ==> decoded(codec, v@) == Some(data@),
        r matches Ok(v) ==> starts_with(v@, magic(codec)),
{
    let res = match codec {
        Codec::Gzip => gzip_encode(data),
        Codec::Bzip2 => bzip2_encode(data),
        Codec::Xz => xz_encode(data),
        Codec::Zstd => zstd_encode(data),
    };
    match res {
        Ok(v) => Ok(v),
        Err(e) => Err(io_error_text(&e)),
    }
}

/// Decompresses `bytes` with `codec` as far as it goes: what was read out
/// before the decompressor stopped, and the text of the error it stopped on,
/// if any.
pub fn decode_prefix(codec: Codec, bytes: &[u8]) -> (r: (Vec<u8>, Option<String>))
    ensures
        decoding(codec, bytes@) == (r.0@, text_opt(r.1)),
{
    match codec {
        Codec::Gzip => gzip_decode(bytes),
        Codec::Bzip2 => bzip2_decode(bytes),
        Codec::Xz => xz_decode(bytes),
        Codec::Zstd => zstd_decode(bytes),
    }
}

/// Decompresses `bytes` with `codec`: succeeds exactly when the bytes
/// decompress to the end, and fails with the decompressor's error text
/// otherwise.
pub fn decode(codec: Codec, bytes: &[u8]) -> (r: Result<Vec<u8>, String>)
    ensures
        r is Ok <==> decoded(codec, bytes@) is Some,
        r matches Ok(v) ==> decoded(codec, bytes@) == Some(v@),
        r matches Err(m) ==> decoding(codec, bytes@).1 == Some(m@),
{
    let (out, err) = decode_prefix(codec, bytes);
    match err {
        None => Ok(out),
        Some(m) => Err(m),
    }
}

} // verus!
