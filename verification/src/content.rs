//! The content codec: deterministic hashing and pluggable compression.
//!
//! Hashing gives every file content its identity — the dedup key — and
//! every blob its integrity digest. Compression is dispatched on an
//! algorithm name; exactly one algorithm is registered, and an unknown
//! name fails explicitly rather than defaulting.

use vstd::prelude::*;
use crate::errors::EngineError;
use crate::text::{str_to_chars, chars_eq};

verus! {

/// What `sha256::digest` returns on a byte sequence: a function of the
/// bytes alone.
pub uninterp spec fn sha256_of(b: Seq<u8>) -> Seq<char>;

/// One lowercase hexadecimal digit.
pub open spec fn is_lower_hex_char(c: char) -> bool {
    c == '0' || c == '1' || c == '2' || c == '3' || c == '4'
    || c == '5' || c == '6' || c == '7' || c == '8' || c == '9'
    || c == 'a' || c == 'b' || c == 'c' || c == 'd' || c == 'e' || c == 'f'
}

/// A lowercase hexadecimal string.
pub open spec fn is_lower_hex(s: Seq<char>) -> bool {
    forall|i: int| 0 <= i < s.len() ==> is_lower_hex_char(s[i])
}

/// Relies on sha256::digest: the SHA-256 of the bytes as lowercase hex,
/// 64 characters, a function of the bytes alone.
#[verifier::external_body]
pub fn sha256_hex(b: &Vec<u8>) -> (r: String)
    ensures
        r@ == sha256_of(b@),
        r@.len() == 64,
        is_lower_hex(r@),
{
    sha256::digest(b)
}

/// What brotli decompression yields on a byte sequence: the decoded
/// content, or `None` where the bytes are not a valid stream. A function
/// of the bytes alone.
pub uninterp spec fn unbrotli_of(c: Seq<u8>) -> Option<Seq<u8>>;

/// Relies on brotli::BrotliCompress at quality 8: a lossless encoding, so
/// decompressing its output returns the input.
#[verifier::external_body]
fn brotli_compress_bytes(b: &Vec<u8>) -> (r: Result<Vec<u8>, ()>)
    ensures
        r matches Ok(c) ==> unbrotli_of(c@) == Some(b@),
{
    let mut reader = std::io::Cursor::new(b.as_slice());
    let mut out: Vec<u8> = Vec::new();
    let mut params = brotli::enc::BrotliEncoderParams::default();
    params.quality = 8;
    match brotli::BrotliCompress(&mut reader, &mut out, &params) {
        Ok(_) => Ok(out),
        Err(_) => Err(()),
    }
}

/// Relies on brotli::BrotliDecompress: deterministic in the input bytes,
/// failing exactly on the streams it cannot decode.
#[verifier::external_body]
fn brotli_decompress_bytes(c: &Vec<u8>) -> (r: Result<Vec<u8>, ()>)
    ensures
        match r {
            Ok(b) => unbrotli_of(c@) == Some(b@),
            Err(_) => unbrotli_of(c@) is None,
        },
{
    let mut reader = std::io::Cursor::new(c.as_slice());
    let mut out: Vec<u8> = Vec::new();
    match brotli::BrotliDecompress(&mut reader, &mut out) {
        Ok(()) => Ok(out),
        Err(_) => Err(()),
    }
}

/// Whether `s` equals a literal, compared character by character.
pub fn string_eq_lit(s: &String, lit: &str) -> (r: bool)
    ensures
        r == (s@ == lit@),
{
    let a = str_to_chars(s.as_str());
    let b = str_to_chars(lit);
    chars_eq(&a, &b)
}

/// Compress `data` with the named algorithm.
///
/// The registry holds exactly one algorithm. An unknown name fails with
/// `UnsupportedAlgorithm`; on success the output decompresses back to
/// `data`.
pub fn compress(algorithm: &String, data: &Vec<u8>) -> (r: Result<Vec<u8>, EngineError>)
    ensures
        match r {
            Ok(c) => algorithm@ == "brotli"@ && unbrotli_of(c@) == Some(data@),
            Err(e) => match e {
                EngineError::UnsupportedAlgorithm(a) => algorithm@ != "brotli"@
                    && a@ == algorithm@,
                EngineError::CodecError(_) => algorithm@ == "brotli"@,
                _ => false,
            },
        },
{
    if !string_eq_lit(algorithm, "brotli") {
        return Err(EngineError::UnsupportedAlgorithm(algorithm.clone()));
    }
    match brotli_compress_bytes(data) {
        Result::Ok(c) => Ok(c),
        Result::Err(_) => Err(EngineError::CodecError(algorithm.clone())),
    }
}

/// Decompress `data` with the named algorithm.
///
/// Fails with `UnsupportedAlgorithm` on an unknown name and `CodecError`
/// on bytes the algorithm cannot decode; succeeds on all others.
pub fn decompress(algorithm: &String, data: &Vec<u8>) -> (r: Result<Vec<u8>, EngineError>)
    ensures
        match r {
            Ok(b) => algorithm@ == "brotli"@ && unbrotli_of(data@) == Some(b@),
            Err(e) => match e {
                EngineError::UnsupportedAlgorithm(a) => algorithm@ != "brotli"@
                    && a@ == algorithm@,
                EngineError::CodecError(_) => algorithm@ == "brotli"@
                    && unbrotli_of(data@) is None,
                _ => false,
            },
        },
{
    if !string_eq_lit(algorithm, "brotli") {
        return Err(EngineError::UnsupportedAlgorithm(algorithm.clone()));
    }
    match brotli_decompress_bytes(data) {
        Result::Ok(b) => Ok(b),
        Result::Err(_) => Err(EngineError::CodecError(algorithm.clone())),
    }
}

} // verus!
