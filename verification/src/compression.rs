//! The decompression of a request body.
//!
//! The body is one raw Snappy block. Its announced length is allocated
//! before the block is read, so a small body can ask for up to 4 GiB: a
//! deployment that cannot afford that caps the size of request bodies.

use crate::error::{ErrorKind, IngestError, IngestErrorView};
use crate::validation::Encoding;
use vstd::prelude::*;

verus! {

/// What decompressing a raw Snappy block gives: the bytes that it encodes,
/// or, for a block that is empty, truncated or corrupt, the decoder's
/// description of what is wrong with it.
pub uninterp spec fn snappy_decoded(input: Seq<u8>) -> Result<Seq<u8>, Seq<char>>;

/// The result of a decompression as a value.
pub open spec fn inflated_of(r: Result<Vec<u8>, String>) -> Result<Seq<u8>, Seq<char>> {
    match r {
        Ok(bytes) => Ok(bytes@),
        Err(text) => Err(text@),
    }
}

/// `snap::raw::Decoder::decompress_vec` on a fresh decoder, its error
/// rendered by the error's `Display`. Not proved: anything about the
/// decoder; the contract only names its result, which depends on nothing
/// but the input.
#[verifier::external_body]
fn snappy_decompress(input: &[u8]) -> (r: Result<Vec<u8>, String>)
    ensures
        inflated_of(r) == snappy_decoded(input@),
{
    match snap::raw::Decoder::new().decompress_vec(input) {
        Ok(bytes) => Ok(bytes),
        Err(e) => Err(e.to_string()),
    }
}

/// What a request gets for a decompression result: the bytes, or a
/// failure that carries the decoder's text.
pub open spec fn decompressed_of(inflated: Result<Seq<u8>, Seq<char>>) -> Result<Seq<u8>, IngestErrorView> {
    match inflated {
        Ok(bytes) => Ok(bytes),
        Err(text) => Err(IngestErrorView { kind: ErrorKind::DecompressionFailed, message: text }),
    }
}

/// A decompression outcome as a value.
pub open spec fn body_of(r: Result<Vec<u8>, IngestError>) -> Result<Seq<u8>, IngestErrorView> {
    match r {
        Ok(bytes) => Ok(bytes@),
        Err(e) => Err(e@),
    }
}

/// Turns the decoder's result into that of the decompression stage.
pub fn decompression_outcome(inflated: Result<Vec<u8>, String>) -> (r: Result<Vec<u8>, IngestError>)
    ensures
        body_of(r) == decompressed_of(inflated_of(inflated)),
{
    match inflated {
        Ok(bytes) => Ok(bytes),
        Err(text) => Err(IngestError { kind: ErrorKind::DecompressionFailed, message: text }),
    }
}

/// Decompresses a request body that arrived in the given encoding.
pub fn decompress_body(encoding: Encoding, body: &[u8]) -> (r: Result<Vec<u8>, IngestError>)
    ensures
        body_of(r) == decompressed_of(snappy_decoded(body@)),
{
    match encoding {
        Encoding::Snappy => decompression_outcome(snappy_decompress(body)),
    }
}

} // verus!
