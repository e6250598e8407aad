//! Whole-file operations: hide a message in a PNG, read it back, take it out.
//! Each takes the bytes of a file and gives back bytes or text; reading and
//! writing the file is the caller's business.

use crate::chunk::{Chunk, ChunkError, ChunkView};
use crate::chunk_type::{parse_type_text, ChunkType, ChunkTypeError};
use crate::png::{first_of_type, parse_png, png_to_bytes, Png, PngError};
use std::str::FromStr;
use vstd::prelude::*;
use vstd::slice::slice_to_vec;
use vstd::utf8::{decode_utf8, encode_utf8, valid_utf8};

verus! {

/// Everything that can go wrong in a whole-file operation, by component.
#[derive(Debug, Clone, Copy, PartialEq, Eq, Structural)]
pub enum Error {
    /// The chunk type text was refused.
    ChunkType(ChunkTypeError),
    /// A chunk's payload could not be read as text.
    Chunk(ChunkError),
    /// The file could not be read, or holds no chunk of the type asked for.
    Png(PngError),
}

/// The file that `encode` produces: the chunks of `buffer` followed by a new
/// chunk of the given type whose payload is the UTF-8 encoding of `payload`.
/// A file that cannot be read is reported before a bad chunk type.
pub open spec fn encoded(buffer: Seq<u8>, chunk_type: Seq<char>, payload: Seq<char>) -> Result<
    Seq<u8>,
    Error,
> {
    match parse_png(buffer) {
        Err(e) => Err(Error::Png(e)),
        Ok(chunks) => match parse_type_text(chunk_type) {
            Err(e) => Err(Error::ChunkType(e)),
            Ok(t) => Ok(png_to_bytes(chunks.push(ChunkView::new(t, encode_utf8(payload))))),
        },
    }
}

/// The text that `decode` produces: the payload of the first chunk of the
/// given type, read as UTF-8.
pub open spec fn decoded(buffer: Seq<u8>, chunk_type: Seq<char>) -> Result<Seq<char>, Error> {
    match parse_png(buffer) {
        Err(e) => Err(Error::Png(e)),
        Ok(chunks) => match first_of_type(chunks, chunk_type) {
            None => Err(Error::Png(PngError::ChunkNotFound)),
            Some(i) => if valid_utf8(chunks[i].data) {
                Ok(decode_utf8(chunks[i].data))
            } else {
                Err(Error::Chunk(ChunkError::TextDecodeError))
            },
        },
    }
}

/// The file that `remove` produces: the chunks of `buffer` without the
/// first one of the given type.
pub open spec fn removed(buffer: Seq<u8>, chunk_type: Seq<char>) -> Result<Seq<u8>, Error> {
    match parse_png(buffer) {
        Err(e) => Err(Error::Png(e)),
        Ok(chunks) => match first_of_type(chunks, chunk_type) {
            None => Err(Error::Png(PngError::ChunkNotFound)),
            Some(i) => Ok(png_to_bytes(chunks.remove(i))),
        },
    }
}

/// Appends a chunk of type `chunk_type` holding `payload` to the PNG file in
/// `buffer` and returns the new file. The payload must fit the 32-bit length
/// field of a chunk.
pub fn encode(buffer: &[u8], chunk_type: &str, payload: &str) -> (r: Result<Vec<u8>, Error>)
    requires
        encode_utf8(payload@).len() <= u32::MAX,
    ensures
        match r {
            Ok(out) => encoded(buffer@, chunk_type@, payload@) == Ok::<Seq<u8>, Error>(out@),
            Err(e) => encoded(buffer@, chunk_type@, payload@) == Err::<Seq<u8>, Error>(e),
        },
{
    let mut png: Png = match Png::try_from(buffer) {
        Ok(png) => png,
        Err(e) => {
            return Err(Error::Png(e));
        },
    };
    let chunk_type: ChunkType = match ChunkType::from_str(chunk_type) {
        Ok(t) => t,
        Err(e) => {
            return Err(Error::ChunkType(e));
        },
    };
    let chunk: Chunk = Chunk::new(chunk_type, slice_to_vec(payload.as_bytes()));
    png.append_chunk(chunk);
    Ok(png.as_bytes())
}

/// Reads the message held by the first chunk of type `chunk_type` in the PNG
/// file in `buffer`.
pub fn decode(buffer: &[u8], chunk_type: &str) -> (r: Result<String, Error>)
    ensures
        match r {
            Ok(text) => decoded(buffer@, chunk_type@) == Ok::<Seq<char>, Error>(text@),
            Err(e) => decoded(buffer@, chunk_type@) == Err::<Seq<char>, Error>(e),
        },
{
    let png: Png = match Png::try_from(buffer) {
        Ok(png) => png,
        Err(e) => {
            return Err(Error::Png(e));
        },
    };
    match png.chunk_by_type(chunk_type) {
        None => Err(Error::Png(PngError::ChunkNotFound)),
        Some(chunk) => match chunk.data_as_string() {
            Ok(text) => Ok(text),
            Err(e) => Err(Error::Chunk(e)),
        },
    }
}

/// Takes the first chunk of type `chunk_type` out of the PNG file in
/// `buffer` and returns the new file.
pub fn remove(buffer: &[u8], chunk_type: &str) -> (r: Result<Vec<u8>, Error>)
    ensures
        match r {
            Ok(out) => removed(buffer@, chunk_type@) == Ok::<Seq<u8>, Error>(out@),
            Err(e) => removed(buffer@, chunk_type@) == Err::<Seq<u8>, Error>(e),
        },
{
    let mut png: Png = match Png::try_from(buffer) {
        Ok(png) => png,
        Err(e) => {
            return Err(Error::Png(e));
        },
    };
    match png.remove_chunk(chunk_type) {
        Ok(_) => Ok(png.as_bytes()),
        Err(e) => Err(Error::Png(e)),
    }
}

} // verus!
