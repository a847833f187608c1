//! The edits a user asks for, from the bytes of a stream to the bytes or text
//! that result.

use vstd::prelude::*;
use vstd::utf8::*;
use vstd::string::*;
use crate::chunk::{Chunk, fresh_chunk};
use crate::chunk_type::tag_from_bytes;
use crate::error::PngError;
use crate::png::{Png, has_tag, is_first_with_tag, parse_png, png_bytes};

verus! {

/// Appends a chunk with tag `chunk_type` carrying `msg` to the stream in
/// `buf`, and returns the new stream.
pub fn encode(buf: &[u8], chunk_type: &str, msg: &str) -> (r: Result<Vec<u8>, PngError>)
    requires
        msg.spec_bytes().len() <= u32::MAX,
    ensures
        match parse_png(buf@) {
            Err(e) => r == Err::<Vec<u8>, PngError>(e),
            Ok(cs) => match tag_from_bytes(chunk_type.spec_bytes()) {
                Err(e) => r == Err::<Vec<u8>, PngError>(e),
                Ok(tag) => r matches Ok(out) && out@ == png_bytes(
                    cs.push(fresh_chunk(tag, msg.spec_bytes())),
                ),
            },
        },
{
    let parsed = Png::from_bytes(buf);
    let mut png = match parsed {
        Ok(p) => p,
        Err(e) => {
            return Err(e);
        },
    };
    let new_chunk = match Chunk::from_str(chunk_type, msg) {
        Ok(c) => c,
        Err(e) => {
            return Err(e);
        },
    };
    png.add_chunk(new_chunk);
    Ok(png.bytes())
}

/// The text carried by the first chunk with tag `chunk_type` in the stream in
/// `buf`.
pub fn decode(buf: &[u8], chunk_type: &str) -> (r: Result<String, PngError>)
    ensures
        match parse_png(buf@) {
            Err(e) => r == Err::<String, PngError>(e),
            Ok(cs) => if !has_tag(cs, chunk_type.spec_bytes()) {
                r == Err::<String, PngError>(PngError::ChunkNotFound)
            } else {
                exists|i: int|
                    is_first_with_tag(cs, chunk_type.spec_bytes(), i) && if valid_utf8(
                        #[trigger] cs[i].data,
                    ) {
                        (r matches Ok(s) && s@ == decode_utf8(cs[i].data))
                    } else {
                        r == Err::<String, PngError>(PngError::NotUtf8)
                    }
            },
        },
{
    let png = match Png::from_bytes(buf) {
        Ok(p) => p,
        Err(e) => {
            return Err(e);
        },
    };
    match png.search_chunk(chunk_type) {
        Some(chunk) => match chunk.data_str() {
            Ok(s) => Ok(s.to_owned()),
            Err(e) => Err(e),
        },
        None => Err(PngError::ChunkNotFound),
    }
}

/// Removes the first chunk with tag `chunk_type` from the stream in `buf`,
/// and returns the new stream.
pub fn delete(buf: &[u8], chunk_type: &str) -> (r: Result<Vec<u8>, PngError>)
    ensures
        match parse_png(buf@) {
            Err(e) => r == Err::<Vec<u8>, PngError>(e),
            Ok(cs) => if !has_tag(cs, chunk_type.spec_bytes()) {
                r == Err::<Vec<u8>, PngError>(PngError::ChunkNotFound)
            } else {
                exists|i: int|
                    #[trigger] is_first_with_tag(cs, chunk_type.spec_bytes(), i) && (r matches Ok(
                        out,
                    ) && out@ == png_bytes(cs.remove(i)))
            },
        },
{
    let mut png = match Png::from_bytes(buf) {
        Ok(p) => p,
        Err(e) => {
            return Err(e);
        },
    };
    match png.delete_chunk(chunk_type) {
        Ok(_) => Ok(png.bytes()),
        Err(e) => Err(e),
    }
}

} // verus!
