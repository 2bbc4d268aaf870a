//! The four operations offered on a PNG file, from its bytes to what is
//! written back or shown. Reading and writing the file is the caller's.

use crate::chunk::{crc32_iso_hdlc, Chunk, ChunkModel};
use crate::chunk_type::{is_tag_text, ChunkType};
use crate::error::Error;
use crate::png::{
    holds_type, is_first_of_type, png_bytes, png_decode_result, png_display_bytes, Png,
};
use crate::text::lossy_text;
use vstd::prelude::*;
use vstd::slice::slice_to_vec;
use vstd::string::StringSliceAdditionalSpecFns;
use vstd::utf8::{decode_utf8, valid_utf8};

verus! {

/// The chunk that holds `message` under the type spelled by `name`.
pub open spec fn message_chunk(name: Seq<u8>, message: Seq<u8>) -> ChunkModel {
    ChunkModel {
        length: message.len() as u32,
        chunk_type: name,
        data: message,
        crc: crc32_iso_hdlc(name + message),
    }
}

/// Adds a chunk of type `chunk_type` holding `message` after the chunks of
/// the container in `file`, and returns the new file contents.
pub fn encode(file: &[u8], chunk_type: &str, message: &str) -> (r: Result<Vec<u8>, Error>)
    requires
        message.spec_bytes().len() <= u32::MAX,
    ensures
        !is_tag_text(chunk_type.spec_bytes()) ==> (r matches Err(e) && e is InvalidFormat),
        is_tag_text(chunk_type.spec_bytes()) ==> match png_decode_result(file@) {
            Err(e) => r matches Err(e2) && e2 == e,
            Ok(cs) => r matches Ok(out) && out@ == png_bytes(
                cs.push(message_chunk(chunk_type.spec_bytes(), message.spec_bytes())),
            ),
        },
{
    let tag = ChunkType::from_str(chunk_type)?;
    let mut png = Png::decode(file)?;
    let data = slice_to_vec(message.as_bytes());
    let chunk = Chunk::new(tag, data);
    png.append_chunk(chunk);
    Ok(png.as_bytes())
}

/// The text held by the first chunk of type `chunk_type` in the container
/// in `file`: `None` where there is no such chunk, `NotText` where its data
/// is not UTF-8.
pub fn decode(file: &[u8], chunk_type: &str) -> (r: Result<Option<String>, Error>)
    ensures
        match png_decode_result(file@) {
            Err(e) => r matches Err(e2) && e2 == e,
            Ok(cs) => if !holds_type(cs, chunk_type.spec_bytes()) {
                r matches Ok(None)
            } else {
                exists|i: int|
                    is_first_of_type(cs, chunk_type.spec_bytes(), i) && if valid_utf8(cs[i].data) {
                        r matches Ok(Some(s)) && s@ == decode_utf8(cs[i].data)
                    } else {
                        r matches Err(e) && e == Error::NotText
                    }
            },
        },
{
    let png = Png::decode(file)?;
    match png.chunk_by_type(chunk_type) {
        None => Ok(None),
        Some(c) => {
            let s = c.data_as_string()?;
            Ok(Some(s))
        },
    }
}

/// Removes the first chunk of type `chunk_type` from the container in
/// `file` and returns the new file contents; `NotFound` where there is no
/// such chunk.
pub fn remove(file: &[u8], chunk_type: &str) -> (r: Result<Vec<u8>, Error>)
    ensures
        match png_decode_result(file@) {
            Err(e) => r matches Err(e2) && e2 == e,
            Ok(cs) => if !holds_type(cs, chunk_type.spec_bytes()) {
                r matches Err(e) && e == Error::NotFound
            } else {
                exists|i: int|
                    is_first_of_type(cs, chunk_type.spec_bytes(), i) && (r matches Ok(out)
                        && out@ == png_bytes(cs.remove(i)))
            },
        },
{
    let mut png = Png::decode(file)?;
    png.remove_first_chunk(chunk_type)?;
    Ok(png.as_bytes())
}

/// The diagnostic rendering of the container in `file`.
pub fn print(file: &[u8]) -> (r: Result<String, Error>)
    ensures
        match png_decode_result(file@) {
            Err(e) => r matches Err(e2) && e2 == e,
            Ok(cs) => r matches Ok(s) && s@ == lossy_text(png_display_bytes(cs)),
        },
{
    let png = Png::decode(file)?;
    Ok(png.to_string())
}

} // verus!
