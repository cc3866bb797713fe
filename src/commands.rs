use vstd::prelude::*;
use vstd::slice::slice_to_vec;
use vstd::string::StringSliceAdditionalSpecFns;
use crate::chunk::{lossy_utf8, Chunk, ChunkModel};
use crate::chunk_type::{parse_tag_text, tag_chars, ChunkType};
use crate::error::Error;
use crate::png::{is_first_match, no_match, parse_png, png_bytes, Png};

verus! {

/// Adds a chunk of type `chunk_type` holding the bytes of `message` to the end
/// of the PNG file `file`, unless a chunk of that type is already there.
/// Returns the new file's bytes, or `None` when the type was present.
pub fn encode(file: &[u8], chunk_type: &str, message: &str) -> (r: Result<Option<Vec<u8>>, Error>)
    requires
        message.spec_bytes().len() <= u32::MAX,
    ensures
        match parse_tag_text(chunk_type@) {
            Err(e) => r == Err::<Option<Vec<u8>>, Error>(Error::ChunkType(e)),
            Ok(tag) => match parse_png(file@) {
                Err(e) => r == Err::<Option<Vec<u8>>, Error>(e),
                Ok(cs) => if no_match(cs, tag_chars(tag)) {
                    r is Ok && r->Ok_0 is Some && r->Ok_0->Some_0@ == png_bytes(
                        cs.push(ChunkModel { tag, data: message.spec_bytes() }),
                    )
                } else {
                    r == Ok::<Option<Vec<u8>>, Error>(None)
                },
            },
        },
{
    let ct = match ChunkType::from_str(chunk_type) {
        Ok(t) => t,
        Err(e) => return Err(Error::ChunkType(e)),
    };
    let mut png = Png::try_from(file)?;
    let name = ct.to_string();
    let data = slice_to_vec(message.as_bytes());
    let chunk = Chunk::new(ct, data);
    match png.chunk_by_type(name.as_str()) {
        Some(_) => Ok(None),
        None => {
            png.append_chunk(chunk);
            Ok(Some(png.as_bytes()))
        },
    }
}

/// The text of the first chunk of type `chunk_type` in the PNG file `file`, or
/// `None` when there is no such chunk.
pub fn decode(file: &[u8], chunk_type: &str) -> (r: Result<Option<String>, Error>)
    ensures
        match parse_tag_text(chunk_type@) {
            Err(e) => r == Err::<Option<String>, Error>(Error::ChunkType(e)),
            Ok(tag) => match parse_png(file@) {
                Err(e) => r == Err::<Option<String>, Error>(e),
                Ok(cs) => if no_match(cs, tag_chars(tag)) {
                    r == Ok::<Option<String>, Error>(None)
                } else {
                    r is Ok && r->Ok_0 is Some && exists|i: int|
                        is_first_match(cs, tag_chars(tag), i) && r->Ok_0->Some_0@ == lossy_utf8(cs[i].data)
                },
            },
        },
{
    let ct = match ChunkType::from_str(chunk_type) {
        Ok(t) => t,
        Err(e) => return Err(Error::ChunkType(e)),
    };
    let png = Png::try_from(file)?;
    let name = ct.to_string();
    match png.chunk_by_type(name.as_str()) {
        Some(c) => {
            let text = c.data_as_string()?;
            Ok(Some(text))
        },
        None => Ok(None),
    }
}

/// The PNG file `file` without the first chunk of type `chunk_type`.
pub fn remove(file: &[u8], chunk_type: &str) -> (r: Result<Vec<u8>, Error>)
    ensures
        match parse_tag_text(chunk_type@) {
            Err(e) => r == Err::<Vec<u8>, Error>(Error::ChunkType(e)),
            Ok(tag) => match parse_png(file@) {
                Err(e) => r == Err::<Vec<u8>, Error>(e),
                Ok(cs) => if no_match(cs, tag_chars(tag)) {
                    r == Err::<Vec<u8>, Error>(Error::ChunkNotFound)
                } else {
                    r is Ok && exists|i: int|
                        is_first_match(cs, tag_chars(tag), i) && r->Ok_0@ == png_bytes(cs.remove(i))
                },
            },
        },
{
    let ct = match ChunkType::from_str(chunk_type) {
        Ok(t) => t,
        Err(e) => return Err(Error::ChunkType(e)),
    };
    let mut png = Png::try_from(file)?;
    let name = ct.to_string();
    png.remove_chunk(name.as_str())?;
    Ok(png.as_bytes())
}

/// What printing the chunks of the PNG file `file` shows: each chunk's type
/// and text, in order.
pub fn print_chunks(file: &[u8]) -> (r: Result<Vec<(String, String)>, Error>)
    ensures
        match parse_png(file@) {
            Err(e) => r is Err && r->Err_0 == e,
            Ok(cs) => r is Ok && r->Ok_0@.len() == cs.len() && forall|i: int|
                0 <= i < cs.len() ==> (#[trigger] r->Ok_0@[i]).0@ == tag_chars(cs[i].tag)
                    && r->Ok_0@[i].1@ == lossy_utf8(cs[i].data),
        },
{
    let png = Png::try_from(file)?;
    let chunks = png.chunks();
    let mut lines: Vec<(String, String)> = Vec::new();
    let mut i: usize = 0;
    while i < chunks.len()
        invariant
            i <= chunks@.len(),
            crate::png::models(chunks@) == png@,
            lines@.len() == i,
            forall|j: int|
                0 <= j < i ==> (#[trigger] lines@[j]).0@ == tag_chars(png@[j].tag) && lines@[j].1@
                    == lossy_utf8(png@[j].data),
        decreases chunks@.len() - i,
    {
        let c = &chunks[i];
        let text = match c.data_as_string() {
            Ok(t) => t,
            Err(e) => return Err(e),
        };
        lines.push((c.chunk_type().to_string(), text));
        i = i + 1;
    }
    Ok(lines)
}

} // verus!
