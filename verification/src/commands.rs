//! The four operations on a container held as bytes: putting a message in,
//! reading one out, taking a chunk out, and listing the chunks.

use crate::chunk::{Chunk, ChunkView};
use crate::chunk_type::{text_error, valid_tag, ChunkType, ParseChunkTypeError};
use crate::png::{
    encode_png, is_first_match, lemma_encode_parsed, lemma_encode_push, no_match, parse_png, Png,
    RemoveChunkError, TryFromSliceError,
};
use vstd::prelude::*;
use vstd::slice::slice_to_vec;
use vstd::string::StringSliceAdditionalSpecFns;
use vstd::utf8::{decode_utf8, valid_utf8};

verus! {

/// Why an operation that changes a container did not give a new one.
#[derive(Debug)]
pub enum CommandError {
    /// The bytes are no container.
    Png(TryFromSliceError),
    /// The text given as a chunk type is none.
    ChunkType(ParseChunkTypeError),
    /// There is no chunk to take out.
    Remove(RemoveChunkError),
}

/// What looking for a message found.
#[derive(Debug)]
pub enum Decoded {
    /// Some chunk has the type asked for; this is the first.
    Found {
        /// The chunk, described on a line for each value.
        chunk: String,
        /// Its payload as text, where it is valid UTF-8.
        message: Result<String, std::string::FromUtf8Error>,
    },
    /// No chunk has the type asked for.
    NotFound,
}

/// Puts a message into a container: the result is the container `contents`
/// with one more chunk at its end, of type `chunk_type` and with the bytes of
/// `message` as its payload. Bytes that are no container are refused first,
/// then a text that is no chunk type.
pub fn encode(contents: &[u8], chunk_type: &str, message: &str) -> (r: Result<
    Vec<u8>,
    CommandError,
>)
    requires
        message.spec_bytes().len() <= u32::MAX,
    ensures
        match parse_png(contents@) {
            Err(e) => r == Err::<Vec<u8>, _>(CommandError::Png(e)),
            Ok(chunks) => if valid_tag(chunk_type.spec_bytes()) {
                let added = ChunkView::create(chunk_type.spec_bytes(), message.spec_bytes());
                &&& r matches Ok(out)
                &&& out@ == encode_png(chunks.push(added))
                &&& out@ == contents@ + added.to_bytes()
            } else {
                r == Err::<Vec<u8>, _>(
                    CommandError::ChunkType(text_error(chunk_type.spec_bytes())),
                )
            },
        },
{
    let mut png = match Png::try_from(contents) {
        Ok(png) => png,
        Err(e) => {
            return Err(CommandError::Png(e));
        },
    };
    let chunk_type = match ChunkType::from_str(chunk_type) {
        Ok(t) => t,
        Err(e) => {
            return Err(CommandError::ChunkType(e));
        },
    };
    let chunk = Chunk::new(chunk_type, slice_to_vec(message.as_bytes()));
    proof {
        lemma_encode_parsed(contents@);
        lemma_encode_push(png@, chunk@);
        assert(contents@ + chunk@.to_bytes() =~= encode_png(png@.push(chunk@)));
    }
    png.append_chunk(chunk);
    Ok(png.as_bytes())
}

/// Looks for a message in a container: finds the first chunk of `contents`
/// whose type reads as `chunk_type`, and gives its description and its
/// payload as text.
pub fn decode(contents: &[u8], chunk_type: &str) -> (r: Result<Decoded, TryFromSliceError>)
    ensures
        match parse_png(contents@) {
            Err(e) => r == Err::<Decoded, _>(e),
            Ok(chunks) => {
                &&& r matches Ok(found)
                &&& found is NotFound <==> no_match(chunks, chunk_type@)
                &&& found matches Decoded::Found { chunk, message } ==> exists|i: int|
                    #![trigger chunks[i]]
                    {
                        &&& is_first_match(chunks, chunk_type@, i)
                        &&& chunk@ == chunks[i].pretty_text()
                        &&& message is Ok <==> valid_utf8(chunks[i].data)
                        &&& message matches Ok(m) ==> m@ == decode_utf8(chunks[i].data)
                    }
            },
        },
{
    let png = match Png::try_from(contents) {
        Ok(png) => png,
        Err(e) => {
            return Err(e);
        },
    };
    match png.chunk_by_type(chunk_type) {
        Some(chunk) => Ok(
            Decoded::Found { chunk: chunk.to_string_pretty(), message: chunk.data_as_string() },
        ),
        None => Ok(Decoded::NotFound),
    }
}

/// Takes a chunk out of a container: the result is the container `contents`
/// without the first chunk whose type reads as `chunk_type`. Bytes that are
/// no container are refused first, then a type that no chunk has.
pub fn remove(contents: &[u8], chunk_type: &str) -> (r: Result<Vec<u8>, CommandError>)
    ensures
        match parse_png(contents@) {
            Err(e) => r == Err::<Vec<u8>, _>(CommandError::Png(e)),
            Ok(chunks) => if no_match(chunks, chunk_type@) {
                r == Err::<Vec<u8>, _>(CommandError::Remove(RemoveChunkError::ChunkNotFound))
            } else {
                &&& r matches Ok(out)
                &&& exists|i: int|
                    #![trigger chunks[i]]
                    is_first_match(chunks, chunk_type@, i) && out@ == encode_png(chunks.remove(i))
            },
        },
{
    let mut png = match Png::try_from(contents) {
        Ok(png) => png,
        Err(e) => {
            return Err(CommandError::Png(e));
        },
    };
    match png.remove_first_chunk(chunk_type) {
        Ok(_) => Ok(png.as_bytes()),
        Err(e) => Err(CommandError::Remove(e)),
    }
}

/// Lists a container: the description of each chunk of `contents`, on a line
/// for each value, in the order of the chunks.
pub fn print(contents: &[u8]) -> (r: Result<Vec<String>, TryFromSliceError>)
    ensures
        match parse_png(contents@) {
            Err(e) => r == Err::<Vec<String>, _>(e),
            Ok(chunks) => {
                &&& r matches Ok(lines)
                &&& lines@.len() == chunks.len()
                &&& forall|i: int|
                    0 <= i < chunks.len() ==> (#[trigger] lines@[i])@ == chunks[i].pretty_text()
            },
        },
{
    let png = match Png::try_from(contents) {
        Ok(png) => png,
        Err(e) => {
            return Err(e);
        },
    };
    let chunks = png.chunks();
    let mut lines: Vec<String> = Vec::new();
    let mut i: usize = 0;
    while i < chunks.len()
        invariant
            0 <= i <= chunks@.len(),
            crate::png::chunk_views(chunks@) == png@,
            lines@.len() == i,
            forall|j: int| 0 <= j < i ==> (#[trigger] lines@[j])@ == png@[j].pretty_text(),
        decreases chunks@.len() - i,
    {
        assert(png@[i as int] == chunks@[i as int]@);
        lines.push(chunks[i].to_string_pretty());
        i += 1;
    }
    Ok(lines)
}

} // verus!
