//! The four operations that a user asks for: hide a message in a new chunk,
//! read a message back, take a chunk out, and dump the stream. Each works on
//! a stream held in memory; reading and writing files is the caller's
//! business.

use crate::chunk::{chunk_of, Chunk, ChunkError, ChunkView};
use crate::chunk_type::{checked_code, ChunkType, ChunkTypeError};
use crate::png::{found_chunk, png_text, without_first, Png, PngError};
use vstd::prelude::*;
use vstd::slice::slice_to_vec;
use vstd::string::*;
use vstd::utf8::{decode_utf8, encode_utf8_decode_utf8, valid_utf8};

verus! {

/// Why an operation on a stream failed.
#[derive(Debug, PartialEq, Eq)]
pub enum CommandsError {
    /// The chunk to remove is not in the stream.
    Png(PngError),
    /// The message does not fit a chunk, or the payload is no text.
    Chunk(ChunkError),
    /// The chunk type that was asked for is no valid code.
    ChunkType(ChunkTypeError),
    /// No chunk has the type whose message was asked for.
    ChunkNotFound(String),
}

/// What hiding `message` under the type spelled `name` does to a stream that
/// holds `chunks`: the chunks afterwards, or the reason to refuse.
pub open spec fn encoded(chunks: Seq<ChunkView>, name: Seq<u8>, message: Seq<u8>) -> Result<
    Seq<ChunkView>,
    CommandsError,
> {
    match checked_code(name) {
        Err(e) => Err(CommandsError::ChunkType(e)),
        Ok(code) => if message.len() > Chunk::MAX_DATA_SIZE {
            Err(CommandsError::Chunk(ChunkError::TooLarge { size: message.len() as usize }))
        } else {
            Ok(chunks.push(chunk_of(code, message)))
        },
    }
}

/// Appends a chunk of type `chunk_type` that carries `message`. The type is
/// checked before anything is added, and a message longer than a chunk can
/// hold is refused; a stream that was refused stays as it is.
pub fn encode(png: &mut Png, chunk_type: &str, message: &str) -> (r: Result<(), CommandsError>)
    ensures
        final(png).wf(),
        match r {
            Ok(_) => encoded(old(png)@, chunk_type.spec_bytes(), message.spec_bytes()) == Ok::<
                Seq<ChunkView>,
                CommandsError,
            >(final(png)@),
            Err(e) => {
                &&& encoded(old(png)@, chunk_type.spec_bytes(), message.spec_bytes()) == Err::<
                    Seq<ChunkView>,
                    CommandsError,
                >(e)
                &&& final(png)@ == old(png)@
            },
        },
{
    proof {
        use_type_invariant(&*png);
    }
    let code: ChunkType = match ChunkType::from_str(chunk_type) {
        Ok(code) => code,
        Err(e) => {
            return Err(CommandsError::ChunkType(e));
        },
    };
    let payload: &[u8] = message.as_bytes();
    if payload.len() > Chunk::MAX_DATA_SIZE {
        return Err(CommandsError::Chunk(ChunkError::TooLarge { size: payload.len() }));
    }
    let chunk: Chunk = Chunk::new(code, slice_to_vec(payload));
    png.append_chunk(chunk);
    Ok(())
}

/// Returns the text carried by the first chunk of type `chunk_type`.
pub fn decode(png: &Png, chunk_type: &str) -> (r: Result<String, CommandsError>)
    ensures
        match found_chunk(png@, chunk_type.spec_bytes()) {
            None => r matches Err(CommandsError::ChunkNotFound(name)) && name@ == chunk_type@,
            Some(c) => if valid_utf8(c.data) {
                r matches Ok(text) && text@ == decode_utf8(c.data)
            } else {
                r matches Err(CommandsError::Chunk(ChunkError::InvalidUtf8(_)))
            },
        },
{
    let chunk: &Chunk = match png.chunk_by_type(chunk_type) {
        Some(chunk) => chunk,
        None => {
            return Err(CommandsError::ChunkNotFound(chunk_type.to_owned()));
        },
    };
    match chunk.data_as_str() {
        Ok(text) => {
            proof {
                encode_utf8_decode_utf8(text@);
            }
            Ok(text.to_owned())
        },
        Err(e) => Err(CommandsError::Chunk(e)),
    }
}

/// Takes out the first chunk of type `chunk_type`. When there is none the
/// stream stays as it is.
pub fn remove(png: &mut Png, chunk_type: &str) -> (r: Result<(), CommandsError>)
    ensures
        final(png).wf(),
        match without_first(old(png)@, chunk_type.spec_bytes()) {
            None => {
                &&& r matches Err(CommandsError::Png(PngError::ChunkNotFound(name)))
                &&& name@ == chunk_type@
                &&& final(png)@ == old(png)@
            },
            Some(left) => r == Ok::<(), CommandsError>(()) && final(png)@ == left,
        },
{
    match png.remove_first_chunk(chunk_type) {
        Ok(_) => Ok(()),
        Err(e) => Err(CommandsError::Png(e)),
    }
}

/// Returns the dump of the stream.
pub fn print(png: &Png) -> (r: String)
    ensures
        r@ == png_text(png@),
{
    png.to_string()
}

/// The file name `stem_suffix.extension`.
pub open spec fn output_name(stem: Seq<char>, suffix: Seq<char>, extension: Seq<char>) -> Seq<
    char,
> {
    stem + seq!['_'] + suffix + seq!['.'] + extension
}

/// The name under which a changed file is written when none is given: the
/// input's stem, an underscore, `suffix`, a dot and the input's extension.
pub fn default_output_name(stem: &str, suffix: &str, extension: &str) -> (r: String)
    ensures
        r@ == output_name(stem@, suffix@, extension@),
{
    proof {
        reveal_strlit("_");
        reveal_strlit(".");
    }
    let mut name: String = stem.to_owned();
    name.append("_");
    name.append(suffix);
    name.append(".");
    name.append(extension);
    assert(name@ =~= output_name(stem@, suffix@, extension@));
    name
}

} // verus!
