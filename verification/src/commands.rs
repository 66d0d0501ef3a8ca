//! The three commands, as functions from the bytes of a file to what is
//! written back or shown.

use crate::args::{Decode, Encode, Remove};
use crate::chunk::{Chunk, ChunkView};
use crate::chunk_type::{
    is_type_text, lemma_type_text_is_ascii, lemma_type_text_of_code, ChunkType,
};
use crate::error::FormatError;
use crate::png::{
    all_wf, first_of_type, lemma_append_then_remove, lemma_parse_png_of_wire,
    lemma_png_wire_of_parse, lemma_records_push, parse_png, png_wire, Png,
};
use crate::text::{ascii_bytes, lemma_ascii_text_encode};
use vstd::prelude::*;
use vstd::string::*;
use vstd::utf8::*;

verus! {

/// The chunk that holds `message` under the type that `name` spells.
pub open spec fn message_chunk(name: Seq<char>, message: Seq<char>) -> ChunkView {
    ChunkView { code: ascii_bytes(name), data: encode_utf8(message) }
}

/// What encoding a message into a file gives: the file must decode and
/// the name must spell a chunk type; the result is then the file with
/// the record of the message chunk at its end.
pub open spec fn encoded(image: Seq<u8>, name: Seq<char>, message: Seq<char>) -> Result<
    Seq<u8>,
    FormatError,
> {
    match parse_png(image) {
        Err(e) => Err(e),
        Ok(_) => if is_type_text(name) {
            Ok(image + message_chunk(name, message).wire())
        } else {
            Err(FormatError::InvalidChunkType)
        },
    }
}

/// What looking up a message gives: the file must decode, hold a chunk of
/// the type, and the payload of the first such chunk must be UTF-8 text.
pub open spec fn decoded(image: Seq<u8>, name: Seq<char>) -> Result<Seq<char>, FormatError> {
    match parse_png(image) {
        Err(e) => Err(e),
        Ok(chunks) => {
            let k = first_of_type(chunks, name);
            if k == chunks.len() {
                Err(FormatError::ChunkNotFound)
            } else if !valid_utf8(chunks[k].data) {
                Err(FormatError::InvalidUtf8)
            } else {
                Ok(decode_utf8(chunks[k].data))
            }
        },
    }
}

/// What removing a chunk gives: the file must decode and hold a chunk of
/// the type; the result is the file of the other chunks, in order.
pub open spec fn deleted(image: Seq<u8>, name: Seq<char>) -> Result<Seq<u8>, FormatError> {
    match parse_png(image) {
        Err(e) => Err(e),
        Ok(chunks) => {
            let k = first_of_type(chunks, name);
            if k == chunks.len() {
                Err(FormatError::ChunkNotFound)
            } else {
                Ok(png_wire(chunks.remove(k)))
            }
        },
    }
}

/// Decodes the bytes of a file.
pub fn decode_file(bytes: &[u8]) -> (res: Result<Png, FormatError>)
    ensures
        match res {
            Ok(png) => parse_png(bytes@) == Ok::<Seq<ChunkView>, FormatError>(png@),
            Err(e) => parse_png(bytes@) == Err::<Seq<ChunkView>, FormatError>(e),
        },
{
    Png::parse(bytes)
}

/// Appends a chunk that holds the message to the file `image` and gives
/// the bytes to write to [`Encode::target`]. The message must fit the
/// 32-bit length field of a record.
pub fn encode(args: &Encode, image: &[u8]) -> (res: Result<Vec<u8>, FormatError>)
    requires
        encode_utf8(args.message@).len() <= u32::MAX,
    ensures
        match res {
            Ok(out) => encoded(image@, args.chunk_name@, args.message@) == Ok::<
                Seq<u8>,
                FormatError,
            >(out@),
            Err(e) => encoded(image@, args.chunk_name@, args.message@) == Err::<
                Seq<u8>,
                FormatError,
            >(e),
        },
{
    let mut png = decode_file(image)?;
    let chunk_type = ChunkType::from_text(args.chunk_name.as_str())?;
    let data = vstd::slice::slice_to_vec(args.message.as_str().as_bytes());
    let chunk = Chunk::new(chunk_type, data);
    proof {
        lemma_png_wire_of_parse(image@, png@);
        lemma_records_push(png@, chunk@);
        assert(png_wire(png@.push(chunk@)) =~= image@ + chunk@.wire());
    }
    png.append_chunk(chunk);
    Ok(png.to_bytes())
}

/// The message that the file `image` holds in its first chunk of the type
/// named.
pub fn decode(args: &Decode, image: &[u8]) -> (res: Result<String, FormatError>)
    ensures
        match res {
            Ok(text) => decoded(image@, args.chunk_name@) == Ok::<Seq<char>, FormatError>(text@),
            Err(e) => decoded(image@, args.chunk_name@) == Err::<Seq<char>, FormatError>(e),
        },
{
    let png = decode_file(image)?;
    match png.find_chunk_by_type(args.chunk_name.as_str()) {
        Some(chunk) => chunk.data_as_string(),
        None => Err(FormatError::ChunkNotFound),
    }
}

/// Takes the first chunk of the type named out of the file `image` and
/// gives the bytes to write back.
pub fn delete(args: &Remove, image: &[u8]) -> (res: Result<Vec<u8>, FormatError>)
    ensures
        match res {
            Ok(out) => deleted(image@, args.chunk_name@) == Ok::<Seq<u8>, FormatError>(out@),
            Err(e) => deleted(image@, args.chunk_name@) == Err::<Seq<u8>, FormatError>(e),
        },
{
    let mut png = decode_file(image)?;
    match png.remove_chunk_by_type(args.chunk_name.as_str()) {
        Ok(_) => Ok(png.to_bytes()),
        Err(e) => Err(e),
    }
}

/// What encoding adds, decoding shows and deleting takes out again: where
/// a file holds no chunk of the type yet, the file with the message
/// encoded into it decodes to the message, and deleting the chunk gives
/// the file back, byte for byte.
pub proof fn lemma_encode_then_decode_or_delete(
    image: Seq<u8>,
    name: Seq<char>,
    message: Seq<char>,
    out: Seq<u8>,
)
    requires
        encoded(image, name, message) == Ok::<Seq<u8>, FormatError>(out),
        encode_utf8(message).len() <= u32::MAX,
        first_of_type(parse_png(image)->Ok_0, name) == parse_png(image)->Ok_0.len(),
    ensures
        decoded(out, name) == Ok::<Seq<char>, FormatError>(message),
        deleted(out, name) == Ok::<Seq<u8>, FormatError>(image),
{
    let chunks = parse_png(image)->Ok_0;
    let chunk = message_chunk(name, message);
    let all = chunks.push(chunk);
    lemma_png_wire_of_parse(image, chunks);
    lemma_type_text_is_ascii(name);
    lemma_type_text_of_code(name);
    lemma_ascii_text_encode(name);
    assert(chunk.wf());
    assert(all_wf(all)) by {
        assert forall|i: int| 0 <= i < all.len() implies (#[trigger] all[i]).wf() by {
            if i < chunks.len() {
                assert(all[i] == chunks[i]);
            }
        }
    }
    lemma_records_push(chunks, chunk);
    assert(png_wire(all) =~= image + chunk.wire());
    lemma_parse_png_of_wire(all);
    lemma_append_then_remove(chunks, chunk, name);
    encode_utf8_valid_utf8(message);
    encode_utf8_decode_utf8(message);
}

} // verus!
