//! One record of a PNG stream: a type, a payload, and the checksum that
//! binds them.

use crate::checksum::{checksum_ieee, crc32_ieee};
use crate::chunk_type::{is_type_code, ChunkType};
use crate::error::FormatError;
use crate::text::{
    ascii_string, ascii_text, decimal, decode_text, is_ascii_bytes, lemma_decimal_is_ascii,
    push_decimal,
};
use crate::wire::{
    be32, be32_value, lemma_be32_of_be32_value, lemma_be32_value_of_be32, push_be32, read_be32,
};
use vstd::prelude::*;
use vstd::string::*;
use vstd::utf8::*;

verus! {

/// What a chunk is, mathematically: the bytes of its type and its payload.
pub struct ChunkView {
    pub code: Seq<u8>,
    pub data: Seq<u8>,
}

impl ChunkView {
    /// The type is four ASCII letters and the payload's length fits the
    /// 32-bit length field.
    pub open spec fn wf(self) -> bool {
        &&& is_type_code(self.code)
        &&& self.data.len() <= u32::MAX
    }

    /// The checksum of the chunk: CRC-32 over its type followed by its
    /// payload.
    pub open spec fn crc(self) -> u32 {
        crc32_ieee(self.code + self.data)
    }

    /// The record with `crc` in the checksum field: big-endian length,
    /// type, payload, big-endian checksum.
    pub open spec fn record(self, crc: u32) -> Seq<u8> {
        be32(self.data.len() as u32) + self.code + self.data + be32(crc)
    }

    /// The record as it stands in a file: with the chunk's own checksum.
    pub open spec fn wire(self) -> Seq<u8> {
        self.record(self.crc())
    }
}

/// What framing the record at the front of `buf` yields: the chunk and the
/// checksum that the record declares, not yet held against each other.
///
/// The record needs at least twelve bytes: length, type and checksum. The
/// length field then says how many payload bytes lie between type and
/// checksum. Whatever follows the record is not looked at.
pub open spec fn frame_record(buf: Seq<u8>) -> Result<(ChunkView, u32), FormatError> {
    if buf.len() < 12 {
        Err(FormatError::Truncated)
    } else {
        let n = be32_value(buf.subrange(0, 4)) as int;
        let chunk = ChunkView { code: buf.subrange(4, 8), data: buf.subrange(8, 8 + n) };
        if buf.len() < 12 + n {
            Err(FormatError::Truncated)
        } else if !is_type_code(chunk.code) {
            Err(FormatError::InvalidChunkType)
        } else {
            Ok((chunk, be32_value(buf.subrange(8 + n, 12 + n))))
        }
    }
}

/// The chunk if the checksum computed over it is the one declared.
pub open spec fn sealed(chunk: ChunkView, computed: u32, declared: u32) -> Result<
    ChunkView,
    FormatError,
> {
    if computed == declared {
        Ok(chunk)
    } else {
        Err(FormatError::CrcMismatch)
    }
}

/// What decoding the record at the front of `buf` yields: the chunk
/// framed there, if its checksum is the one that the record declares.
pub open spec fn parse_record(buf: Seq<u8>) -> Result<ChunkView, FormatError> {
    match frame_record(buf) {
        Ok((chunk, declared)) => sealed(chunk, chunk.crc(), declared),
        Err(e) => Err(e),
    }
}

/// A chunk: its type and its payload. The checksum is computed on demand.
#[derive(Debug, PartialEq, Eq)]
pub struct Chunk {
    chunk_type: ChunkType,
    data: Vec<u8>,
}

impl View for Chunk {
    type V = ChunkView;

    closed spec fn view(&self) -> ChunkView {
        ChunkView { code: self.chunk_type@, data: self.data@ }
    }
}

impl Chunk {
    /// Every chunk has a well-formed type and a payload that fits the
    /// 32-bit length field.
    #[verifier::type_invariant]
    pub open spec fn well_formed(&self) -> bool {
        self@.wf()
    }

    /// Joins a type and a payload. The payload must fit the 32-bit length
    /// field of a record.
    pub fn new(chunk_type: ChunkType, data: Vec<u8>) -> (chunk: Chunk)
        requires
            data@.len() <= u32::MAX,
        ensures
            chunk@ == (ChunkView { code: chunk_type@, data: data@ }),
            chunk@.wf(),
    {
        proof {
            use_type_invariant(&chunk_type);
        }
        Chunk { chunk_type, data }
    }

    /// The number of payload bytes.
    pub fn length(&self) -> (n: u32)
        ensures
            n == self@.data.len(),
    {
        proof {
            use_type_invariant(self);
        }
        self.data.len() as u32
    }

    /// The type of the chunk.
    pub fn chunk_type(&self) -> (t: &ChunkType)
        ensures
            t@ == self@.code,
    {
        &self.chunk_type
    }

    /// The payload.
    pub fn data(&self) -> (d: &[u8])
        ensures
            d@ == self@.data,
    {
        self.data.as_slice()
    }

    /// The checksum of the chunk, computed anew over type and payload.
    pub fn crc(&self) -> (sum: u32)
        ensures
            sum == self@.crc(),
    {
        let code = self.chunk_type.bytes();
        let mut check: Vec<u8> = Vec::new();
        check.extend_from_slice(code.as_slice());
        check.extend_from_slice(self.data.as_slice());
        assert(check@ =~= self@.code + self@.data);
        checksum_ieee(check.as_slice())
    }

    /// The payload read as UTF-8 text.
    pub fn data_as_string(&self) -> (res: Result<String, FormatError>)
        ensures
            match res {
                Ok(s) => valid_utf8(self@.data) && s@ == decode_utf8(self@.data),
                Err(e) => !valid_utf8(self@.data) && e == FormatError::InvalidUtf8,
            },
    {
        match decode_text(self.data.as_slice()) {
            Some(s) => Ok(s),
            None => Err(FormatError::InvalidUtf8),
        }
    }

    /// The chunk as a line of text: the payload read as UTF-8, then the
    /// length in decimal, then the four letters of the type.
    pub fn to_string(&self) -> (res: Result<String, FormatError>)
        ensures
            match res {
                Ok(s) => valid_utf8(self@.data) && s@ == decode_utf8(self@.data) + ascii_text(
                    decimal(self@.data.len()),
                ) + ascii_text(self@.code),
                Err(e) => !valid_utf8(self@.data) && e == FormatError::InvalidUtf8,
            },
    {
        let text = self.data_as_string()?;
        let code = self.chunk_type.bytes();
        let mut tail: Vec<u8> = Vec::new();
        push_decimal(&mut tail, self.length());
        tail.extend_from_slice(code.as_slice());
        proof {
            lemma_decimal_is_ascii(self@.data.len());
            assert(tail@ =~= decimal(self@.data.len()) + self@.code);
            assert(is_ascii_bytes(tail@));
            assert(ascii_text(tail@) =~= ascii_text(decimal(self@.data.len())) + ascii_text(
                self@.code,
            ));
        }
        let tail_text = ascii_string(tail.as_slice());
        let line = text.concat(tail_text.as_str());
        assert(line@ =~= decode_utf8(self@.data) + ascii_text(decimal(self@.data.len()))
            + ascii_text(self@.code));
        Ok(line)
    }

    /// The record of the chunk with `crc` in the checksum field.
    pub fn record(&self, crc: u32) -> (out: Vec<u8>)
        ensures
            out@ == self@.record(crc),
    {
        let code = self.chunk_type.bytes();
        let mut out: Vec<u8> = Vec::new();
        push_be32(&mut out, self.length());
        out.extend_from_slice(code.as_slice());
        out.extend_from_slice(self.data.as_slice());
        push_be32(&mut out, crc);
        assert(out@ =~= self@.record(crc));
        out
    }

    /// The record of the chunk: big-endian length, type, payload and
    /// big-endian checksum.
    pub fn as_bytes(&self) -> (out: Vec<u8>)
        ensures
            out@ == self@.wire(),
    {
        self.record(self.crc())
    }

    /// Frames the record at the front of `buf`: reads length, type,
    /// payload and the declared checksum, without holding the checksum
    /// against the content.
    pub fn frame(buf: &[u8]) -> (res: Result<(Chunk, u32), FormatError>)
        ensures
            match res {
                Ok((chunk, declared)) => frame_record(buf@) == Ok::<(ChunkView, u32), FormatError>(
                    (chunk@, declared),
                ),
                Err(e) => frame_record(buf@) == Err::<(ChunkView, u32), FormatError>(e),
            },
    {
        if buf.len() < 12 {
            return Err(FormatError::Truncated);
        }
        let length = read_be32(buf, 0);
        let n: usize = length as usize;
        if buf.len() - 12 < n {
            return Err(FormatError::Truncated);
        }
        let code: [u8; 4] = [buf[4], buf[5], buf[6], buf[7]];
        assert(code@ =~= buf@.subrange(4, 8));
        let chunk_type = ChunkType::from_bytes(code)?;
        let data = vstd::slice::slice_to_vec(&buf[8..8 + n]);
        let declared = read_be32(buf, 8 + n);
        Ok((Chunk::new(chunk_type, data), declared))
    }

    /// Gives the chunk back if the checksum computed over it is the one
    /// that its record declared.
    pub fn seal(self, computed: u32, declared: u32) -> (res: Result<Chunk, FormatError>)
        ensures
            match res {
                Ok(chunk) => chunk == self && sealed(self@, computed, declared) == Ok::<
                    ChunkView,
                    FormatError,
                >(self@),
                Err(e) => sealed(self@, computed, declared) == Err::<ChunkView, FormatError>(e),
            },
    {
        if computed == declared {
            Ok(self)
        } else {
            Err(FormatError::CrcMismatch)
        }
    }

    /// Decodes the record at the front of `buf`. Bytes after the record are
    /// left alone: the record read is `12 + length()` bytes long.
    pub fn parse(buf: &[u8]) -> (res: Result<Chunk, FormatError>)
        ensures
            match res {
                Ok(chunk) => parse_record(buf@) == Ok::<ChunkView, FormatError>(chunk@),
                Err(e) => parse_record(buf@) == Err::<ChunkView, FormatError>(e),
            },
    {
        let (chunk, declared) = Chunk::frame(buf)?;
        let computed = chunk.crc();
        chunk.seal(computed, declared)
    }
}

/// Decoding reads back what encoding wrote: the record of a well-formed
/// chunk, whatever bytes follow it, decodes to that chunk.
pub proof fn lemma_parse_record_of_wire(chunk: ChunkView, rest: Seq<u8>)
    requires
        chunk.wf(),
    ensures
        chunk.wire().len() == 12 + chunk.data.len(),
        parse_record(chunk.wire() + rest) == Ok::<ChunkView, FormatError>(chunk),
{
    let n = chunk.data.len() as int;
    let buf = chunk.wire() + rest;
    lemma_be32_value_of_be32(n as u32);
    lemma_be32_value_of_be32(chunk.crc());
    assert(buf.subrange(0, 4) =~= be32(n as u32));
    assert(buf.subrange(4, 8) =~= chunk.code);
    assert(buf.subrange(8, 8 + n) =~= chunk.data);
    assert(buf.subrange(8 + n, 12 + n) =~= be32(chunk.crc()));
}

/// Encoding writes back what decoding read: where a buffer decodes to a
/// chunk, the chunk is well formed and its record is the front of the
/// buffer, byte for byte.
pub proof fn lemma_wire_of_parse_record(buf: Seq<u8>, chunk: ChunkView)
    requires
        parse_record(buf) == Ok::<ChunkView, FormatError>(chunk),
    ensures
        chunk.wf(),
        12 + chunk.data.len() <= buf.len(),
        buf.subrange(0, 12 + chunk.data.len() as int) == chunk.wire(),
{
    let n = be32_value(buf.subrange(0, 4)) as int;
    assert(chunk.data.len() == n);
    lemma_be32_of_be32_value(buf.subrange(0, 4));
    lemma_be32_of_be32_value(buf.subrange(8 + n, 12 + n));
    assert(buf.subrange(0, 12 + n) =~= chunk.wire());
}

/// A record whose type or payload was changed in place, while length and
/// checksum were left as they stood, is rejected for its checksum as soon
/// as the checksum of the new content differs from the one left in place.
pub proof fn lemma_stale_checksum_is_rejected(
    intact: ChunkView,
    changed: ChunkView,
    rest: Seq<u8>,
)
    requires
        intact.wf(),
        changed.wf(),
        changed.data.len() == intact.data.len(),
        changed.crc() != intact.crc(),
    ensures
        parse_record(
            be32(intact.data.len() as u32) + changed.code + changed.data + be32(intact.crc())
                + rest,
        ) == Err::<ChunkView, FormatError>(FormatError::CrcMismatch),
{
    let n = intact.data.len() as int;
    let buf = be32(n as u32) + changed.code + changed.data + be32(intact.crc()) + rest;
    lemma_be32_value_of_be32(n as u32);
    lemma_be32_value_of_be32(intact.crc());
    assert(buf.subrange(0, 4) =~= be32(n as u32));
    assert(buf.subrange(4, 8) =~= changed.code);
    assert(buf.subrange(8, 8 + n) =~= changed.data);
    assert(buf.subrange(8 + n, 12 + n) =~= be32(intact.crc()));
}

/// Fewer than twelve bytes never hold a record.
pub proof fn lemma_short_record_is_truncated(buf: Seq<u8>)
    requires
        buf.len() < 12,
    ensures
        parse_record(buf) == Err::<ChunkView, FormatError>(FormatError::Truncated),
{
}

/// The record of a chunk without payload is exactly twelve bytes long and
/// decodes to that chunk.
pub proof fn lemma_empty_payload_record(code: Seq<u8>)
    requires
        is_type_code(code),
    ensures
        (ChunkView { code, data: Seq::empty() }).wire().len() == 12,
        parse_record((ChunkView { code, data: Seq::empty() }).wire()) == Ok::<
            ChunkView,
            FormatError,
        >(ChunkView { code, data: Seq::empty() }),
{
    let chunk = ChunkView { code, data: Seq::empty() };
    lemma_parse_record_of_wire(chunk, Seq::empty());
    assert(chunk.wire() + Seq::<u8>::empty() =~= chunk.wire());
}

} // verus!
