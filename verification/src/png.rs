//! A whole PNG file: the signature followed by chunks, in order.

use crate::chunk::{
    lemma_parse_record_of_wire, lemma_wire_of_parse_record, parse_record, Chunk, ChunkView,
};
use crate::error::FormatError;
use crate::text::ascii_text;
use vstd::prelude::*;

verus! {

/// The eight bytes with which every PNG file begins.
pub const SIGNATURE: [u8; 8] = [0x89, 0x50, 0x4e, 0x47, 0x0d, 0x0a, 0x1a, 0x0a];

/// The signature as a sequence.
pub open spec fn signature() -> Seq<u8> {
    seq![0x89u8, 0x50u8, 0x4eu8, 0x47u8, 0x0du8, 0x0au8, 0x1au8, 0x0au8]
}

/// Every chunk of the sequence is well formed.
pub open spec fn all_wf(chunks: Seq<ChunkView>) -> bool {
    forall|i: int| 0 <= i < chunks.len() ==> (#[trigger] chunks[i]).wf()
}

/// The records of the chunks, one after the other.
pub open spec fn records(chunks: Seq<ChunkView>) -> Seq<u8>
    decreases chunks.len(),
{
    if chunks.len() == 0 {
        Seq::empty()
    } else {
        chunks[0].wire() + records(chunks.drop_first())
    }
}

/// The file that holds the chunks: the signature, then their records.
pub open spec fn png_wire(chunks: Seq<ChunkView>) -> Seq<u8> {
    signature() + records(chunks)
}

/// `head` put in front of a decoded tail; an error in the tail stands.
pub open spec fn prepend(head: Seq<ChunkView>, tail: Result<Seq<ChunkView>, FormatError>) -> Result<
    Seq<ChunkView>,
    FormatError,
> {
    match tail {
        Ok(rest) => Ok(head + rest),
        Err(e) => Err(e),
    }
}

/// What decoding `buf` as a run of records yields: record after record
/// until the bytes are used up. The first record that fails to decode
/// fails the run, as do bytes at the end that do not make up a record.
pub open spec fn parse_records(buf: Seq<u8>) -> Result<Seq<ChunkView>, FormatError>
    decreases buf.len(),
    via parse_records_decreases
{
    if buf.len() == 0 {
        Ok(Seq::empty())
    } else {
        match parse_record(buf) {
            Ok(chunk) => prepend(seq![chunk], parse_records(buf.skip(12 + chunk.data.len() as int))),
            Err(e) => Err(e),
        }
    }
}

#[via_fn]
proof fn parse_records_decreases(buf: Seq<u8>) {
    if let Ok(chunk) = parse_record(buf) {
        lemma_wire_of_parse_record(buf, chunk);
    }
}

/// What decoding `buf` as a PNG file yields: the signature must come
/// first, and everything after it must be a run of records.
pub open spec fn parse_png(buf: Seq<u8>) -> Result<Seq<ChunkView>, FormatError> {
    if buf.len() < 8 {
        Err(FormatError::Truncated)
    } else if buf.subrange(0, 8) != signature() {
        Err(FormatError::BadSignature)
    } else {
        parse_records(buf.skip(8))
    }
}

/// The chunk has the type that `name` spells.
pub open spec fn has_type(chunk: ChunkView, name: Seq<char>) -> bool {
    ascii_text(chunk.code) == name
}

/// The index of the first chunk of the type that `name` spells, or the
/// length of the sequence if there is none.
pub open spec fn first_of_type(chunks: Seq<ChunkView>, name: Seq<char>) -> int
    decreases chunks.len(),
{
    if chunks.len() == 0 {
        0
    } else if has_type(chunks[0], name) {
        0
    } else {
        1 + first_of_type(chunks.drop_first(), name)
    }
}

/// A PNG file in memory: its chunks, in file order.
#[derive(Debug, PartialEq, Eq)]
pub struct Png {
    chunks: Vec<Chunk>,
}

impl View for Png {
    type V = Seq<ChunkView>;

    closed spec fn view(&self) -> Seq<ChunkView> {
        Seq::new(self.chunks@.len(), |i: int| self.chunks@[i]@)
    }
}

impl Png {
    /// Every chunk held is well formed.
    #[verifier::type_invariant]
    pub open spec fn well_formed(&self) -> bool {
        all_wf(self@)
    }

    /// A file without chunks.
    pub fn new() -> (png: Png)
        ensures
            png@ == Seq::<ChunkView>::empty(),
    {
        let png = Png { chunks: Vec::new() };
        assert(png@ =~= Seq::<ChunkView>::empty());
        png
    }

    /// Puts `chunk` after the chunks already held.
    pub fn append_chunk(&mut self, chunk: Chunk)
        ensures
            final(self)@ == old(self)@.push(chunk@),
    {
        proof {
            use_type_invariant(&*self);
            use_type_invariant(&chunk);
        }
        let mut chunks: Vec<Chunk> = Vec::new();
        std::mem::swap(&mut chunks, &mut self.chunks);
        chunks.push(chunk);
        assert forall|i: int| 0 <= i < chunks@.len() implies (#[trigger] chunks@[i])@.wf() by {
            if i < old(self)@.len() {
                assert(old(self)@[i].wf());
            }
        }
        self.chunks = chunks;
        assert(self@ =~= old(self)@.push(chunk@));
    }

    /// The chunks, in file order.
    pub fn chunks(&self) -> (chunks: &[Chunk])
        ensures
            chunks@.len() == self@.len(),
            forall|i: int| 0 <= i < chunks@.len() ==> (#[trigger] chunks@[i])@ == self@[i],
    {
        self.chunks.as_slice()
    }

    /// The position of the first chunk of the type that `name` spells, or
    /// the number of chunks if there is none.
    fn position(&self, name: &str) -> (k: usize)
        ensures
            k == first_of_type(self@, name@),
            k <= self@.len(),
    {
        let mut i: usize = 0;
        while i < self.chunks.len()
            invariant
                i <= self.chunks@.len(),
                forall|j: int| 0 <= j < i ==> !has_type(#[trigger] self@[j], name@),
            decreases self.chunks@.len() - i,
        {
            if self.chunks[i].chunk_type().has_text(name) {
                proof {
                    lemma_first_of_type_unique(self@, name@, i as int);
                }
                return i;
            }
            i += 1;
        }
        proof {
            lemma_first_of_type_unique(self@, name@, i as int);
        }
        i
    }

    /// The first chunk, in file order, of the type that `name` spells.
    pub fn find_chunk_by_type(&self, name: &str) -> (res: Option<&Chunk>)
        ensures
            match res {
                Some(chunk) => first_of_type(self@, name@) < self@.len() && chunk@
                    == self@[first_of_type(self@, name@)],
                None => first_of_type(self@, name@) == self@.len(),
            },
    {
        let k = self.position(name);
        if k < self.chunks.len() {
            Some(&self.chunks[k])
        } else {
            None
        }
    }

    /// Takes out the first chunk, in file order, of the type that `name`
    /// spells. The chunks that stay keep their order.
    pub fn remove_chunk_by_type(&mut self, name: &str) -> (res: Result<Chunk, FormatError>)
        ensures
            match res {
                Ok(chunk) => {
                    &&& first_of_type(old(self)@, name@) < old(self)@.len()
                    &&& chunk@ == old(self)@[first_of_type(old(self)@, name@)]
                    &&& final(self)@ == old(self)@.remove(first_of_type(old(self)@, name@))
                },
                Err(e) => {
                    &&& first_of_type(old(self)@, name@) == old(self)@.len()
                    &&& e == FormatError::ChunkNotFound
                    &&& final(self)@ == old(self)@
                },
            },
    {
        proof {
            use_type_invariant(&*self);
        }
        let k = self.position(name);
        if k >= self.chunks.len() {
            return Err(FormatError::ChunkNotFound);
        }
        let mut chunks: Vec<Chunk> = Vec::new();
        std::mem::swap(&mut chunks, &mut self.chunks);
        let chunk = chunks.remove(k);
        assert forall|i: int| 0 <= i < chunks@.len() implies (#[trigger] chunks@[i])@.wf() by {
            if i < k {
                assert(old(self)@[i].wf());
            } else {
                assert(old(self)@[i + 1].wf());
            }
        }
        self.chunks = chunks;
        assert(self@ =~= old(self)@.remove(k as int));
        Ok(chunk)
    }

    /// The file: the signature, then the record of each chunk in order.
    pub fn to_bytes(&self) -> (out: Vec<u8>)
        ensures
            out@ == png_wire(self@),
    {
        let mut out: Vec<u8> = Vec::new();
        out.extend_from_slice(SIGNATURE.as_slice());
        assert(out@ =~= signature());
        assert(self@.take(0) =~= Seq::<ChunkView>::empty());
        let mut i: usize = 0;
        while i < self.chunks.len()
            invariant
                i <= self.chunks@.len(),
                out@ == signature() + records(self@.take(i as int)),
            decreases self.chunks@.len() - i,
        {
            let record = self.chunks[i].as_bytes();
            out.extend_from_slice(record.as_slice());
            proof {
                lemma_records_push(self@.take(i as int), self@[i as int]);
                assert(self@.take(i as int).push(self@[i as int]) =~= self@.take(i + 1));
                assert(out@ =~= signature() + records(self@.take(i + 1)));
            }
            i += 1;
        }
        assert(self@.take(i as int) =~= self@);
        out
    }

    /// Decodes a whole file. The bytes must start with the signature and
    /// go on as records up to the very end; the chunks come in file order.
    pub fn parse(buf: &[u8]) -> (res: Result<Png, FormatError>)
        ensures
            match res {
                Ok(png) => parse_png(buf@) == Ok::<Seq<ChunkView>, FormatError>(png@),
                Err(e) => parse_png(buf@) == Err::<Seq<ChunkView>, FormatError>(e),
            },
    {
        if buf.len() < 8 {
            return Err(FormatError::Truncated);
        }
        let mut s: usize = 0;
        while s < 8
            invariant
                s <= 8 <= buf@.len(),
                forall|j: int| 0 <= j < s ==> buf@[j] == signature()[j],
            decreases 8 - s,
        {
            if buf[s] != SIGNATURE[s] {
                assert(buf@.subrange(0, 8)[s as int] != signature()[s as int]);
                return Err(FormatError::BadSignature);
            }
            s += 1;
        }
        assert(buf@.subrange(0, 8) =~= signature());
        let mut chunks: Vec<Chunk> = Vec::new();
        let mut pos: usize = 8;
        let ghost mut done: Seq<ChunkView> = Seq::empty();
        while pos < buf.len()
            invariant
                8 <= pos <= buf@.len(),
                buf@.subrange(0, 8) == signature(),
                done.len() == chunks@.len(),
                forall|i: int| 0 <= i < done.len() ==> done[i] == (#[trigger] chunks@[i])@,
                all_wf(done),
                parse_records(buf@.skip(8)) == prepend(done, parse_records(buf@.skip(pos as int))),
            decreases buf@.len() - pos,
        {
            let rest = &buf[pos..buf.len()];
            assert(rest@ =~= buf@.skip(pos as int));
            match Chunk::parse(rest) {
                Ok(chunk) => {
                    proof {
                        use_type_invariant(&chunk);
                        lemma_wire_of_parse_record(rest@, chunk@);
                        let step = 12 + chunk@.data.len() as int;
                        assert(rest@.skip(step) =~= buf@.skip(pos + step));
                        let tail = parse_records(buf@.skip(pos + step));
                        assert(prepend(done, prepend(seq![chunk@], tail)) == prepend(
                            done.push(chunk@),
                            tail,
                        )) by {
                            if let Ok(t) = tail {
                                assert(done + (seq![chunk@] + t) =~= done.push(chunk@) + t);
                            }
                        }
                        done = done.push(chunk@);
                    }
                    pos = pos + 12 + chunk.length() as usize;
                    chunks.push(chunk);
                },
                Err(e) => {
                    assert(parse_records(rest@) == Err::<Seq<ChunkView>, FormatError>(e));
                    return Err(e);
                },
            }
        }
        assert(buf@.skip(pos as int) =~= Seq::<u8>::empty());
        let png = Png { chunks };
        assert(png@ =~= done);
        assert(done + Seq::<ChunkView>::empty() =~= done);
        Ok(png)
    }
}

/// The records of a sequence with one more chunk at the end are the
/// records of the sequence followed by the record of that chunk.
pub proof fn lemma_records_push(chunks: Seq<ChunkView>, last: ChunkView)
    ensures
        records(chunks.push(last)) == records(chunks) + last.wire(),
    decreases chunks.len(),
{
    let all = chunks.push(last);
    if chunks.len() == 0 {
        assert(all.drop_first() =~= Seq::<ChunkView>::empty());
        assert(records(all.drop_first()) =~= Seq::<u8>::empty());
        assert(records(all) =~= last.wire());
        assert(records(chunks) + last.wire() =~= last.wire());
    } else {
        lemma_records_push(chunks.drop_first(), last);
        assert(all.drop_first() =~= chunks.drop_first().push(last));
        assert(records(all) =~= records(chunks) + last.wire());
    }
}

/// What [`first_of_type`] finds: an index within the sequence or its
/// length; no chunk before it has the type; if it is an index, the chunk
/// there has the type.
pub proof fn lemma_first_of_type(chunks: Seq<ChunkView>, name: Seq<char>)
    ensures
        0 <= first_of_type(chunks, name) <= chunks.len(),
        forall|j: int|
            0 <= j < first_of_type(chunks, name) ==> !has_type(#[trigger] chunks[j], name),
        first_of_type(chunks, name) < chunks.len() ==> has_type(
            chunks[first_of_type(chunks, name)],
            name,
        ),
    decreases chunks.len(),
{
    if chunks.len() > 0 && !has_type(chunks[0], name) {
        let rest = chunks.drop_first();
        lemma_first_of_type(rest, name);
        assert forall|j: int| 0 <= j < first_of_type(chunks, name) implies !has_type(
            #[trigger] chunks[j],
            name,
        ) by {
            if j > 0 {
                assert(chunks[j] == rest[j - 1]);
            }
        }
    }
}

/// An index is what [`first_of_type`] finds as soon as no chunk before it
/// has the type and it is either the length or the index of a chunk that
/// has the type.
pub proof fn lemma_first_of_type_unique(chunks: Seq<ChunkView>, name: Seq<char>, k: int)
    requires
        0 <= k <= chunks.len(),
        forall|j: int| 0 <= j < k ==> !has_type(#[trigger] chunks[j], name),
        k < chunks.len() ==> has_type(chunks[k], name),
    ensures
        first_of_type(chunks, name) == k,
{
    lemma_first_of_type(chunks, name);
}

/// No chunk of the sequence has the type exactly when [`first_of_type`]
/// runs to the end of the sequence.
pub proof fn lemma_absent_type(chunks: Seq<ChunkView>, name: Seq<char>)
    ensures
        (forall|i: int| 0 <= i < chunks.len() ==> !has_type(#[trigger] chunks[i], name))
            <==> first_of_type(chunks, name) == chunks.len(),
{
    lemma_first_of_type(chunks, name);
}

/// A chunk appended to chunks that hold none of its type is the first of
/// its type, and taking it out again leaves the chunks as they were.
pub proof fn lemma_append_then_remove(chunks: Seq<ChunkView>, chunk: ChunkView, name: Seq<char>)
    requires
        has_type(chunk, name),
        first_of_type(chunks, name) == chunks.len(),
    ensures
        first_of_type(chunks.push(chunk), name) == chunks.len(),
        chunks.push(chunk).remove(chunks.len() as int) == chunks,
{
    let all = chunks.push(chunk);
    lemma_first_of_type(chunks, name);
    assert forall|j: int| 0 <= j < chunks.len() implies !has_type(#[trigger] all[j], name) by {
        assert(all[j] == chunks[j]);
    }
    lemma_first_of_type_unique(all, name, chunks.len() as int);
    assert(all.remove(chunks.len() as int) =~= chunks);
}

/// A run of records of well-formed chunks decodes to those chunks.
pub proof fn lemma_parse_records_of_records(chunks: Seq<ChunkView>)
    requires
        all_wf(chunks),
    ensures
        parse_records(records(chunks)) == Ok::<Seq<ChunkView>, FormatError>(chunks),
    decreases chunks.len(),
{
    if chunks.len() == 0 {
        assert(chunks =~= Seq::<ChunkView>::empty());
    } else {
        let first = chunks[0];
        let rest = chunks.drop_first();
        let tail = records(rest);
        let step = 12 + first.data.len() as int;
        assert(first.wf());
        lemma_all_wf_drop_first(chunks);
        lemma_parse_record_of_wire(first, tail);
        lemma_parse_records_of_records(rest);
        lemma_skip_front(first.wire(), tail);
        lemma_cons_drop_first(chunks);
        assert(records(chunks) == first.wire() + tail);
        assert(parse_records(first.wire() + tail) == prepend(
            seq![first],
            parse_records((first.wire() + tail).skip(step)),
        ));
    }
}

/// Skipping the front of a concatenation leaves its back.
proof fn lemma_skip_front(front: Seq<u8>, back: Seq<u8>)
    ensures
        (front + back).skip(front.len() as int) == back,
{
    assert((front + back).skip(front.len() as int) =~= back);
}

/// A sequence that is not empty is its first element in front of the rest.
proof fn lemma_cons_drop_first(chunks: Seq<ChunkView>)
    requires
        chunks.len() > 0,
    ensures
        seq![chunks[0]] + chunks.drop_first() == chunks,
{
    assert(seq![chunks[0]] + chunks.drop_first() =~= chunks);
}

/// Without their first, well-formed chunks are still all well formed.
proof fn lemma_all_wf_drop_first(chunks: Seq<ChunkView>)
    requires
        chunks.len() > 0,
        all_wf(chunks),
    ensures
        all_wf(chunks.drop_first()),
{
    let rest = chunks.drop_first();
    assert forall|i: int| 0 <= i < rest.len() implies (#[trigger] rest[i]).wf() by {
        assert(chunks[i + 1].wf());
    }
}

/// Where a buffer decodes to a run of chunks, the chunks are well formed
/// and their records are the buffer, byte for byte.
pub proof fn lemma_records_of_parse_records(buf: Seq<u8>, chunks: Seq<ChunkView>)
    requires
        parse_records(buf) == Ok::<Seq<ChunkView>, FormatError>(chunks),
    ensures
        all_wf(chunks),
        records(chunks) == buf,
    decreases buf.len(),
{
    if buf.len() == 0 {
        assert(chunks =~= Seq::<ChunkView>::empty());
        assert(records(chunks) =~= buf);
    } else {
        let head = parse_record(buf);
        assert(head is Ok);
        let first = head->Ok_0;
        let step = 12 + first.data.len() as int;
        let tail = parse_records(buf.skip(step));
        assert(parse_records(buf) == prepend(seq![first], tail));
        assert(tail is Ok);
        let rest = tail->Ok_0;
        assert(chunks == seq![first] + rest);
        lemma_wire_of_parse_record(buf, first);
        lemma_records_of_parse_records(buf.skip(step), rest);
        lemma_records_cons(first, rest);
        lemma_all_wf_cons(first, rest);
        lemma_split_at(buf, step);
    }
}

/// A sequence is its front up to `at` followed by what comes after.
proof fn lemma_split_at(buf: Seq<u8>, at: int)
    requires
        0 <= at <= buf.len(),
    ensures
        buf.subrange(0, at) + buf.skip(at) == buf,
{
    assert(buf.subrange(0, at) + buf.skip(at) =~= buf);
}

/// One well-formed chunk in front of well-formed chunks: all well formed.
proof fn lemma_all_wf_cons(first: ChunkView, rest: Seq<ChunkView>)
    requires
        first.wf(),
        all_wf(rest),
    ensures
        all_wf(seq![first] + rest),
{
    let all = seq![first] + rest;
    assert forall|i: int| 0 <= i < all.len() implies (#[trigger] all[i]).wf() by {
        if i > 0 {
            assert(all[i] == rest[i - 1]);
        }
    }
}

/// The records of a sequence with one more chunk in front are the record
/// of that chunk followed by the records of the sequence.
pub proof fn lemma_records_cons(first: ChunkView, rest: Seq<ChunkView>)
    ensures
        records(seq![first] + rest) == first.wire() + records(rest),
{
    let all = seq![first] + rest;
    assert(all.drop_first() =~= rest);
}

/// The file of well-formed chunks decodes to those chunks.
pub proof fn lemma_parse_png_of_wire(chunks: Seq<ChunkView>)
    requires
        all_wf(chunks),
    ensures
        parse_png(png_wire(chunks)) == Ok::<Seq<ChunkView>, FormatError>(chunks),
{
    let buf = png_wire(chunks);
    lemma_parse_records_of_records(chunks);
    assert(buf.subrange(0, 8) =~= signature());
    assert(buf.skip(8) =~= records(chunks));
}

/// Where a buffer decodes to chunks, the chunks are well formed and
/// encoding them gives the buffer back, byte for byte.
pub proof fn lemma_png_wire_of_parse(buf: Seq<u8>, chunks: Seq<ChunkView>)
    requires
        parse_png(buf) == Ok::<Seq<ChunkView>, FormatError>(chunks),
    ensures
        all_wf(chunks),
        png_wire(chunks) == buf,
{
    assert(buf.len() >= 8);
    assert(buf.subrange(0, 8) == signature());
    assert(parse_records(buf.skip(8)) == Ok::<Seq<ChunkView>, FormatError>(chunks));
    lemma_records_of_parse_records(buf.skip(8), chunks);
    lemma_split_at(buf, 8);
}

/// Round trip: what was decoded from a buffer, once encoded, decodes to
/// the same chunks again.
pub proof fn lemma_round_trip(buf: Seq<u8>, chunks: Seq<ChunkView>)
    requires
        parse_png(buf) == Ok::<Seq<ChunkView>, FormatError>(chunks),
    ensures
        parse_png(png_wire(chunks)) == Ok::<Seq<ChunkView>, FormatError>(chunks),
{
    lemma_png_wire_of_parse(buf, chunks);
}

/// A buffer of eight bytes or more that does not begin with the signature
/// is rejected for its signature, whatever follows.
pub proof fn lemma_bad_signature(buf: Seq<u8>)
    requires
        buf.len() >= 8,
        buf.subrange(0, 8) != signature(),
    ensures
        parse_png(buf) == Err::<Seq<ChunkView>, FormatError>(FormatError::BadSignature),
{
}

} // verus!
