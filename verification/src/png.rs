//! The container: a fixed signature and, behind it, chunks in order.

use crate::chunk::{
    append, lemma_parse_serialized, lemma_serialize_parsed, parse_chunk, Chunk, ChunkView, TryFromBytesError,
    TryFromBytesErrorKind,
};
use crate::chunk_type::valid_tag;
use crate::text::{ascii_text, lemma_ascii_is_utf8, lemma_encode_utf8_injective};
use vstd::prelude::*;
use vstd::slice::slice_subrange;
use vstd::std_specs::convert::TryFromSpecImpl;
use vstd::string::{StringExecFns, StringSliceAdditionalSpecFns};
use vstd::utf8::encode_utf8;

verus! {

/// The eight bytes that every container starts with.
pub open spec fn signature() -> Seq<u8> {
    seq![137u8, 80u8, 78u8, 71u8, 13u8, 10u8, 26u8, 10u8]
}

/// The serialized forms of `chunks`, one behind the other.
pub open spec fn encode_chunks(chunks: Seq<ChunkView>) -> Seq<u8>
    decreases chunks.len(),
{
    if chunks.len() == 0 {
        Seq::empty()
    } else {
        chunks.first().to_bytes() + encode_chunks(chunks.drop_first())
    }
}

/// What reading chunks from `bytes` gives, one behind the other until the
/// bytes are used up: the chunks in order, or the error of the first one that
/// cannot be read.
pub open spec fn parse_chunks(bytes: Seq<u8>) -> Result<Seq<ChunkView>, TryFromBytesErrorKind>
    decreases bytes.len(),
    via parse_chunks_decreases
{
    if bytes.len() == 0 {
        Ok(Seq::empty())
    } else {
        match parse_chunk(bytes) {
            Err(e) => Err(e),
            Ok(c) => match parse_chunks(bytes.skip(12 + c.data.len() as int)) {
                Err(e) => Err(e),
                Ok(rest) => Ok(seq![c] + rest),
            },
        }
    }
}

#[via_fn]
proof fn parse_chunks_decreases(bytes: Seq<u8>) {
    if parse_chunk(bytes) is Ok {
        lemma_serialize_parsed(bytes);
    }
}

/// Why a byte sequence is no container.
#[derive(Debug)]
pub enum TryFromSliceError {
    /// The bytes do not start with the signature.
    BadSignature,
    /// A chunk behind the signature cannot be read.
    Chunk(TryFromBytesError),
}

impl TryFromSliceError {
    /// The error as a message for a reader.
    pub open spec fn text(self) -> Seq<char> {
        match self {
            TryFromSliceError::BadSignature => "invalid signature"@,
            TryFromSliceError::Chunk(err) => err.text(),
        }
    }

    /// The error as a message for a reader.
    pub fn to_string(&self) -> (r: String)
        ensures
            r@ == self.text(),
    {
        match self {
            TryFromSliceError::BadSignature => String::from_str("invalid signature"),
            TryFromSliceError::Chunk(err) => err.to_string(),
        }
    }
}

/// What reading a container from `bytes` gives: the chunks behind the
/// signature, or why there is no container.
pub open spec fn parse_png(bytes: Seq<u8>) -> Result<Seq<ChunkView>, TryFromSliceError> {
    if bytes.len() < 8 || bytes.subrange(0, 8) != signature() {
        Err(TryFromSliceError::BadSignature)
    } else {
        match parse_chunks(bytes.skip(8)) {
            Ok(chunks) => Ok(chunks),
            Err(kind) => Err(TryFromSliceError::Chunk(TryFromBytesError { kind })),
        }
    }
}

/// The serialized form of a container with these chunks.
pub open spec fn encode_png(chunks: Seq<ChunkView>) -> Seq<u8> {
    signature() + encode_chunks(chunks)
}

/// Whether every chunk of `chunks` meets the invariant of a chunk.
pub open spec fn all_wf(chunks: Seq<ChunkView>) -> bool {
    forall|i: int| 0 <= i < chunks.len() ==> (#[trigger] chunks[i]).wf()
}

/// What a sequence of chunks holds, as plain values.
pub open spec fn chunk_views(chunks: Seq<Chunk>) -> Seq<ChunkView> {
    Seq::new(chunks.len(), |i: int| chunks[i]@)
}

/// Serializing one more chunk adds its serialized form at the end.
pub proof fn lemma_encode_push(chunks: Seq<ChunkView>, c: ChunkView)
    ensures
        encode_chunks(chunks.push(c)) == encode_chunks(chunks) + c.to_bytes(),
    decreases chunks.len(),
{
    let pushed = chunks.push(c);
    if chunks.len() == 0 {
        assert(pushed.first() == c);
        assert(pushed.drop_first() =~= Seq::<ChunkView>::empty());
        assert(encode_chunks(pushed.drop_first()) =~= Seq::<u8>::empty());
        assert(encode_chunks(chunks) =~= Seq::<u8>::empty());
        assert(encode_chunks(pushed) =~= c.to_bytes());
        assert(encode_chunks(chunks) + c.to_bytes() =~= c.to_bytes());
    } else {
        lemma_encode_push(chunks.drop_first(), c);
        assert(pushed.first() == chunks.first());
        assert(pushed.drop_first() =~= chunks.drop_first().push(c));
        let head = chunks.first().to_bytes();
        let mid = encode_chunks(chunks.drop_first());
        assert(encode_chunks(pushed) == head + (mid + c.to_bytes()));
        assert(head + (mid + c.to_bytes()) =~= (head + mid) + c.to_bytes());
    }
}

/// Reading the serialized forms of chunks gives the chunks back, in order.
pub proof fn lemma_parse_encoded_chunks(chunks: Seq<ChunkView>)
    requires
        all_wf(chunks),
    ensures
        parse_chunks(encode_chunks(chunks)) == Ok::<_, TryFromBytesErrorKind>(chunks),
    decreases chunks.len(),
{
    if chunks.len() == 0 {
        assert(chunks =~= Seq::empty());
    } else {
        let c = chunks.first();
        let rest = chunks.drop_first();
        assert(c.wf());
        assert(all_wf(rest)) by {
            assert forall|i: int| 0 <= i < rest.len() implies (#[trigger] rest[i]).wf() by {
                assert(rest[i] == chunks[i + 1]);
            }
        }
        let head = c.to_bytes();
        let tail = encode_chunks(rest);
        let bytes = head + tail;
        assert(encode_chunks(chunks) == bytes);
        lemma_parse_serialized(c, tail);
        lemma_parse_encoded_chunks(rest);
        assert(bytes.skip(12 + c.data.len() as int) =~= tail);
        assert(seq![c] + rest =~= chunks);
    }
}

/// Chunks read from bytes meet the invariant of a chunk, and their serialized
/// forms, one behind the other, are those bytes.
pub proof fn lemma_encode_parsed_chunks(bytes: Seq<u8>)
    requires
        parse_chunks(bytes) is Ok,
    ensures
        all_wf(parse_chunks(bytes)->Ok_0),
        encode_chunks(parse_chunks(bytes)->Ok_0) == bytes,
    decreases bytes.len(),
{
    if bytes.len() == 0 {
        assert(bytes =~= Seq::empty());
    } else {
        lemma_serialize_parsed(bytes);
        let c = parse_chunk(bytes)->Ok_0;
        let n = 12 + c.data.len() as int;
        let tail = bytes.skip(n);
        lemma_encode_parsed_chunks(tail);
        let rest = parse_chunks(tail)->Ok_0;
        let chunks = seq![c] + rest;
        assert(chunks.first() == c);
        assert(chunks.drop_first() =~= rest);
        assert(c.to_bytes() == bytes.take(n));
        assert(bytes.take(n) + tail =~= bytes);
        assert forall|i: int| 0 <= i < chunks.len() implies (#[trigger] chunks[i]).wf() by {
            if i > 0 {
                assert(chunks[i] == rest[i - 1]);
            }
        }
    }
}

/// Reading the serialized form of a container gives its chunks back, in
/// order.
pub proof fn lemma_parse_encoded(chunks: Seq<ChunkView>)
    requires
        all_wf(chunks),
    ensures
        parse_png(encode_png(chunks)) == Ok::<_, TryFromSliceError>(chunks),
{
    let bytes = encode_png(chunks);
    assert(bytes.subrange(0, 8) =~= signature());
    assert(bytes.skip(8) =~= encode_chunks(chunks));
    lemma_parse_encoded_chunks(chunks);
}

/// Bytes that are read as a container are the serialized form of what was
/// read, byte for byte.
pub proof fn lemma_encode_parsed(bytes: Seq<u8>)
    requires
        parse_png(bytes) is Ok,
    ensures
        all_wf(parse_png(bytes)->Ok_0),
        encode_png(parse_png(bytes)->Ok_0) == bytes,
{
    lemma_encode_parsed_chunks(bytes.skip(8));
    assert(bytes.subrange(0, 8) + bytes.skip(8) =~= bytes);
}

/// The eight bytes that every container starts with.
pub const STANDARD_HEADER: [u8; 8] = [137, 80, 78, 71, 13, 10, 26, 10];

/// Whether the type of the chunk `c`, read as text, is `text`.
pub open spec fn tag_matches(c: ChunkView, text: Seq<char>) -> bool {
    ascii_text(c.chunk_type) == text
}

/// Whether `i` is the position of the first chunk of `chunks` whose type,
/// read as text, is `text`.
pub open spec fn is_first_match(chunks: Seq<ChunkView>, text: Seq<char>, i: int) -> bool {
    &&& 0 <= i < chunks.len()
    &&& tag_matches(chunks[i], text)
    &&& forall|j: int| 0 <= j < i ==> !tag_matches(#[trigger] chunks[j], text)
}

/// Whether no chunk of `chunks` has the type `text`.
pub open spec fn no_match(chunks: Seq<ChunkView>, text: Seq<char>) -> bool {
    forall|j: int| 0 <= j < chunks.len() ==> !tag_matches(#[trigger] chunks[j], text)
}

/// The type of a chunk reads as a given text exactly when its four bytes are
/// the UTF-8 encoding of that text.
pub proof fn lemma_tag_matches(c: ChunkView, text: Seq<char>)
    requires
        valid_tag(c.chunk_type),
    ensures
        tag_matches(c, text) <==> c.chunk_type == encode_utf8(text),
{
    lemma_ascii_is_utf8(c.chunk_type);
    if c.chunk_type == encode_utf8(text) {
        lemma_encode_utf8_injective(ascii_text(c.chunk_type), text);
    }
}

/// Why no chunk was removed.
#[derive(Debug, PartialEq, Eq)]
pub enum RemoveChunkError {
    /// No chunk of the container has the type asked for.
    ChunkNotFound,
}

impl RemoveChunkError {
    /// The error as a message for a reader.
    pub open spec fn text(self) -> Seq<char> {
        "chunk not found"@
    }

    /// The error as a message for a reader.
    pub fn to_string(&self) -> (r: String)
        ensures
            r@ == self.text(),
    {
        String::from_str("chunk not found")
    }
}

/// A container: chunks in order, behind the signature.
#[derive(Debug)]
pub struct Png {
    chunks: Vec<Chunk>,
}

impl View for Png {
    type V = Seq<ChunkView>;

    closed spec fn view(&self) -> Seq<ChunkView> {
        chunk_views(self.chunks@)
    }
}

/// Whether the four bytes of the type of `chunk` are `bytes`.
fn has_type_bytes(chunk: &Chunk, bytes: &[u8]) -> (r: bool)
    ensures
        r == (chunk@.chunk_type == bytes@),
{
    let tag = chunk.chunk_type().bytes();
    if bytes.len() != 4 {
        return false;
    }
    let r = tag[0] == bytes[0] && tag[1] == bytes[1] && tag[2] == bytes[2] && tag[3] == bytes[3];
    if r {
        assert(tag@ =~= bytes@);
    }
    r
}

impl Png {
    /// The invariant of a container: each of its chunks meets the invariant
    /// of a chunk.
    pub open spec fn wf(&self) -> bool {
        all_wf(self@)
    }

    /// The container with these chunks, in this order.
    pub fn from_chunks(chunks: Vec<Chunk>) -> (r: Png)
        ensures
            r@ == chunk_views(chunks@),
            r.wf() <==> forall|i: int| 0 <= i < chunks@.len() ==> (#[trigger] chunks@[i]).wf(),
    {
        assert(all_wf(chunk_views(chunks@)) <==> forall|i: int|
            0 <= i < chunks@.len() ==> (#[trigger] chunks@[i]).wf()) by {
            if all_wf(chunk_views(chunks@)) {
                assert forall|i: int| 0 <= i < chunks@.len() implies (#[trigger] chunks@[i]).wf() by {
                    assert(chunk_views(chunks@)[i].wf());
                }
            }
        }
        Png { chunks }
    }

    /// Puts `chunk` behind the chunks of the container.
    pub fn append_chunk(&mut self, chunk: Chunk)
        ensures
            final(self)@ == old(self)@.push(chunk@),
            old(self).wf() && chunk.wf() ==> final(self).wf(),
    {
        self.chunks.push(chunk);
        assert(self@ =~= old(self)@.push(chunk@));
    }

    /// The position of the first chunk whose type reads as `chunk_type`.
    fn position(&self, chunk_type: &str) -> (r: Option<usize>)
        requires
            self.wf(),
        ensures
            r matches Some(i) ==> is_first_match(self@, chunk_type@, i as int),
            r is None ==> no_match(self@, chunk_type@),
    {
        let wanted = chunk_type.as_bytes();
        let mut i: usize = 0;
        while i < self.chunks.len()
            invariant
                0 <= i <= self.chunks@.len(),
                self.wf(),
                wanted@ == encode_utf8(chunk_type@),
                forall|j: int| 0 <= j < i ==> !tag_matches(#[trigger] self@[j], chunk_type@),
            decreases self.chunks@.len() - i,
        {
            proof {
                assert(self@[i as int].wf());
                lemma_tag_matches(self@[i as int], chunk_type@);
            }
            if has_type_bytes(&self.chunks[i], wanted) {
                return Some(i);
            }
            i += 1;
        }
        None
    }

    /// Takes out the first chunk whose type reads as `chunk_type` and returns
    /// it; the others stay in their order. Where no chunk has that type, the
    /// container stays as it is.
    pub fn remove_first_chunk(&mut self, chunk_type: &str) -> (r: Result<Chunk, RemoveChunkError>)
        requires
            old(self).wf(),
        ensures
            final(self).wf(),
            r matches Ok(c) ==> c.wf() && exists|i: int|
                #![trigger old(self)@[i]]
                is_first_match(old(self)@, chunk_type@, i) && c@ == old(self)@[i] && final(self)@
                    == old(self)@.remove(i),
            r is Err <==> no_match(old(self)@, chunk_type@),
            r is Err ==> final(self)@ == old(self)@,
    {
        match self.position(chunk_type) {
            Some(i) => {
                let c = self.chunks.remove(i);
                proof {
                    assert(self@ =~= old(self)@.remove(i as int));
                    assert(old(self)@[i as int].wf());
                    assert(c@ == old(self)@[i as int]);
                    assert(tag_matches(old(self)@[i as int], chunk_type@));
                }
                Ok(c)
            },
            None => Err(RemoveChunkError::ChunkNotFound),
        }
    }

    /// The eight bytes in front of the chunks.
    pub fn header(&self) -> (r: [u8; 8])
        ensures
            r@ == signature(),
    {
        assert(STANDARD_HEADER@ =~= signature());
        STANDARD_HEADER
    }

    /// The chunks, in order.
    pub fn chunks(&self) -> (r: &[Chunk])
        ensures
            chunk_views(r@) == self@,
    {
        self.chunks.as_slice()
    }

    /// The first chunk whose type reads as `chunk_type`, where there is one.
    /// A text that is no chunk type finds nothing.
    pub fn chunk_by_type(&self, chunk_type: &str) -> (r: Option<&Chunk>)
        requires
            self.wf(),
        ensures
            r matches Some(c) ==> c.wf() && exists|i: int|
                #![trigger self@[i]]
                is_first_match(self@, chunk_type@, i) && c@ == self@[i],
            r is None <==> no_match(self@, chunk_type@),
    {
        match self.position(chunk_type) {
            Some(i) => {
                proof {
                    assert(self@[i as int].wf());
                    assert(tag_matches(self@[i as int], chunk_type@));
                }
                Some(&self.chunks[i])
            },
            None => None,
        }
    }

    /// The serialized form of the container: the signature, then each chunk
    /// in order.
    pub fn as_bytes(&self) -> (r: Vec<u8>)
        ensures
            r@ == encode_png(self@),
    {
        let mut out: Vec<u8> = Vec::new();
        let header = self.header();
        append(&mut out, header.as_slice());
        let mut i: usize = 0;
        assert(self@.take(0) =~= Seq::<ChunkView>::empty());
        while i < self.chunks.len()
            invariant
                0 <= i <= self.chunks@.len(),
                out@ == signature() + encode_chunks(self@.take(i as int)),
            decreases self.chunks@.len() - i,
        {
            let bytes = self.chunks[i].as_bytes();
            append(&mut out, bytes.as_slice());
            proof {
                lemma_encode_push(self@.take(i as int), self@[i as int]);
                assert(self@.take(i + 1) =~= self@.take(i as int).push(self@[i as int]));
                assert(out@ =~= signature() + encode_chunks(self@.take(i + 1)));
            }
            i += 1;
        }
        assert(self@.take(i as int) =~= self@);
        out
    }
}

/// The chunks `done`, followed by those of `rest`, where there are any.
spec fn followed_by(
    done: Seq<ChunkView>,
    rest: Result<Seq<ChunkView>, TryFromBytesErrorKind>,
) -> Result<Seq<ChunkView>, TryFromBytesErrorKind> {
    match rest {
        Ok(chunks) => Ok(done + chunks),
        Err(e) => Err(e),
    }
}

/// The general statement of `TryFrom` is not used for this type: what
/// `try_from` returns is said by its own contract, over the view.
impl<'a> TryFromSpecImpl<&'a [u8]> for Png {
    open spec fn obeys_try_from_spec() -> bool {
        false
    }

    closed spec fn try_from_spec(v: &'a [u8]) -> Result<Self, Self::Error> {
        Err(TryFromSliceError::BadSignature)
    }
}

impl<'a> TryFrom<&'a [u8]> for Png {
    type Error = TryFromSliceError;

    /// Reads a container from `bytes`, which must be used up: the result is
    /// what [`parse_png`] says, a container with those chunks or that error.
    fn try_from(bytes: &'a [u8]) -> (r: Result<Self, Self::Error>)
        ensures
            r matches Ok(png) ==> png.wf() && parse_png(bytes@) == Ok::<_, TryFromSliceError>(
                png@,
            ),
            r matches Err(e) ==> parse_png(bytes@) == Err::<Seq<ChunkView>, _>(e),
    {
        let n = bytes.len();
        if n < 8 {
            return Err(TryFromSliceError::BadSignature);
        }
        let mut k: usize = 0;
        while k < 8
            invariant
                0 <= k <= 8 <= n == bytes@.len(),
                forall|j: int| 0 <= j < k ==> bytes@[j] == #[trigger] signature()[j],
            decreases 8 - k,
        {
            if bytes[k] != STANDARD_HEADER[k] {
                assert(bytes@.subrange(0, 8)[k as int] != signature()[k as int]);
                return Err(TryFromSliceError::BadSignature);
            }
            k += 1;
        }
        assert(bytes@.subrange(0, 8) =~= signature());
        let mut chunks: Vec<Chunk> = Vec::new();
        let mut pos: usize = 8;
        assert(chunk_views(chunks@) + parse_chunks(bytes@.skip(8))->Ok_0 =~= parse_chunks(
            bytes@.skip(8),
        )->Ok_0);
        while pos < n
            invariant
                8 <= pos <= n == bytes@.len(),
                bytes@.subrange(0, 8) == signature(),
                all_wf(chunk_views(chunks@)),
                parse_chunks(bytes@.skip(8)) == followed_by(
                    chunk_views(chunks@),
                    parse_chunks(bytes@.skip(pos as int)),
                ),
            decreases n - pos,
        {
            let rest = slice_subrange(bytes, pos, n);
            assert(rest@ =~= bytes@.skip(pos as int));
            match Chunk::try_from(rest) {
                Err(e) => {
                    return Err(TryFromSliceError::Chunk(e));
                },
                Ok(chunk) => {
                    let ghost done = chunk_views(chunks@);
                    proof {
                        lemma_serialize_parsed(rest@);
                    }
                    let size = 12 + chunk.length() as usize;
                    chunks.push(chunk);
                    proof {
                        let tail = parse_chunks(rest@.skip(size as int));
                        assert(rest@.skip(size as int) =~= bytes@.skip(pos + size));
                        assert(chunk_views(chunks@) =~= done.push(chunk@));
                        if tail is Ok {
                            assert(done + (seq![chunk@] + tail->Ok_0) =~= done.push(chunk@)
                                + tail->Ok_0);
                        }
                    }
                    pos += size;
                },
            }
        }
        assert(bytes@.skip(pos as int) =~= Seq::<u8>::empty());
        assert(chunk_views(chunks@) + Seq::<ChunkView>::empty() =~= chunk_views(chunks@));
        Ok(Png { chunks })
    }
}

} // verus!
