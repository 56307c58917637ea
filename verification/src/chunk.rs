//! A chunk: a type and a payload, with the payload's length before them and
//! a checksum of both behind.

use crate::checksum::{crc32, hash};
use crate::chunk_type::{valid_tag, validate_tag, ChunkType, TryFromChunkTypeError};
use crate::endian::{
    be32, from_be32, from_be_bytes, lemma_be32_of_from_be32, lemma_from_be32_of_be32, to_be_bytes,
};
use crate::text::{decimal, decimal_string, string_from_utf8};
use vstd::prelude::*;
use vstd::slice::{slice_subrange, slice_to_vec};
use vstd::std_specs::convert::{FromSpecImpl, TryFromSpecImpl};
use vstd::string::StringExecFns;
use vstd::utf8::{decode_utf8, valid_utf8};

verus! {

/// What a chunk holds, as plain values.
pub struct ChunkView {
    /// The length of the payload, as the chunk declares it.
    pub length: u32,
    /// The four bytes of the type.
    pub chunk_type: Seq<u8>,
    /// The payload.
    pub data: Seq<u8>,
    /// The checksum, as the chunk declares it.
    pub crc: u32,
}

impl ChunkView {
    /// The chunk with type `chunk_type` and payload `data`: its length and
    /// checksum are computed from the two.
    pub open spec fn create(chunk_type: Seq<u8>, data: Seq<u8>) -> ChunkView {
        ChunkView {
            length: data.len() as u32,
            chunk_type,
            data,
            crc: crc32(chunk_type + data),
        }
    }

    /// The invariant of a chunk: the type is four ASCII letters, the declared
    /// length is that of the payload, and the declared checksum is that of
    /// the type followed by the payload.
    pub open spec fn wf(self) -> bool {
        &&& valid_tag(self.chunk_type)
        &&& self.length == self.data.len()
        &&& self.crc == crc32(self.chunk_type + self.data)
    }

    /// The serialized form: length, type, payload, checksum; the two numbers
    /// in four bytes each, most significant first.
    pub open spec fn to_bytes(self) -> Seq<u8> {
        be32(self.length) + self.chunk_type + self.data + be32(self.crc)
    }

    /// The chunk described on one line: its length, the bytes of its type,
    /// the size of its payload and its checksum.
    pub open spec fn text(self) -> Seq<char>
        recommends
            self.chunk_type.len() == 4,
    {
        "Chunk { len: "@ + decimal(self.length as nat) + ", chunk_type: ChunkType { bytes: ["@
            + decimal(self.chunk_type[0] as nat) + ", "@ + decimal(self.chunk_type[1] as nat)
            + ", "@ + decimal(self.chunk_type[2] as nat) + ", "@ + decimal(
            self.chunk_type[3] as nat,
        ) + "] }, data: "@ + decimal(self.data.len()) + ", crc: "@ + decimal(self.crc as nat)
            + " }"@
    }

    /// The chunk described as [`ChunkView::text`] does, on a line for each
    /// value.
    pub open spec fn pretty_text(self) -> Seq<char>
        recommends
            self.chunk_type.len() == 4,
    {
        "Chunk {\n    len: "@ + decimal(self.length as nat)
            + ",\n    chunk_type: ChunkType {\n        bytes: [\n            "@ + decimal(
            self.chunk_type[0] as nat,
        ) + ",\n            "@ + decimal(self.chunk_type[1] as nat) + ",\n            "@
            + decimal(self.chunk_type[2] as nat) + ",\n            "@ + decimal(
            self.chunk_type[3] as nat,
        ) + ",\n        ],\n    },\n    data: "@ + decimal(self.data.len()) + ",\n    crc: "@
            + decimal(self.crc as nat) + ",\n}"@
    }
}

/// Why a byte sequence does not start with a chunk.
#[derive(Debug)]
#[non_exhaustive]
pub enum TryFromBytesErrorKind {
    /// The four bytes of the type are not all ASCII letters.
    ChunkType(TryFromChunkTypeError),
    /// The checksum of type and payload, `calculated`, is not the declared
    /// one, `expected`.
    CorruptCrc { calculated: u32, expected: u32 },
    /// The bytes end before the chunk does.
    NotEnoughBytes,
}

/// The error of reading a chunk from bytes.
#[derive(Debug)]
#[non_exhaustive]
pub struct TryFromBytesError {
    pub kind: TryFromBytesErrorKind,
}

impl TryFromBytesErrorKind {
    /// The error as a message for a reader.
    pub open spec fn text(self) -> Seq<char> {
        match self {
            TryFromBytesErrorKind::ChunkType(err) => err.text(),
            TryFromBytesErrorKind::CorruptCrc { calculated, expected } => "invalid crc: expected: "@
                + decimal(expected as nat) + ", got "@ + decimal(calculated as nat),
            TryFromBytesErrorKind::NotEnoughBytes => "failed to fill whole buffer"@,
        }
    }

    /// The error as a message for a reader.
    pub fn to_string(&self) -> (r: String)
        ensures
            r@ == self.text(),
    {
        match self {
            TryFromBytesErrorKind::ChunkType(err) => err.to_string(),
            TryFromBytesErrorKind::CorruptCrc { calculated, expected } => {
                let mut out = String::from_str("invalid crc: expected: ");
                let expected = decimal_string(*expected as u64);
                out.append(expected.as_str());
                out.append(", got ");
                let calculated = decimal_string(*calculated as u64);
                out.append(calculated.as_str());
                out
            },
            TryFromBytesErrorKind::NotEnoughBytes => String::from_str(
                "failed to fill whole buffer",
            ),
        }
    }
}

impl TryFromBytesError {
    /// The error as a message for a reader; the kind has the details.
    pub open spec fn text(self) -> Seq<char> {
        "cannot convert to Chunk"@
    }

    /// The error as a message for a reader; the kind has the details.
    pub fn to_string(&self) -> (r: String)
        ensures
            r@ == self.text(),
    {
        String::from_str("cannot convert to Chunk")
    }

    /// The error of the given kind.
    pub fn new(kind: TryFromBytesErrorKind) -> (r: Self)
        ensures
            r.kind == kind,
    {
        Self { kind }
    }
}

impl FromSpecImpl<TryFromChunkTypeError> for TryFromBytesError {
    open spec fn obeys_from_spec() -> bool {
        true
    }

    open spec fn from_spec(err: TryFromChunkTypeError) -> Self {
        TryFromBytesError { kind: TryFromBytesErrorKind::ChunkType(err) }
    }
}

impl From<TryFromChunkTypeError> for TryFromBytesError {
    fn from(err: TryFromChunkTypeError) -> (r: Self) {
        Self::new(TryFromBytesErrorKind::ChunkType(err))
    }
}

/// What reading a chunk from the front of `bytes` gives. The fields are
/// checked in the order in which they lie: the length and the type must be
/// there, the type must be four letters, the payload and the checksum must be
/// there, and the checksum must be that of type and payload. Bytes behind the
/// chunk are not looked at.
#[verifier::opaque]
pub open spec fn parse_chunk(bytes: Seq<u8>) -> Result<ChunkView, TryFromBytesErrorKind> {
    if bytes.len() < 8 {
        Err(TryFromBytesErrorKind::NotEnoughBytes)
    } else {
        let length = from_be32(bytes.subrange(0, 4));
        let chunk_type = bytes.subrange(4, 8);
        match validate_tag(chunk_type) {
            Err(e) => Err(TryFromBytesErrorKind::ChunkType(e)),
            Ok(_) => if bytes.len() < 12 + length {
                Err(TryFromBytesErrorKind::NotEnoughBytes)
            } else {
                let data = bytes.subrange(8, 8 + length);
                let calculated = crc32(chunk_type + data);
                let expected = from_be32(bytes.subrange(8 + length, 12 + length));
                if calculated != expected {
                    Err(TryFromBytesErrorKind::CorruptCrc { calculated, expected })
                } else {
                    Ok(ChunkView { length, chunk_type, data, crc: calculated })
                }
            },
        }
    }
}

/// A chunk.
#[derive(Debug)]
pub struct Chunk {
    len: u32,
    chunk_type: ChunkType,
    data: Vec<u8>,
    crc: u32,
}

impl View for Chunk {
    type V = ChunkView;

    closed spec fn view(&self) -> ChunkView {
        ChunkView {
            length: self.len,
            chunk_type: self.chunk_type@,
            data: self.data@,
            crc: self.crc,
        }
    }
}

/// The checksum of a chunk with this type and payload: that of the four bytes
/// of the type followed by the payload.
pub fn calculate_crc(chunk_type: &ChunkType, data: &[u8]) -> (r: u32)
    ensures
        r == crc32(chunk_type@ + data@),
{
    let mut buf: Vec<u8> = slice_to_vec(chunk_type.as_slice());
    let mut i: usize = 0;
    while i < data.len()
        invariant
            0 <= i <= data@.len(),
            buf@ == chunk_type@ + data@.take(i as int),
        decreases data@.len() - i,
    {
        buf.push(data[i]);
        assert(data@.take(i + 1) =~= data@.take(i as int).push(data@[i as int]));
        assert(buf@ =~= chunk_type@ + data@.take(i + 1));
        i += 1;
    }
    assert(data@.take(i as int) =~= data@);
    hash(buf.as_slice())
}

impl Chunk {
    /// The invariant of a chunk: see [`ChunkView::wf`].
    pub open spec fn wf(&self) -> bool {
        self@.wf()
    }

    /// The chunk with this type and payload; its length and checksum are
    /// computed. The payload's length must fit the 32-bit length field.
    pub fn new(chunk_type: ChunkType, data: Vec<u8>) -> (r: Self)
        requires
            chunk_type.wf(),
            data@.len() <= u32::MAX,
        ensures
            r.wf(),
            r@ == ChunkView::create(chunk_type@, data@),
    {
        let len = data.len() as u32;
        let crc = calculate_crc(&chunk_type, data.as_slice());
        Self { len, chunk_type, data, crc }
    }

    /// The length of the payload.
    pub fn length(&self) -> (r: u32)
        ensures
            r == self@.length,
    {
        self.len
    }

    /// The type.
    pub fn chunk_type(&self) -> (r: &ChunkType)
        ensures
            r@ == self@.chunk_type,
            self.wf() ==> r.wf(),
    {
        &self.chunk_type
    }

    /// The payload.
    pub fn data(&self) -> (r: &[u8])
        ensures
            r@ == self@.data,
    {
        self.data.as_slice()
    }

    /// The checksum.
    pub fn crc(&self) -> (r: u32)
        ensures
            r == self@.crc,
    {
        self.crc
    }

    /// The payload as text: it is there exactly when the payload is valid
    /// UTF-8, and is then its decoding.
    pub fn data_as_string(&self) -> (r: Result<String, std::string::FromUtf8Error>)
        ensures
            r is Ok <==> valid_utf8(self@.data),
            r matches Ok(s) ==> s@ == decode_utf8(self@.data),
    {
        string_from_utf8(self.data.clone())
    }

    /// The chunk described on one line.
    pub fn to_string(&self) -> (r: String)
        ensures
            r@ == self@.text(),
    {
        let tag = self.chunk_type.bytes();
        let mut out = String::from_str("Chunk { len: ");
        out.append(decimal_string(self.len as u64).as_str());
        out.append(", chunk_type: ChunkType { bytes: [");
        out.append(decimal_string(tag[0] as u64).as_str());
        out.append(", ");
        out.append(decimal_string(tag[1] as u64).as_str());
        out.append(", ");
        out.append(decimal_string(tag[2] as u64).as_str());
        out.append(", ");
        out.append(decimal_string(tag[3] as u64).as_str());
        out.append("] }, data: ");
        out.append(decimal_string(self.data.len() as u64).as_str());
        out.append(", crc: ");
        out.append(decimal_string(self.crc as u64).as_str());
        out.append(" }");
        out
    }

    /// The chunk described on a line for each value.
    pub fn to_string_pretty(&self) -> (r: String)
        ensures
            r@ == self@.pretty_text(),
    {
        let tag = self.chunk_type.bytes();
        let mut out = String::from_str("Chunk {\n    len: ");
        out.append(decimal_string(self.len as u64).as_str());
        out.append(",\n    chunk_type: ChunkType {\n        bytes: [\n            ");
        out.append(decimal_string(tag[0] as u64).as_str());
        out.append(",\n            ");
        out.append(decimal_string(tag[1] as u64).as_str());
        out.append(",\n            ");
        out.append(decimal_string(tag[2] as u64).as_str());
        out.append(",\n            ");
        out.append(decimal_string(tag[3] as u64).as_str());
        out.append(",\n        ],\n    },\n    data: ");
        out.append(decimal_string(self.data.len() as u64).as_str());
        out.append(",\n    crc: ");
        out.append(decimal_string(self.crc as u64).as_str());
        out.append(",\n}");
        out
    }

    /// The serialized form of the chunk.
    pub fn as_bytes(&self) -> (r: Vec<u8>)
        ensures
            r@ == self@.to_bytes(),
    {
        let mut out: Vec<u8> = Vec::new();
        let len_bytes = to_be_bytes(self.len);
        let crc_bytes = to_be_bytes(self.crc);
        append(&mut out, len_bytes.as_slice());
        append(&mut out, self.chunk_type.as_slice());
        append(&mut out, self.data.as_slice());
        append(&mut out, crc_bytes.as_slice());
        assert(out@ =~= self@.to_bytes());
        out
    }
}

/// The general statement of `TryFrom` is not used for this type: what
/// `try_from` returns is said by its own contract, over the view.
impl<'a> TryFromSpecImpl<&'a [u8]> for Chunk {
    open spec fn obeys_try_from_spec() -> bool {
        false
    }

    closed spec fn try_from_spec(v: &'a [u8]) -> Result<Self, Self::Error> {
        Err(TryFromBytesError { kind: TryFromBytesErrorKind::NotEnoughBytes })
    }
}

impl<'a> TryFrom<&'a [u8]> for Chunk {
    type Error = TryFromBytesError;

    /// Reads a chunk from the front of `bytes`: the result is what
    /// [`parse_chunk`] says, a chunk with those fields or an error of that
    /// kind.
    fn try_from(bytes: &'a [u8]) -> (r: Result<Self, Self::Error>)
        ensures
            r matches Ok(c) ==> c.wf() && parse_chunk(bytes@) == Ok::<_, TryFromBytesErrorKind>(
                c@,
            ),
            r matches Err(e) ==> parse_chunk(bytes@) == Err::<ChunkView, _>(e.kind),
    {
        reveal(parse_chunk);
        let n = bytes.len();
        if n < 4 {
            return Err(TryFromBytesError::new(TryFromBytesErrorKind::NotEnoughBytes));
        }
        let len_bytes: [u8; 4] = [bytes[0], bytes[1], bytes[2], bytes[3]];
        assert(len_bytes@ =~= bytes@.subrange(0, 4));
        let len = from_be_bytes(len_bytes);
        if n < 8 {
            return Err(TryFromBytesError::new(TryFromBytesErrorKind::NotEnoughBytes));
        }
        let type_bytes: [u8; 4] = [bytes[4], bytes[5], bytes[6], bytes[7]];
        assert(type_bytes@ =~= bytes@.subrange(4, 8));
        let chunk_type = match ChunkType::try_from(type_bytes) {
            Ok(t) => t,
            Err(e) => {
                return Err(TryFromBytesError::new(TryFromBytesErrorKind::ChunkType(e)));
            },
        };
        if n - 8 < len as usize {
            return Err(TryFromBytesError::new(TryFromBytesErrorKind::NotEnoughBytes));
        }
        let end = 8 + len as usize;
        let data = slice_to_vec(slice_subrange(bytes, 8, end));
        if n - end < 4 {
            return Err(TryFromBytesError::new(TryFromBytesErrorKind::NotEnoughBytes));
        }
        let crc = calculate_crc(&chunk_type, data.as_slice());
        let crc_bytes: [u8; 4] = [bytes[end], bytes[end + 1], bytes[end + 2], bytes[end + 3]];
        assert(crc_bytes@ =~= bytes@.subrange(8 + len, 12 + len));
        let crc_given = from_be_bytes(crc_bytes);
        if crc != crc_given {
            return Err(
                TryFromBytesError::new(
                    TryFromBytesErrorKind::CorruptCrc { calculated: crc, expected: crc_given },
                ),
            );
        }
        Ok(Self { len, chunk_type, data, crc })
    }
}

/// The byte `b` with its bit `k` flipped, bit 0 being the least significant.
pub open spec fn flip_bit(b: u8, k: u8) -> u8 {
    b ^ (1u8 << k)
}

/// Reading the serialized form of a chunk gives the chunk back, whatever
/// bytes follow it.
pub proof fn lemma_parse_serialized(c: ChunkView, rest: Seq<u8>)
    requires
        c.wf(),
    ensures
        c.to_bytes().len() == 12 + c.data.len(),
        parse_chunk(c.to_bytes() + rest) == Ok::<_, TryFromBytesErrorKind>(c),
{
    reveal(parse_chunk);
    let bytes = c.to_bytes() + rest;
    let n = c.data.len() as int;
    lemma_from_be32_of_be32(c.length);
    lemma_from_be32_of_be32(c.crc);
    assert(bytes.subrange(0, 4) =~= be32(c.length));
    assert(bytes.subrange(4, 8) =~= c.chunk_type);
    assert(bytes.subrange(8, 8 + n) =~= c.data);
    assert(bytes.subrange(8 + n, 12 + n) =~= be32(c.crc));
}

/// A chunk read from bytes meets the invariant of a chunk, lies within the
/// bytes, and its serialized form is the bytes it was read from.
pub proof fn lemma_serialize_parsed(bytes: Seq<u8>)
    requires
        parse_chunk(bytes) is Ok,
    ensures
        ({
            let c = parse_chunk(bytes)->Ok_0;
            &&& c.wf()
            &&& 12 + c.data.len() <= bytes.len()
            &&& c.to_bytes() == bytes.take(12 + c.data.len() as int)
        }),
{
    reveal(parse_chunk);
    let c = parse_chunk(bytes)->Ok_0;
    let n = 12 + c.data.len() as int;
    lemma_be32_of_from_be32(bytes.subrange(0, 4));
    lemma_be32_of_from_be32(bytes.subrange(n - 4, n));
    assert(c.to_bytes() =~= bytes.take(n));
}

/// Reading the serialized form of a freshly made chunk gives a chunk equal
/// to it in all fields.
pub proof fn lemma_parse_created(chunk_type: Seq<u8>, data: Seq<u8>)
    requires
        valid_tag(chunk_type),
        data.len() <= u32::MAX,
    ensures
        ChunkView::create(chunk_type, data).wf(),
        parse_chunk(ChunkView::create(chunk_type, data).to_bytes()) == Ok::<
            _,
            TryFromBytesErrorKind,
        >(ChunkView::create(chunk_type, data)),
{
    let c = ChunkView::create(chunk_type, data);
    lemma_parse_serialized(c, Seq::empty());
    assert(c.to_bytes() + Seq::<u8>::empty() =~= c.to_bytes());
}

/// A serialized chunk cut short anywhere before its end is refused for want
/// of bytes.
pub proof fn lemma_parse_truncated(c: ChunkView, n: int)
    requires
        c.wf(),
        0 <= n < 12 + c.data.len(),
    ensures
        parse_chunk(c.to_bytes().take(n)) == Err::<ChunkView, _>(
            TryFromBytesErrorKind::NotEnoughBytes,
        ),
{
    reveal(parse_chunk);
    let bytes = c.to_bytes().take(n);
    lemma_from_be32_of_be32(c.length);
    if n >= 8 {
        assert(bytes.subrange(0, 4) =~= be32(c.length));
        assert(bytes.subrange(4, 8) =~= c.chunk_type);
    }
}

/// A serialized chunk with one bit of its checksum field flipped is refused
/// for its checksum: the one calculated is that of the chunk, the one found
/// is another. `bit` counts through the four bytes of the field, and within
/// each byte from the least significant bit.
pub proof fn lemma_parse_flipped_checksum(c: ChunkView, bit: u8)
    requires
        c.wf(),
        bit < 32,
    ensures
        ({
            let bytes = c.to_bytes();
            let at = 8 + c.data.len() + bit / 8;
            let flipped = bytes.update(at, flip_bit(bytes[at], bit % 8));
            &&& parse_chunk(flipped) matches Err(
                TryFromBytesErrorKind::CorruptCrc { calculated, expected },
            )
            &&& calculated == c.crc
            &&& expected != c.crc
        }),
{
    reveal(parse_chunk);
    let bytes = c.to_bytes();
    let n = c.data.len() as int;
    let j = (bit / 8) as int;
    let k = bit % 8;
    let at = 8 + n + j;
    let flipped = bytes.update(at, flip_bit(bytes[at], k));
    let field = flipped.subrange(8 + n, 12 + n);
    lemma_from_be32_of_be32(c.length);
    lemma_from_be32_of_be32(c.crc);
    assert(flipped.subrange(0, 4) =~= be32(c.length));
    assert(flipped.subrange(4, 8) =~= c.chunk_type);
    assert(flipped.subrange(8, 8 + n) =~= c.data);
    let b = bytes[at];
    assert(b ^ (1u8 << k) != b) by (bit_vector)
        requires
            k < 8,
    ;
    assert(field[j] == flip_bit(b, k));
    assert(be32(c.crc)[j] == b);
    if from_be32(field) == c.crc {
        lemma_be32_of_from_be32(field);
        assert(false);
    }
}

/// Puts the bytes of `src` at the end of `out`.
pub(crate) fn append(out: &mut Vec<u8>, src: &[u8])
    ensures
        final(out)@ == old(out)@ + src@,
{
    let mut i: usize = 0;
    while i < src.len()
        invariant
            0 <= i <= src@.len(),
            out@ == old(out)@ + src@.take(i as int),
        decreases src@.len() - i,
    {
        out.push(src[i]);
        assert(src@.take(i + 1) =~= src@.take(i as int).push(src@[i as int]));
        assert(out@ =~= old(out)@ + src@.take(i + 1));
        i += 1;
    }
    assert(src@.take(i as int) =~= src@);
}

} // verus!
