//! The four-letter type of a chunk, whose letter cases carry four properties.

use crate::text::{
    ascii_text, char_string, decimal, decimal_string, lemma_ascii_is_utf8,
    lemma_encode_utf8_injective, str_from_utf8,
};
use vstd::prelude::*;
use vstd::std_specs::cmp::PartialEqSpecImpl;
use vstd::std_specs::convert::TryFromSpecImpl;
use vstd::string::{StringExecFns, StringSliceAdditionalSpecFns};

verus! {

/// Whether `b` is an ASCII letter, of either case.
pub open spec fn is_letter(b: u8) -> bool {
    (65 <= b <= 90) || (97 <= b <= 122)
}

/// Whether `b` is an upper-case ASCII letter.
pub open spec fn is_uppercase(b: u8) -> bool {
    65 <= b <= 90
}

/// Whether `b` is a lower-case ASCII letter.
pub open spec fn is_lowercase(b: u8) -> bool {
    97 <= b <= 122
}

/// Whether every byte of `s` is an ASCII letter.
pub open spec fn all_letters(s: Seq<u8>) -> bool {
    forall|i: int| 0 <= i < s.len() ==> is_letter(#[trigger] s[i])
}

/// Whether `s` is a legal chunk type: four ASCII letters.
pub open spec fn valid_tag(s: Seq<u8>) -> bool {
    s.len() == 4 && all_letters(s)
}

/// Whether `i` is the position of the leftmost byte of `s` that is no letter.
pub open spec fn is_first_invalid(s: Seq<u8>, i: int) -> bool {
    &&& 0 <= i < s.len()
    &&& !is_letter(s[i])
    &&& forall|j: int| 0 <= j < i ==> is_letter(#[trigger] s[j])
}

/// The position of the leftmost byte of `s` that is no letter, where there is one.
pub open spec fn first_invalid(s: Seq<u8>) -> int {
    choose|i: int| is_first_invalid(s, i)
}

/// What validating the four bytes `s` gives: the bytes themselves, or the
/// position and value of the leftmost byte that is no letter.
pub open spec fn validate_tag(s: Seq<u8>) -> Result<Seq<u8>, TryFromChunkTypeError>
    recommends
        s.len() == 4,
{
    if all_letters(s) {
        Ok(s)
    } else {
        Err(
            (TryFromChunkTypeError {
                index: first_invalid(s) as usize,
                value: s[first_invalid(s)],
            }),
        )
    }
}

/// A sequence with a byte that is no letter has exactly one leftmost such byte.
pub proof fn lemma_first_invalid(s: Seq<u8>)
    requires
        !all_letters(s),
    ensures
        is_first_invalid(s, first_invalid(s)),
        forall|i: int| is_first_invalid(s, i) ==> i == first_invalid(s),
{
    lemma_first_invalid_from(s, 0);
    let k = first_invalid(s);
    assert forall|i: int| is_first_invalid(s, i) implies i == k by {
        if i < k {
            assert(is_letter(s[i]));
        } else if k < i {
            assert(is_letter(s[k]));
        }
    }
}

proof fn lemma_first_invalid_from(s: Seq<u8>, start: int)
    requires
        0 <= start <= s.len(),
        forall|j: int| 0 <= j < start ==> is_letter(#[trigger] s[j]),
        !all_letters(s),
    ensures
        exists|i: int| is_first_invalid(s, i),
    decreases s.len() - start,
{
    if start == s.len() {
        assert(all_letters(s));
    } else if !is_letter(s[start]) {
        assert(is_first_invalid(s, start));
    } else {
        lemma_first_invalid_from(s, start + 1);
    }
}

/// The type of a chunk: four ASCII letters.
#[derive(Debug)]
pub struct ChunkType {
    bytes: [u8; 4],
}

/// Why four bytes are no chunk type: the leftmost byte that is no ASCII letter.
#[derive(Debug)]
pub struct TryFromChunkTypeError {
    pub index: usize,
    pub value: u8,
}

impl View for ChunkType {
    type V = Seq<u8>;

    closed spec fn view(&self) -> Seq<u8> {
        self.bytes@
    }
}

impl ChunkType {
    /// The invariant of a chunk type: its four bytes are ASCII letters.
    pub open spec fn wf(&self) -> bool {
        valid_tag(self@)
    }
}

impl PartialEqSpecImpl for ChunkType {
    open spec fn obeys_eq_spec() -> bool {
        true
    }

    open spec fn eq_spec(&self, other: &ChunkType) -> bool {
        self@ == other@
    }
}

impl PartialEq for ChunkType {
    /// Two chunk types are equal exactly when their bytes are.
    fn eq(&self, other: &ChunkType) -> (r: bool) {
        let r = self.bytes[0] == other.bytes[0] && self.bytes[1] == other.bytes[1] && self.bytes[2]
            == other.bytes[2] && self.bytes[3] == other.bytes[3];
        proof {
            if r {
                assert(self@ =~= other@);
            }
        }
        r
    }
}

impl Eq for ChunkType {

}

/// The general statement of `TryFrom` for this type; the contract of
/// `try_from` says the same over the view.
impl TryFromSpecImpl<[u8; 4]> for ChunkType {
    open spec fn obeys_try_from_spec() -> bool {
        true
    }

    closed spec fn try_from_spec(v: [u8; 4]) -> Result<Self, Self::Error> {
        match validate_tag(v@) {
            Ok(_) => Ok(ChunkType { bytes: v }),
            Err(e) => Err(e),
        }
    }
}

impl TryFrom<[u8; 4]> for ChunkType {
    type Error = TryFromChunkTypeError;

    /// Makes a chunk type of four bytes. It succeeds exactly when all four
    /// are ASCII letters; otherwise the error holds the leftmost byte that is
    /// none, and its position.
    fn try_from(value: [u8; 4]) -> (r: Result<Self, Self::Error>)
        ensures
            r is Ok <==> all_letters(value@),
            r matches Ok(t) ==> t@ == value@ && t.wf(),
            r matches Err(e) ==> is_first_invalid(value@, e.index as int) && e.value
                == value@[e.index as int] && validate_tag(value@) == Err::<Seq<u8>, _>(e),
    {
        let mut i: usize = 0;
        while i < 4
            invariant
                0 <= i <= 4,
                forall|j: int| 0 <= j < i ==> is_letter(#[trigger] value@[j]),
            decreases 4 - i,
        {
            let val = value[i];
            if !((65 <= val && val <= 90) || (97 <= val && val <= 122)) {
                proof {
                    assert(is_first_invalid(value@, i as int));
                    assert(!is_letter(value@[i as int]));
                    lemma_first_invalid(value@);
                }
                return Err(TryFromChunkTypeError { index: i, value: val });
            }
            i += 1;
        }
        Ok(Self { bytes: value })
    }
}

/// Why a text is no chunk type.
#[derive(Debug)]
pub enum ParseChunkTypeError {
    /// The text is not four bytes long.
    InvalidLength,
    /// The text holds this byte, read as a character, which is no ASCII letter.
    NotInRange(char),
}

/// Why a text with the UTF-8 encoding `bytes` is no chunk type, where it is none.
pub open spec fn text_error(bytes: Seq<u8>) -> ParseChunkTypeError {
    if bytes.len() != 4 {
        ParseChunkTypeError::InvalidLength
    } else {
        ParseChunkTypeError::NotInRange(bytes[first_invalid(bytes)] as char)
    }
}

impl ChunkType {
    /// The four letters as text.
    pub open spec fn text(&self) -> Seq<char> {
        ascii_text(self@)
    }

    /// The four bytes.
    pub fn bytes(&self) -> (r: [u8; 4])
        ensures
            r@ == self@,
    {
        self.bytes
    }

    /// The four bytes, borrowed.
    pub fn as_slice(&self) -> (r: &[u8])
        ensures
            r@ == self@,
    {
        self.bytes.as_slice()
    }

    /// The four letters as text.
    pub fn as_str(&self) -> (r: &str)
        requires
            self.wf(),
        ensures
            r@ == self.text(),
    {
        proof {
            lemma_ascii_is_utf8(self@);
        }
        match str_from_utf8(self.as_slice()) {
            Some(s) => s,
            None => vstd::pervasive::unreached(),
        }
    }

    /// The four letters as an owned text.
    pub fn to_string(&self) -> (r: String)
        requires
            self.wf(),
        ensures
            r@ == self.text(),
    {
        self.as_str().to_owned()
    }

    /// Whether the type is valid: its reserved bit is.
    pub fn is_valid(&self) -> (r: bool)
        requires
            self.wf(),
        ensures
            r == is_uppercase(self@[2]),
    {
        self.is_reserved_bit_valid()
    }

    /// Whether the chunk is critical: the first letter is upper case.
    pub fn is_critical(&self) -> (r: bool)
        requires
            self.wf(),
        ensures
            r == is_uppercase(self@[0]),
    {
        let b = self.bytes[0];
        assert(((b & 32u8) != 32) == (b <= 90)) by (bit_vector)
            requires
                (65 <= b <= 90) || (97 <= b <= 122),
        ;
        (b & 32u8) != 32
    }

    /// Whether the chunk is public: the second letter is upper case.
    pub fn is_public(&self) -> (r: bool)
        requires
            self.wf(),
        ensures
            r == is_uppercase(self@[1]),
    {
        let b = self.bytes[1];
        assert(((b & 32u8) != 32) == (b <= 90)) by (bit_vector)
            requires
                (65 <= b <= 90) || (97 <= b <= 122),
        ;
        (b & 32u8) != 32
    }

    /// Whether the reserved bit is valid: the third letter is upper case.
    pub fn is_reserved_bit_valid(&self) -> (r: bool)
        requires
            self.wf(),
        ensures
            r == is_uppercase(self@[2]),
    {
        let b = self.bytes[2];
        assert(((b & 32u8) != 32) == (b <= 90)) by (bit_vector)
            requires
                (65 <= b <= 90) || (97 <= b <= 122),
        ;
        (b & 32u8) != 32
    }

    /// Whether the chunk is safe to copy: the fourth letter is lower case.
    pub fn is_safe_to_copy(&self) -> (r: bool)
        requires
            self.wf(),
        ensures
            r == is_lowercase(self@[3]),
    {
        let b = self.bytes[3];
        assert(((b & 32u8) == 32) == (b >= 97)) by (bit_vector)
            requires
                (65 <= b <= 90) || (97 <= b <= 122),
        ;
        (b & 32u8) == 32
    }

    /// Reads a chunk type from a text. It succeeds exactly when the text is
    /// four ASCII letters, and the type then reads back as that text. A text
    /// of another length in bytes is refused as such; one of four bytes, by
    /// its leftmost byte that is no letter.
    pub fn from_str(s: &str) -> (r: Result<ChunkType, ParseChunkTypeError>)
        ensures
            r is Ok <==> valid_tag(s.spec_bytes()),
            r matches Ok(t) ==> t.wf() && t@ == s.spec_bytes() && t.text() == s@,
            r matches Err(e) ==> e == text_error(s.spec_bytes()),
    {
        let bytes = s.as_bytes();
        if bytes.len() != 4 {
            return Err(ParseChunkTypeError::InvalidLength);
        }
        let buf: [u8; 4] = [bytes[0], bytes[1], bytes[2], bytes[3]];
        assert(buf@ =~= bytes@);
        match ChunkType::try_from(buf) {
            Ok(t) => {
                proof {
                    lemma_ascii_is_utf8(t@);
                    lemma_encode_utf8_injective(t.text(), s@);
                }
                Ok(t)
            },
            Err(e) => {
                proof {
                    lemma_first_invalid(buf@);
                }
                Err(ParseChunkTypeError::NotInRange(e.value as char))
            },
        }
    }
}

impl TryFromChunkTypeError {
    /// The error as a message for a reader.
    pub open spec fn text(self) -> Seq<char> {
        "invalid byte `"@ + decimal(self.value as nat) + "` at index "@ + decimal(
            self.index as nat,
        )
    }

    /// The error as a message for a reader.
    pub fn to_string(&self) -> (r: String)
        ensures
            r@ == self.text(),
    {
        let mut out = String::from_str("invalid byte `");
        let value = decimal_string(self.value as u64);
        out.append(value.as_str());
        out.append("` at index ");
        let index = decimal_string(self.index as u64);
        out.append(index.as_str());
        out
    }
}

impl ParseChunkTypeError {
    /// The error as a message for a reader.
    pub open spec fn text(self) -> Seq<char> {
        match self {
            ParseChunkTypeError::InvalidLength => "length needs to be 4"@,
            ParseChunkTypeError::NotInRange(value) => "invalid value `"@ + seq![value]
                + "`, acceptable range 'A-Z and a-z'"@,
        }
    }

    /// The error as a message for a reader.
    pub fn to_string(&self) -> (r: String)
        ensures
            r@ == self.text(),
    {
        match self {
            ParseChunkTypeError::InvalidLength => String::from_str("length needs to be 4"),
            ParseChunkTypeError::NotInRange(value) => {
                let mut out = String::from_str("invalid value `");
                let c = char_string(*value);
                out.append(c.as_str());
                out.append("`, acceptable range 'A-Z and a-z'");
                out
            },
        }
    }
}

impl std::str::FromStr for ChunkType {
    type Err = ParseChunkTypeError;

    /// Reads a chunk type from a text, as [`ChunkType::from_str`] does.
    fn from_str(s: &str) -> (r: Result<Self, Self::Err>)
        ensures
            r is Ok <==> valid_tag(s.spec_bytes()),
            r matches Ok(t) ==> t.wf() && t@ == s.spec_bytes() && t.text() == s@,
            r matches Err(e) ==> e == text_error(s.spec_bytes()),
    {
        ChunkType::from_str(s)
    }
}

} // verus!
