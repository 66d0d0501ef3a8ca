//! The four-letter type code of a chunk and the property bits that the case
//! of its letters carries.

use crate::error::FormatError;
use crate::text::{
    ascii_bytes, ascii_string, ascii_text, lemma_ascii_bytes_decode, lemma_ascii_text_encode,
};
use vstd::prelude::*;
use vstd::string::*;
use vstd::utf8::*;

verus! {

/// `b` is an ASCII capital letter.
pub open spec fn is_upper(b: u8) -> bool {
    0x41 <= b <= 0x5a
}

/// `b` is an ASCII small letter.
pub open spec fn is_lower(b: u8) -> bool {
    0x61 <= b <= 0x7a
}

/// `b` is an ASCII letter.
pub open spec fn is_letter(b: u8) -> bool {
    is_upper(b) || is_lower(b)
}

/// `code` is a well-formed type code: four bytes, each an ASCII letter.
pub open spec fn is_type_code(code: Seq<u8>) -> bool {
    &&& code.len() == 4
    &&& forall|i: int| 0 <= i < 4 ==> is_letter(#[trigger] code[i])
}

/// `c` is an ASCII letter.
pub open spec fn is_ascii_letter(c: char) -> bool {
    ('A' <= c <= 'Z') || ('a' <= c <= 'z')
}

/// `text` is exactly four ASCII letters.
pub open spec fn is_type_text(text: Seq<char>) -> bool {
    &&& text.len() == 4
    &&& forall|i: int| 0 <= i < 4 ==> is_ascii_letter(#[trigger] text[i])
}

fn byte_is_upper(b: u8) -> (r: bool)
    ensures
        r == is_upper(b),
{
    0x41 <= b && b <= 0x5a
}

fn byte_is_lower(b: u8) -> (r: bool)
    ensures
        r == is_lower(b),
{
    0x61 <= b && b <= 0x7a
}

/// A validated chunk type: four ASCII letters.
#[derive(PartialEq, Eq, Debug)]
pub struct ChunkType {
    bytes: [u8; 4],
}

impl View for ChunkType {
    type V = Seq<u8>;

    closed spec fn view(&self) -> Seq<u8> {
        self.bytes@
    }
}

impl ChunkType {
    /// Every chunk type is four ASCII letters.
    #[verifier::type_invariant]
    pub open spec fn well_formed(&self) -> bool {
        is_type_code(self@)
    }

    /// Builds a chunk type from four bytes, which must all be ASCII letters.
    pub fn from_bytes(bytes: [u8; 4]) -> (res: Result<ChunkType, FormatError>)
        ensures
            match res {
                Ok(t) => is_type_code(bytes@) && t@ == bytes@,
                Err(e) => !is_type_code(bytes@) && e == FormatError::InvalidChunkType,
            },
    {
        let mut i: usize = 0;
        while i < 4
            invariant
                i <= 4,
                forall|j: int| 0 <= j < i ==> is_letter(#[trigger] bytes@[j]),
            decreases 4 - i,
        {
            let b = bytes[i];
            if !(byte_is_upper(b) || byte_is_lower(b)) {
                return Err(FormatError::InvalidChunkType);
            }
            i += 1;
        }
        Ok(ChunkType { bytes })
    }

    /// Builds a chunk type from a text, which must be exactly four ASCII
    /// letters.
    pub fn from_text(text: &str) -> (res: Result<ChunkType, FormatError>)
        ensures
            match res {
                Ok(t) => is_type_text(text@) && t@ == ascii_bytes(text@),
                Err(e) => !is_type_text(text@) && e == FormatError::InvalidChunkType,
            },
    {
        if !text.is_ascii() {
            proof {
                if is_type_text(text@) {
                    lemma_type_text_is_ascii(text@);
                }
            }
            return Err(FormatError::InvalidChunkType);
        }
        proof {
            lemma_ascii_text_encode(text@);
        }
        if text.len() != 4 {
            return Err(FormatError::InvalidChunkType);
        }
        let raw = text.as_bytes();
        let bytes: [u8; 4] = [raw[0], raw[1], raw[2], raw[3]];
        assert(bytes@ =~= ascii_bytes(text@));
        proof {
            lemma_type_text_of_code(text@);
        }
        ChunkType::from_bytes(bytes)
    }

    /// The four bytes of the type.
    pub fn bytes(&self) -> (r: [u8; 4])
        ensures
            r@ == self@,
            is_type_code(self@),
    {
        proof {
            use_type_invariant(self);
        }
        self.bytes
    }

    /// Whether the type is valid: its reserved bit must be.
    pub fn is_valid(&self) -> (r: bool)
        ensures
            r == is_upper(self@[2]),
    {
        self.is_reserved_bit_valid()
    }

    /// Whether the chunk is critical: the first letter is a capital.
    pub fn is_critical(&self) -> (r: bool)
        ensures
            r == is_upper(self@[0]),
    {
        byte_is_upper(self.bytes[0])
    }

    /// Whether the chunk is public: the second letter is a capital.
    pub fn is_public(&self) -> (r: bool)
        ensures
            r == is_upper(self@[1]),
    {
        byte_is_upper(self.bytes[1])
    }

    /// Whether the reserved bit is valid: the third letter is a capital.
    pub fn is_reserved_bit_valid(&self) -> (r: bool)
        ensures
            r == is_upper(self@[2]),
    {
        byte_is_upper(self.bytes[2])
    }

    /// Whether the chunk is safe to copy: the fourth letter is small.
    pub fn is_safe_to_copy(&self) -> (r: bool)
        ensures
            r == is_lower(self@[3]),
    {
        byte_is_lower(self.bytes[3])
    }

    /// Whether `name` spells this type, letter for letter.
    pub fn has_text(&self, name: &str) -> (r: bool)
        ensures
            r == (ascii_text(self@) == name@),
    {
        proof {
            use_type_invariant(self);
            lemma_ascii_bytes_decode(self@);
        }
        if name.len() != 4 || !name.is_ascii() {
            proof {
                if is_ascii_chars(name@) {
                    lemma_ascii_text_encode(name@);
                }
            }
            return false;
        }
        proof {
            lemma_ascii_text_encode(name@);
        }
        let raw = name.as_bytes();
        let same = raw[0] == self.bytes[0] && raw[1] == self.bytes[1] && raw[2] == self.bytes[2]
            && raw[3] == self.bytes[3];
        proof {
            if same {
                assert(ascii_bytes(name@) =~= self@);
            }
        }
        same
    }

    /// The type as text: its four letters.
    pub fn to_string(&self) -> (text: String)
        ensures
            text@ == ascii_text(self@),
            is_type_text(text@),
    {
        proof {
            use_type_invariant(self);
            lemma_ascii_bytes_decode(self@);
            lemma_type_text_of_code(ascii_text(self@));
        }
        ascii_string(self.bytes.as_slice())
    }
}

/// A text of four ASCII letters is a text of ASCII characters.
pub proof fn lemma_type_text_is_ascii(text: Seq<char>)
    requires
        is_type_text(text),
    ensures
        is_ascii_chars(text),
{
    assert forall|i: int| 0 <= i < text.len() implies '\0' <= #[trigger] text[i] <= '\u{7f}' by {
        assert(is_ascii_letter(text[i]));
    }
}

/// A text of ASCII characters is four letters exactly when its bytes are a
/// type code.
pub proof fn lemma_type_text_of_code(text: Seq<char>)
    requires
        is_ascii_chars(text),
    ensures
        is_type_text(text) <==> is_type_code(ascii_bytes(text)),
{
    let bytes = ascii_bytes(text);
    if is_type_text(text) {
        assert forall|i: int| 0 <= i < 4 implies is_letter(#[trigger] bytes[i]) by {
            assert(is_ascii_letter(text[i]));
        }
    }
    if is_type_code(bytes) {
        assert forall|i: int| 0 <= i < 4 implies is_ascii_letter(#[trigger] text[i]) by {
            assert(is_letter(bytes[i]));
            assert('\0' <= text[i] <= '\u{7f}');
        }
    }
}

} // verus!
