//! Four-letter chunk type tags and the property flags they encode.

use vstd::prelude::*;
use vstd::utf8::*;
use vstd::string::*;
use crate::error::PngError;
use crate::text::{byte_list, push_byte_list};

verus! {

broadcast use vstd::utf8::group_utf8_lib;

/// An ASCII letter, `A`–`Z` or `a`–`z`.
pub open spec fn is_letter(b: u8) -> bool {
    (65 <= b <= 90) || (97 <= b <= 122)
}

/// Four bytes, each an ASCII letter.
pub open spec fn is_letter_tag(s: Seq<u8>) -> bool {
    s.len() == 4 && forall|i: int| 0 <= i < 4 ==> #[trigger] is_letter(s[i])
}

/// Bit 5 of a byte: the lower-case bit of an ASCII letter.
pub open spec fn bit5(b: u8) -> bool {
    (b >> 5u8) & 1u8 != 0u8
}

/// A tag that is made of letters and whose reserved bit (bit 5 of the third
/// byte) is clear.
pub open spec fn is_valid_tag(s: Seq<u8>) -> bool {
    is_letter_tag(s) && !bit5(s[2])
}

/// The text of a tag: one character per byte.
pub open spec fn tag_text(s: Seq<u8>) -> Seq<char> {
    s.map_values(|b: u8| b as char)
}

/// What building a tag from `b` yields: the bytes themselves, or the reason
/// they do not form a tag.
pub open spec fn tag_from_bytes(b: Seq<u8>) -> Result<Seq<u8>, PngError> {
    if b.len() != 4 {
        Err(PngError::InvalidLength { len: b.len() as usize })
    } else if !is_letter_tag(b) {
        Err(PngError::InvalidTypeBytes)
    } else {
        Ok(b)
    }
}

/// The text form of a tag: `ChunkType: { Bytes: [82, 117, 83, 116]}`.
pub open spec fn chunk_type_text(t: Seq<u8>) -> Seq<char> {
    "ChunkType: { Bytes: "@ + byte_list(t) + "}"@
}

/// A chunk type tag: four ASCII letters.
#[derive(Debug, Clone, Copy, PartialEq, Eq)]
pub struct ChunkType {
    m_bytes: [u8; 4],
}

impl View for ChunkType {
    type V = Seq<u8>;

    closed spec fn view(&self) -> Seq<u8> {
        self.m_bytes@
    }
}

impl ChunkType {
    #[verifier::type_invariant]
    closed spec fn inv(self) -> bool {
        is_letter_tag(self.m_bytes@)
    }

    /// Builds a tag from four letter bytes.
    pub fn from_bytes(bytes: &[u8]) -> (r: Result<ChunkType, PngError>)
        ensures
            match r {
                Ok(t) => tag_from_bytes(bytes@) == Ok::<Seq<u8>, PngError>(t@),
                Err(e) => tag_from_bytes(bytes@) == Err::<Seq<u8>, PngError>(e),
            },
    {
        if bytes.len() != 4 {
            return Err(PngError::InvalidLength { len: bytes.len() });
        }
        if !Self::is_bytes_valid(bytes) {
            return Err(PngError::InvalidTypeBytes);
        }
        let m_bytes: [u8; 4] = [bytes[0], bytes[1], bytes[2], bytes[3]];
        assert(m_bytes@ =~= bytes@);
        Ok(ChunkType { m_bytes })
    }

    /// Builds a tag from text of four letters; the byte count is what counts.
    pub fn from_str(s: &str) -> (r: Result<ChunkType, PngError>)
        ensures
            match r {
                Ok(t) => tag_from_bytes(s.spec_bytes()) == Ok::<Seq<u8>, PngError>(t@),
                Err(e) => tag_from_bytes(s.spec_bytes()) == Err::<Seq<u8>, PngError>(e),
            },
    {
        Self::from_bytes(s.as_bytes())
    }

    /// The four bytes of the tag.
    pub fn bytes(&self) -> (r: &[u8])
        ensures
            r@ == self@,
            is_letter_tag(self@),
    {
        proof {
            use_type_invariant(self);
        }
        self.m_bytes.as_slice()
    }

    /// The tag as text.
    pub fn str(&self) -> (r: &str)
        ensures
            r@ == tag_text(self@),
            r.spec_bytes() == self@,
            is_letter_tag(self@),
    {
        proof {
            use_type_invariant(self);
            lemma_letters_are_text(self@);
        }
        let r = utf8_text(self.m_bytes.as_slice());
        r.unwrap()
    }

    /// The human-readable form of the tag.
    pub fn to_string(&self) -> (r: String)
        ensures
            r@ == chunk_type_text(self@),
    {
        let mut out = String::new();
        self.write_text(&mut out);
        assert(out@ =~= chunk_type_text(self@));
        out
    }

    /// Appends the human-readable form of the tag to `out`.
    pub fn write_text(&self, out: &mut String)
        ensures
            final(out)@ == old(out)@ + chunk_type_text(self@),
    {
        out.append("ChunkType: { Bytes: ");
        push_byte_list(out, self.m_bytes.as_slice());
        out.append("}");
        assert(out@ =~= old(out)@ + chunk_type_text(self@));
    }

    /// Whether the tag is made of letters and its reserved bit is clear.
    pub fn is_valid(&self) -> (r: bool)
        ensures
            r == is_valid_tag(self@),
    {
        proof {
            use_type_invariant(self);
        }
        Self::is_bytes_valid(self.bytes()) && self.is_reserved_bit_valid()
    }

    /// Whether every byte of `bytes` is an ASCII letter.
    fn is_bytes_valid(bytes: &[u8]) -> (r: bool)
        ensures
            r == forall|i: int| 0 <= i < bytes@.len() ==> #[trigger] is_letter(bytes@[i]),
    {
        let mut i: usize = 0;
        while i < bytes.len()
            invariant
                i <= bytes@.len(),
                forall|j: int| 0 <= j < i ==> #[trigger] is_letter(bytes@[j]),
            decreases bytes@.len() - i,
        {
            let b = bytes[i];
            if !((65 <= b && b <= 90) || (97 <= b && b <= 122)) {
                assert(!is_letter(bytes@[i as int]));
                return false;
            }
            i = i + 1;
        }
        true
    }

    /// Critical: bit 5 of the first byte is clear.
    pub fn is_critical(&self) -> (r: bool)
        ensures
            r == !bit5(self@[0]),
    {
        (self.m_bytes[0] >> 5u8) & 1u8 == 0u8
    }

    /// Public: bit 5 of the second byte is clear.
    pub fn is_public(&self) -> (r: bool)
        ensures
            r == !bit5(self@[1]),
    {
        (self.m_bytes[1] >> 5u8) & 1u8 == 0u8
    }

    /// Reserved bit valid: bit 5 of the third byte is clear.
    pub fn is_reserved_bit_valid(&self) -> (r: bool)
        ensures
            r == !bit5(self@[2]),
    {
        (self.m_bytes[2] >> 5u8) & 1u8 == 0u8
    }

    /// Safe to copy: bit 5 of the fourth byte is set.
    pub fn is_safe_to_copy(&self) -> (r: bool)
        ensures
            r == bit5(self@[3]),
    {
        (self.m_bytes[3] >> 5u8) & 1u8 != 0u8
    }
}

/// Letter bytes are valid UTF-8, and the text they encode has one character
/// per byte.
pub proof fn lemma_letters_are_text(s: Seq<u8>)
    requires
        is_letter_tag(s),
    ensures
        valid_utf8(s),
        decode_utf8(s) == tag_text(s),
{
    let t = tag_text(s);
    assert forall|i: int| 0 <= i < t.len() implies '\0' <= #[trigger] t[i] <= '\u{7f}' by {
        assert(is_letter(s[i]));
    }
    assert(is_ascii_chars(t));
    is_ascii_chars_encode_utf8(t);
    assert(encode_utf8(t) =~= s);
}

/// Relies on `std::str::from_utf8`: it accepts exactly the valid UTF-8 byte
/// sequences, and the text it returns has those bytes.
#[verifier::external_body]
pub(crate) fn utf8_text(b: &[u8]) -> (r: Option<&str>)
    ensures
        r is Some <==> valid_utf8(b@),
        r matches Some(s) ==> s.spec_bytes() == b@,
{
    std::str::from_utf8(b).ok()
}

} // verus!
