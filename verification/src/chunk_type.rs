//! The 4-byte chunk type tag and its validity rules.
//!
//! A tag can always be built from raw bytes (chunks already present in a file
//! must round-trip even when nonstandard), while building one from text
//! enforces the narrower rule that rejects decimal digits. The case of each
//! byte encodes the tag's properties: bit 5 distinguishes upper from lower
//! case, and the PNG format reads it as criticality, visibility, reserved-bit
//! validity and copy safety.

use vstd::prelude::*;

use crate::utf8::string_from_bytes;
use vstd::string::StringSliceAdditionalSpecFns;
use vstd::utf8::decode_utf8;
use vstd::utf8::valid_utf8;

verus! {

/// The byte is an ASCII uppercase letter, `A` to `Z`.
pub open spec fn is_uppercase_byte(b: u8) -> bool {
    65 <= b <= 90
}

/// The byte is an ASCII lowercase letter, `a` to `z`.
pub open spec fn is_lowercase_byte(b: u8) -> bool {
    97 <= b <= 122
}

/// The byte is an ASCII letter.
pub open spec fn is_alphabetic_byte(b: u8) -> bool {
    is_uppercase_byte(b) || is_lowercase_byte(b)
}

/// The byte is an ASCII decimal digit, `0` to `9`.
pub open spec fn is_digit_byte(b: u8) -> bool {
    48 <= b <= 57
}

/// A structurally valid tag: four bytes, all ASCII letters, with the third
/// byte (the reserved bit) uppercase.
pub open spec fn spec_type_valid(tag: Seq<u8>) -> bool {
    &&& tag.len() == 4
    &&& is_uppercase_byte(tag[2])
    &&& forall|i: int| 0 <= i < 4 ==> is_alphabetic_byte(#[trigger] tag[i])
}

/// Text is accepted as a tag when its encoding is exactly four bytes, none of
/// them a decimal digit.
pub open spec fn spec_text_accepted(encoded: Seq<u8>) -> bool {
    &&& encoded.len() == 4
    &&& forall|i: int| 0 <= i < encoded.len() ==> !is_digit_byte(#[trigger] encoded[i])
}

/// Text built from a tag is not exactly four bytes, or holds a decimal digit.
#[derive(Debug, Clone, Copy, PartialEq, Eq)]
pub struct InvalidChunkType;

/// A tag's bytes are not valid UTF-8, so the tag has no text rendering.
#[derive(Debug, Clone, Copy, PartialEq, Eq)]
pub struct InvalidUtf8;

/// A 4-byte chunk type tag, stored verbatim.
#[derive(Debug, Clone, Copy, PartialEq, Eq, Hash)]
pub struct ChunkType {
    tag: [u8; 4],
}

impl View for ChunkType {
    type V = Seq<u8>;

    closed spec fn view(&self) -> Seq<u8> {
        self.tag@
    }
}

/// A tag always holds exactly four bytes.
pub broadcast proof fn lemma_chunk_type_len(t: ChunkType)
    ensures
        (#[trigger] t@).len() == 4,
{
    broadcast use vstd::array::group_array_axioms;

}

impl ChunkType {
    /// Builds a tag from raw bytes, stored verbatim. Never fails: validity is
    /// a separate query, not a precondition, so tags read from an existing
    /// file round-trip even when nonstandard.
    pub fn parse_bytes(bytes: [u8; 4]) -> (r: ChunkType)
        ensures
            r@ == bytes@,
    {
        ChunkType { tag: bytes }
    }

    /// Builds a tag from text. Fails when the text's encoding is not exactly
    /// four bytes or contains a decimal digit; succeeds otherwise, storing the
    /// encoded bytes verbatim.
    pub fn parse_text(s: &str) -> (r: Result<ChunkType, InvalidChunkType>)
        ensures
            r is Ok <==> spec_text_accepted(s.spec_bytes()),
            r matches Ok(t) ==> t@ == s.spec_bytes(),
    {
        let encoded: &[u8] = s.as_bytes();
        if encoded.len() != 4 {
            return Err(InvalidChunkType);
        }
        let mut i: usize = 0;
        while i < 4
            invariant
                0 <= i <= 4,
                encoded@ == s.spec_bytes(),
                encoded@.len() == 4,
                forall|j: int| 0 <= j < i ==> !is_digit_byte(#[trigger] encoded@[j]),
            decreases 4 - i,
        {
            if 48 <= encoded[i] && encoded[i] <= 57 {
                assert(is_digit_byte(s.spec_bytes()[i as int]));
                return Err(InvalidChunkType);
            }
            i = i + 1;
        }
        Ok(ChunkType { tag: [encoded[0], encoded[1], encoded[2], encoded[3]] })
    }

    /// The raw bytes of the tag.
    pub fn bytes(&self) -> (r: [u8; 4])
        ensures
            r@ == self@,
    {
        self.tag
    }

    /// The chunk is critical when the first byte is uppercase.
    pub fn is_critical(&self) -> (r: bool)
        ensures
            r == is_uppercase_byte(self@[0]),
    {
        65 <= self.tag[0] && self.tag[0] <= 90
    }

    /// The chunk is public when the second byte is uppercase.
    pub fn is_public(&self) -> (r: bool)
        ensures
            r == is_uppercase_byte(self@[1]),
    {
        65 <= self.tag[1] && self.tag[1] <= 90
    }

    /// The reserved bit is valid when the third byte is uppercase.
    pub fn is_reserved_bit_valid(&self) -> (r: bool)
        ensures
            r == is_uppercase_byte(self@[2]),
    {
        65 <= self.tag[2] && self.tag[2] <= 90
    }

    /// The chunk is safe to copy when the fourth byte is lowercase.
    pub fn is_safe_to_copy(&self) -> (r: bool)
        ensures
            r == is_lowercase_byte(self@[3]),
    {
        97 <= self.tag[3] && self.tag[3] <= 122
    }

    /// The tag is valid exactly when the reserved bit is valid and all four
    /// bytes are ASCII letters.
    pub fn is_valid(&self) -> (r: bool)
        ensures
            r == spec_type_valid(self@),
    {
        let mut i: usize = 0;
        let mut all_alphabetic = true;
        while i < 4
            invariant
                0 <= i <= 4,
                all_alphabetic == forall|j: int|
                    0 <= j < i ==> is_alphabetic_byte(#[trigger] self.tag@[j]),
            decreases 4 - i,
        {
            let b = self.tag[i];
            if !((65 <= b && b <= 90) || (97 <= b && b <= 122)) {
                all_alphabetic = false;
            }
            i = i + 1;
        }
        self.is_reserved_bit_valid() && all_alphabetic
    }

    /// The tag's bytes rendered as text. Fails when the bytes are not valid
    /// UTF-8; a tag parsed from text or one whose bytes are ASCII always
    /// renders.
    pub fn as_text(&self) -> (r: Result<String, InvalidUtf8>)
        ensures
            r is Ok <==> valid_utf8(self@),
            r matches Ok(s) ==> s@ == decode_utf8(self@),
    {
        let mut raw: Vec<u8> = Vec::new();
        raw.push(self.tag[0]);
        raw.push(self.tag[1]);
        raw.push(self.tag[2]);
        raw.push(self.tag[3]);
        assert(raw@ =~= self@);
        match string_from_bytes(raw) {
            Some(s) => Ok(s),
            None => Err(InvalidUtf8),
        }
    }
}

} // verus!
