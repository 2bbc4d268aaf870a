//! The four-byte type tag of a chunk and the properties its bytes carry.

use crate::error::Error;
use crate::text::{ascii_text, is_ascii_bytes, lemma_ascii_text, lossy_string, lossy_text};
use vstd::utf8::{decode_utf8, valid_utf8};
use vstd::prelude::*;
use vstd::string::StringSliceAdditionalSpecFns;

verus! {

/// The bit whose state in each tag byte carries one property.
pub const PROPERTY_BIT: u8 = 0x20;

/// An ASCII letter, `A`-`Z` or `a`-`z`.
pub open spec fn is_letter(b: u8) -> bool {
    (65 <= b && b <= 90) || (97 <= b && b <= 122)
}

/// Property bit of a tag byte is clear.
pub open spec fn bit_clear(b: u8) -> bool {
    b & 0x20 == 0
}

/// A tag's bytes as text: four ASCII letters.
pub open spec fn is_tag_text(s: Seq<u8>) -> bool {
    s.len() == 4 && forall|i: int| 0 <= i < 4 ==> is_letter(#[trigger] s[i])
}

/// Letters are ASCII.
pub proof fn lemma_letters_ascii(s: Seq<u8>)
    requires
        is_tag_text(s),
    ensures
        is_ascii_bytes(s),
{
    assert forall|i: int| 0 <= i < s.len() implies #[trigger] s[i] < 128 by {
        assert(is_letter(s[i]));
    }
}

/// Where a text first departs from four ASCII letters, if it does: the
/// first non-letter among its first four bytes, else its length when that
/// is not four.
pub open spec fn first_fault(s: Seq<u8>, position: int) -> bool {
    &&& 0 <= position <= 4
    &&& position <= s.len()
    &&& forall|j: int| 0 <= j < position ==> is_letter(#[trigger] s[j])
    &&& (position < 4 && position < s.len() ==> !is_letter(s[position]))
    &&& (position == 4 ==> s.len() > 4)
}

/// A chunk type: four bytes, compared byte for byte.
#[derive(Debug, Clone, Copy, PartialEq, Eq)]
pub struct ChunkType {
    bytes: [u8; 4],
}

impl View for ChunkType {
    type V = Seq<u8>;

    closed spec fn view(&self) -> Seq<u8> {
        self.bytes@
    }
}

impl ChunkType {
    /// The tag made of these four bytes, whatever they are.
    pub fn from_bytes(bytes: [u8; 4]) -> (r: ChunkType)
        ensures
            r@ == bytes@,
    {
        ChunkType { bytes }
    }

    /// The tag spelled by `s`, which must be four ASCII letters.
    pub fn from_str(s: &str) -> (r: Result<ChunkType, Error>)
        ensures
            r is Ok <==> is_tag_text(s.spec_bytes()),
            r matches Ok(t) ==> t@ == s.spec_bytes(),
            r matches Err(e) ==> (e matches Error::InvalidFormat { position, byte }
                && first_fault(s.spec_bytes(), position as int)
                && (position < s.spec_bytes().len() ==> byte == Some(s.spec_bytes()[position as int]))
                && (position == s.spec_bytes().len() ==> byte is None)),
    {
        let b = s.as_bytes();
        let n = b.len();
        let mut out: [u8; 4] = [0, 0, 0, 0];
        let mut i: usize = 0;
        while i < 4
            invariant
                b@ == s.spec_bytes(),
                n == b@.len(),
                i <= 4,
                i <= n,
                forall|j: int| 0 <= j < i ==> j < n && is_letter(#[trigger] b@[j]) && out@[j] == b@[j],
            decreases 4 - i,
        {
            if i >= n {
                return Err(Error::InvalidFormat { position: i, byte: None });
            }
            let c = b[i];
            if !((65 <= c && c <= 90) || (97 <= c && c <= 122)) {
                return Err(Error::InvalidFormat { position: i, byte: Some(c) });
            }
            out[i] = c;
            i = i + 1;
        }
        if n > 4 {
            return Err(Error::InvalidFormat { position: 4, byte: Some(b[4]) });
        }
        assert(out@ =~= b@) by {
            assert(out@.len() == 4);
        }
        Ok(ChunkType { bytes: out })
    }

    /// A tag has four bytes.
    pub proof fn lemma_len(&self)
        ensures
            self@.len() == 4,
    {
    }

    /// The four bytes of the tag.
    pub fn bytes(&self) -> (r: [u8; 4])
        ensures
            r@ == self@,
    {
        self.bytes
    }

    /// The tag meets the format's rules: its reserved bit is clear.
    pub fn is_valid(&self) -> (r: bool)
        ensures
            r == bit_clear(self@[2]),
    {
        self.is_reserved_bit_valid()
    }

    /// Readers must understand this chunk: bit 5 of the first byte is clear.
    pub fn is_critical(&self) -> (r: bool)
        ensures
            r == bit_clear(self@[0]),
    {
        self.bytes[0] & PROPERTY_BIT == 0
    }

    /// The type is registered: bit 5 of the second byte is clear.
    pub fn is_public(&self) -> (r: bool)
        ensures
            r == bit_clear(self@[1]),
    {
        self.bytes[1] & PROPERTY_BIT == 0
    }

    /// The reserved bit, bit 5 of the third byte, is clear.
    pub fn is_reserved_bit_valid(&self) -> (r: bool)
        ensures
            r == bit_clear(self@[2]),
    {
        self.bytes[2] & PROPERTY_BIT == 0
    }

    /// Editors may copy this chunk unchanged: bit 5 of the fourth byte is set.
    pub fn is_safe_to_copy(&self) -> (r: bool)
        ensures
            r == !bit_clear(self@[3]),
    {
        self.bytes[3] & PROPERTY_BIT != 0
    }

    /// The tag's bytes are those of `name`: for a tag of letters, its text
    /// is `name`.
    pub fn is_named(&self, name: &str) -> (r: bool)
        ensures
            r == (self@ == name.spec_bytes()),
    {
        let b = name.as_bytes();
        if b.len() != 4 {
            return false;
        }
        let r = self.bytes[0] == b[0] && self.bytes[1] == b[1] && self.bytes[2] == b[2]
            && self.bytes[3] == b[3];
        proof {
            if r {
                assert(self@ =~= b@);
            }
        }
        r
    }

    /// The tag as text. Bytes that are not UTF-8 render as U+FFFD; a tag of
    /// four ASCII letters renders as those letters.
    pub fn to_string(&self) -> (r: String)
        ensures
            r@ == lossy_text(self@),
            valid_utf8(self@) ==> r@ == decode_utf8(self@),
            is_tag_text(self@) ==> r@ == ascii_text(self@) && r@.len() == 4,
    {
        proof {
            if is_tag_text(self@) {
                lemma_letters_ascii(self@);
                lemma_ascii_text(self@);
            }
        }
        lossy_string(&self.bytes)
    }

    /// Two tags with the same bytes are the same tag.
    pub proof fn lemma_view_eq(a: ChunkType, b: ChunkType)
        requires
            a@ == b@,
        ensures
            a == b,
    {
        assert(a.bytes =~= b.bytes);
    }
}

impl TryFrom<[u8; 4]> for ChunkType {
    type Error = Error;

    /// Any four bytes make a tag.
    fn try_from(bytes: [u8; 4]) -> (r: Result<ChunkType, Error>)
        ensures
            r matches Ok(t) && t@ == bytes@,
    {
        Ok(ChunkType { bytes })
    }
}

impl vstd::std_specs::convert::TryFromSpecImpl<[u8; 4]> for ChunkType {
    open spec fn obeys_try_from_spec() -> bool {
        true
    }

    closed spec fn try_from_spec(bytes: [u8; 4]) -> Result<ChunkType, Error> {
        Ok(ChunkType { bytes })
    }
}

impl std::str::FromStr for ChunkType {
    type Err = Error;

    /// Same as `ChunkType::from_str`.
    fn from_str(s: &str) -> Result<ChunkType, Error> {
        ChunkType::from_str(s)
    }
}

} // verus!
