use vstd::prelude::*;
use vstd::string::StrSliceExecFns;
use crate::error::ChunkTypeDecodingError;

verus! {

/// The byte is an upper-case ASCII letter.
pub open spec fn is_upper(b: u8) -> bool {
    65 <= b <= 90
}

/// The byte is a lower-case ASCII letter.
pub open spec fn is_lower(b: u8) -> bool {
    97 <= b <= 122
}

/// The byte is an ASCII letter.
pub open spec fn is_alpha(b: u8) -> bool {
    is_upper(b) || is_lower(b)
}

/// Every byte of `s` is an ASCII letter.
pub open spec fn all_alpha(s: Seq<u8>) -> bool {
    forall|i: int| 0 <= i < s.len() ==> is_alpha(#[trigger] s[i])
}

/// Four ASCII letters: the bytes of a well-formed type tag.
pub open spec fn valid_tag(s: Seq<u8>) -> bool {
    s.len() == 4 && all_alpha(s)
}

/// The first byte of a four-byte tag that is not a letter.
pub open spec fn first_bad_byte(s: Seq<u8>) -> u8 {
    if !is_alpha(s[0]) {
        s[0]
    } else if !is_alpha(s[1]) {
        s[1]
    } else if !is_alpha(s[2]) {
        s[2]
    } else {
        s[3]
    }
}

/// What reading four bytes as a type tag gives: the tag's bytes, or the error.
pub open spec fn parse_tag(s: Seq<u8>) -> Result<Seq<u8>, ChunkTypeDecodingError> {
    if all_alpha(s) {
        Ok(s)
    } else {
        Err(ChunkTypeDecodingError::BadByte(first_bad_byte(s)))
    }
}

/// The characters that the bytes stand for, one for one.
pub open spec fn tag_chars(s: Seq<u8>) -> Seq<char> {
    s.map_values(|b: u8| b as char)
}

/// The bytes that ASCII characters stand for, one for one.
pub open spec fn char_bytes(s: Seq<char>) -> Seq<u8> {
    s.map_values(|c: char| c as u8)
}

/// The character is an ASCII letter.
pub open spec fn is_alpha_char(c: char) -> bool {
    ('A' <= c && c <= 'Z') || ('a' <= c && c <= 'z')
}

/// What reading a text as a type tag gives.
pub open spec fn parse_tag_text(s: Seq<char>) -> Result<Seq<u8>, ChunkTypeDecodingError> {
    if s.len() != 4 {
        Err(ChunkTypeDecodingError::BadLength(s.len() as usize))
    } else if exists|i: int| 0 <= i < 4 && (s[i] as u32) >= 128 {
        Err(ChunkTypeDecodingError::BadChar(
            s[choose|i: int| 0 <= i < 4 && (s[i] as u32) >= 128 && forall|j: int| 0 <= j < i ==> (#[trigger] s[j] as u32) < 128],
        ))
    } else {
        parse_tag(char_bytes(s))
    }
}

/// Four letters read as a tag stay as they are, and the tag's text, one
/// character per byte, reads back as the same tag.
pub proof fn lemma_tag_text_round_trip(s: Seq<u8>)
    requires
        valid_tag(s),
    ensures
        parse_tag(s) == Ok::<Seq<u8>, ChunkTypeDecodingError>(s),
        tag_chars(s).len() == 4,
        char_bytes(tag_chars(s)) == s,
        parse_tag_text(tag_chars(s)) == Ok::<Seq<u8>, ChunkTypeDecodingError>(s),
{
    let t = tag_chars(s);
    assert forall|i: int| 0 <= i < 4 implies (#[trigger] t[i] as u32) < 128 && (t[i] as u8) == s[i] by {
        assert(is_alpha(s[i]));
    }
    assert(char_bytes(t) =~= s);
}

/// Four bytes of which one is not a letter are refused as a tag, with the
/// error that names a bad byte, and that byte is not a letter.
pub proof fn lemma_non_letter_refused(s: Seq<u8>, i: int)
    requires
        s.len() == 4,
        0 <= i < 4,
        !is_alpha(s[i]),
    ensures
        parse_tag(s) is Err,
        parse_tag(s)->Err_0 is BadByte,
        !is_alpha(parse_tag(s)->Err_0->BadByte_0),
{
}

/// A chunk's type: four ASCII letters whose case carries four flags.
#[derive(Debug, Eq)]
pub struct ChunkType {
    bytes: [u8; 4],
}

impl View for ChunkType {
    type V = Seq<u8>;

    closed spec fn view(&self) -> Seq<u8> {
        self.bytes@
    }
}

impl ChunkType {
    #[verifier::type_invariant]
    spec fn inv(&self) -> bool {
        all_alpha(self.bytes@)
    }

    /// Reads a type tag from four bytes; each must be an ASCII letter.
    pub fn try_from(bytes: [u8; 4]) -> (r: Result<ChunkType, ChunkTypeDecodingError>)
        ensures
            match r {
                Ok(t) => parse_tag(bytes@) == Ok::<Seq<u8>, ChunkTypeDecodingError>(t@),
                Err(e) => parse_tag(bytes@) == Err::<Seq<u8>, ChunkTypeDecodingError>(e),
            },
    {
        let mut i: usize = 0;
        while i < 4
            invariant
                i <= 4,
                forall|j: int| 0 <= j < i ==> is_alpha(#[trigger] bytes@[j]),
            decreases 4 - i,
        {
            let b = bytes[i];
            if !((65 <= b && b <= 90) || (97 <= b && b <= 122)) {
                return Err(ChunkTypeDecodingError::BadByte(b));
            }
            i = i + 1;
        }
        Ok(ChunkType { bytes })
    }

    /// Reads a type tag from its text form: four ASCII letters.
    pub fn from_str(s: &str) -> (r: Result<ChunkType, ChunkTypeDecodingError>)
        ensures
            match r {
                Ok(t) => parse_tag_text(s@) == Ok::<Seq<u8>, ChunkTypeDecodingError>(t@),
                Err(e) => parse_tag_text(s@) == Err::<Seq<u8>, ChunkTypeDecodingError>(e),
            },
    {
        let n = s.unicode_len();
        if n != 4 {
            return Err(ChunkTypeDecodingError::BadLength(n));
        }
        let mut bytes: [u8; 4] = [0u8; 4];
        let mut i: usize = 0;
        while i < 4
            invariant
                i <= 4,
                s@.len() == 4,
                forall|j: int| 0 <= j < i ==> (#[trigger] s@[j] as u32) < 128,
                forall|j: int| 0 <= j < i ==> #[trigger] bytes@[j] == s@[j] as u8,
            decreases 4 - i,
        {
            let c = s.get_char(i);
            if (c as u32) >= 128 {
                // the first character outside ASCII is the one at `i`
                proof {
                    let k = choose|k: int| 0 <= k < 4 && (s@[k] as u32) >= 128 && forall|j: int| 0 <= j < k ==> (#[trigger] s@[j] as u32) < 128;
                    if k < i {
                    } else if k > i {
                        assert((s@[i as int] as u32) < 128);
                    }
                }
                return Err(ChunkTypeDecodingError::BadChar(c));
            }
            bytes[i] = c as u8;
            i = i + 1;
        }
        assert(bytes@ =~= char_bytes(s@));
        ChunkType::try_from(bytes)
    }

    /// The four bytes of the tag.
    pub fn bytes(&self) -> (r: [u8; 4])
        ensures
            r@ == self@,
            valid_tag(r@),
    {
        proof {
            use_type_invariant(self);
        }
        self.bytes
    }

    /// The tag is critical, private, has a valid reserved bit, and is safe to
    /// copy: all four flags must agree.
    pub fn is_valid(&self) -> (r: bool)
        ensures
            r == (is_upper(self@[0]) && !is_upper(self@[1]) && is_upper(self@[2]) && is_lower(self@[3])),
    {
        self.is_critical() && !self.is_public() && self.is_reserved_bit_valid() && self.is_safe_to_copy()
    }

    /// The first letter is upper case.
    pub fn is_critical(&self) -> (r: bool)
        ensures
            r == is_upper(self@[0]),
    {
        let b = self.bytes[0];
        65 <= b && b <= 90
    }

    /// The second letter is upper case.
    pub fn is_public(&self) -> (r: bool)
        ensures
            r == is_upper(self@[1]),
    {
        let b = self.bytes[1];
        65 <= b && b <= 90
    }

    /// The third letter is upper case.
    pub fn is_reserved_bit_valid(&self) -> (r: bool)
        ensures
            r == is_upper(self@[2]),
    {
        let b = self.bytes[2];
        65 <= b && b <= 90
    }

    /// The fourth letter is lower case.
    pub fn is_safe_to_copy(&self) -> (r: bool)
        ensures
            r == is_lower(self@[3]),
    {
        let b = self.bytes[3];
        97 <= b && b <= 122
    }

    /// The tag as text: one character per byte.
    pub fn to_string(&self) -> (r: String)
        ensures
            r@ == tag_chars(self@),
    {
        let mut r = String::new();
        let mut i: usize = 0;
        while i < 4
            invariant
                i <= 4,
                r@ == tag_chars(self@.subrange(0, i as int)),
            decreases 4 - i,
        {
            push_char(&mut r, self.bytes[i] as char);
            proof {
                assert(tag_chars(self@.subrange(0, i + 1)) =~= tag_chars(self@.subrange(0, i as int)).push(self@[i as int] as char));
            }
            i = i + 1;
        }
        assert(self@.subrange(0, 4) =~= self@);
        r
    }

    /// The tag's text equals `name`.
    pub fn has_name(&self, name: &str) -> (r: bool)
        ensures
            r == (tag_chars(self@) == name@),
    {
        let n = name.unicode_len();
        if n != 4 {
            return false;
        }
        let mut i: usize = 0;
        while i < 4
            invariant
                i <= 4,
                name@.len() == 4,
                self@.len() == 4,
                forall|j: int| 0 <= j < i ==> (#[trigger] name@[j]) == self@[j] as char,
            decreases 4 - i,
        {
            if name.get_char(i) != self.bytes[i] as char {
                assert(tag_chars(self@)[i as int] != name@[i as int]);
                return false;
            }
            i = i + 1;
        }
        assert(tag_chars(self@) =~= name@);
        true
    }
}

impl PartialEq for ChunkType {
    fn eq(&self, other: &ChunkType) -> (r: bool)
        ensures
            r == (self@ == other@),
    {
        let r = self.bytes[0] == other.bytes[0] && self.bytes[1] == other.bytes[1]
            && self.bytes[2] == other.bytes[2] && self.bytes[3] == other.bytes[3];
        proof {
            if r {
                assert(self@ =~= other@);
            }
        }
        r
    }
}

impl vstd::std_specs::cmp::PartialEqSpecImpl for ChunkType {
    open spec fn obeys_eq_spec() -> bool {
        true
    }

    open spec fn eq_spec(&self, other: &ChunkType) -> bool {
        self@ == other@
    }
}

impl core::str::FromStr for ChunkType {
    type Err = ChunkTypeDecodingError;

    fn from_str(s: &str) -> Result<ChunkType, ChunkTypeDecodingError> {
        ChunkType::from_str(s)
    }
}

/// Relies on String::push: the character is appended at the end.
#[verifier::external_body]
fn push_char(s: &mut String, c: char)
    ensures
        final(s)@ == old(s)@.push(c),
{
    s.push(c)
}

} // verus!
