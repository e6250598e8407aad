//! Four-byte chunk type codes and the flags encoded in their letter case.

use crate::text::string_from_utf8;
use std::str::FromStr;
use vstd::prelude::*;
use vstd::std_specs::cmp::PartialEqSpecImpl;
use vstd::std_specs::convert::TryFromSpecImpl;
use vstd::utf8::{decode_utf8, is_ascii_chars, valid_utf8};

verus! {

/// Why a chunk type could not be built from the given input.
#[derive(Debug, Clone, Copy, PartialEq, Eq, Structural)]
pub enum ChunkTypeError {
    /// Some byte or character lies outside the ASCII range.
    InvalidASCII,
    /// The text is not exactly four characters long.
    InvalidLength,
    /// The third character is a decimal digit.
    InvalidChar,
}

/// True for the bytes `A` to `Z`.
pub open spec fn is_upper(b: u8) -> bool {
    65 <= b <= 90
}

/// True for the bytes `a` to `z`.
pub open spec fn is_lower(b: u8) -> bool {
    97 <= b <= 122
}

/// True for the bytes `0` to `9`.
pub open spec fn is_digit(b: u8) -> bool {
    48 <= b <= 57
}

/// True when every byte of `s` is below 128.
pub open spec fn all_ascii(s: Seq<u8>) -> bool {
    forall|i: int| 0 <= i < s.len() ==> #[trigger] s[i] < 128
}

/// The four bytes a chunk type must have to count as valid: all ASCII, and an
/// upper-case letter in the reserved (third) position.
pub open spec fn valid_type_bytes(s: Seq<u8>) -> bool {
    s.len() == 4 && all_ascii(s) && is_upper(s[2])
}

/// What building a chunk type from text yields: the four bytes, or the first
/// rule the text breaks. ASCII is tested first, then the length, then the
/// third character, which may not be a digit.
pub open spec fn parse_type_text(s: Seq<char>) -> Result<Seq<u8>, ChunkTypeError> {
    if !is_ascii_chars(s) {
        Err(ChunkTypeError::InvalidASCII)
    } else if s.len() != 4 {
        Err(ChunkTypeError::InvalidLength)
    } else if is_digit(s[2] as u8) {
        Err(ChunkTypeError::InvalidChar)
    } else {
        Ok(Seq::new(4, |i: int| s[i] as u8))
    }
}

/// Text gives a valid chunk type exactly when it is four ASCII characters
/// with an upper-case letter in third place.
pub proof fn lemma_valid_type_text(s: Seq<char>)
    ensures
        (parse_type_text(s) is Ok && valid_type_bytes(parse_type_text(s)->Ok_0)) <==> (s.len() == 4
            && is_ascii_chars(s) && is_upper(s[2] as u8)),
{
    if parse_type_text(s) is Ok {
        let t = parse_type_text(s)->Ok_0;
        assert forall|i: int| 0 <= i < t.len() implies #[trigger] t[i] < 128 by {
            assert('\0' <= s[i] <= '\u{7f}');
        }
    }
}

/// Four ASCII characters with a digit in third place are refused with
/// `InvalidChar`, so no chunk type is built whose validity could be asked.
pub proof fn lemma_digit_in_third_place(s: Seq<char>)
    requires
        s.len() == 4,
        is_ascii_chars(s),
        is_digit(s[2] as u8),
    ensures
        parse_type_text(s) == Err::<Seq<u8>, ChunkTypeError>(ChunkTypeError::InvalidChar),
{
}

/// A four-byte chunk type code. Any four bytes can be held; validity is a
/// property that is queried, not a condition of construction.
#[derive(Debug, Clone, Copy, Eq)]
pub struct ChunkType {
    chunk_type: [u8; 4],
}

impl View for ChunkType {
    type V = Seq<u8>;

    /// The four bytes of the code, in order.
    open spec fn view(&self) -> Seq<u8> {
        self.spec_bytes()@
    }
}

impl ChunkType {
    /// The bytes this code was built from.
    pub closed spec fn spec_bytes(&self) -> [u8; 4] {
        self.chunk_type
    }

    /// The code that holds exactly `chunk_type`.
    pub closed spec fn spec_new(chunk_type: [u8; 4]) -> Self {
        ChunkType { chunk_type }
    }

    /// `spec_new` keeps the bytes it is given.
    pub broadcast proof fn lemma_spec_new(chunk_type: [u8; 4])
        ensures
            (#[trigger] Self::spec_new(chunk_type)).spec_bytes() == chunk_type,
            Self::spec_new(chunk_type)@ == chunk_type@,
    {
    }

    /// Wraps four bytes without looking at them.
    pub fn new(chunk_type: [u8; 4]) -> (t: Self)
        ensures
            t == Self::spec_new(chunk_type),
            t.spec_bytes() == chunk_type,
            t@ == chunk_type@,
    {
        Self { chunk_type }
    }

    /// The four bytes of the code.
    #[verifier::when_used_as_spec(spec_bytes)]
    pub fn bytes(&self) -> (b: [u8; 4])
        ensures
            b == self.spec_bytes(),
            b@ == self@,
    {
        self.chunk_type
    }

    /// Whether the code is all ASCII with a valid reserved position.
    pub fn is_valid(&self) -> (r: bool)
        ensures
            r == valid_type_bytes(self@),
    {
        let b: [u8; 4] = self.chunk_type;
        b[0] < 128 && b[1] < 128 && b[2] < 128 && b[3] < 128 && self.is_reserved_bit_valid()
    }

    /// Whether the chunk is critical: the first byte is an upper-case letter.
    pub fn is_critical(&self) -> (r: bool)
        ensures
            r == is_upper(self@[0]),
    {
        let b: u8 = self.chunk_type[0];
        65 <= b && b <= 90
    }

    /// Whether the chunk is public: the second byte is an upper-case letter.
    pub fn is_public(&self) -> (r: bool)
        ensures
            r == is_upper(self@[1]),
    {
        let b: u8 = self.chunk_type[1];
        65 <= b && b <= 90
    }

    /// Whether the reserved position holds an upper-case letter.
    pub fn is_reserved_bit_valid(&self) -> (r: bool)
        ensures
            r == is_upper(self@[2]),
    {
        let b: u8 = self.chunk_type[2];
        65 <= b && b <= 90
    }

    /// Whether the chunk is safe to copy: the fourth byte is a lower-case letter.
    pub fn is_safe_to_copy(&self) -> (r: bool)
        ensures
            r == is_lower(self@[3]),
    {
        let b: u8 = self.chunk_type[3];
        97 <= b && b <= 122
    }

    /// The code as text: the characters its bytes encode in UTF-8. Bytes that
    /// are not well-formed UTF-8 have no text and give `InvalidASCII`.
    pub fn to_string(&self) -> (r: Result<String, ChunkTypeError>)
        ensures
            match r {
                Ok(s) => valid_utf8(self@) && s@ == decode_utf8(self@),
                Err(e) => !valid_utf8(self@) && e == ChunkTypeError::InvalidASCII,
            },
    {
        broadcast use vstd::utf8::encode_utf8_decode_utf8;

        let b: [u8; 4] = self.chunk_type;
        let mut v: Vec<u8> = Vec::new();
        v.push(b[0]);
        v.push(b[1]);
        v.push(b[2]);
        v.push(b[3]);
        assert(v@ =~= self@);
        match string_from_utf8(v) {
            Ok(s) => Ok(s),
            Err(_) => Err(ChunkTypeError::InvalidASCII),
        }
    }
}

impl TryFromSpecImpl<[u8; 4]> for ChunkType {
    open spec fn obeys_try_from_spec() -> bool {
        true
    }

    /// Four bytes make a chunk type exactly when all of them are ASCII.
    open spec fn try_from_spec(value: [u8; 4]) -> Result<Self, ChunkTypeError> {
        if all_ascii(value@) {
            Ok(ChunkType::spec_new(value))
        } else {
            Err(ChunkTypeError::InvalidASCII)
        }
    }
}

impl TryFrom<[u8; 4]> for ChunkType {
    type Error = ChunkTypeError;

    /// Wraps four bytes if all of them are ASCII, as `try_from_spec` says.
    fn try_from(value: [u8; 4]) -> (r: Result<Self, ChunkTypeError>)
        ensures
            match r {
                Ok(t) => all_ascii(value@) && t@ == value@,
                Err(e) => !all_ascii(value@) && e == ChunkTypeError::InvalidASCII,
            },
    {
        if value[0] < 128 && value[1] < 128 && value[2] < 128 && value[3] < 128 {
            Ok(ChunkType::new(value))
        } else {
            Err(ChunkTypeError::InvalidASCII)
        }
    }
}

impl FromStr for ChunkType {
    type Err = ChunkTypeError;

    /// Builds a chunk type from four-character text. The result is the one
    /// `parse_type_text` gives for the characters of `s`.
    fn from_str(s: &str) -> (r: Result<Self, ChunkTypeError>)
        ensures
            match r {
                Ok(t) => parse_type_text(s@) == Ok::<Seq<u8>, ChunkTypeError>(t@),
                Err(e) => parse_type_text(s@) == Err::<Seq<u8>, ChunkTypeError>(e),
            },
    {
        broadcast use vstd::string::is_ascii_spec_bytes;

        if !s.is_ascii() {
            return Err(ChunkTypeError::InvalidASCII);
        }
        let raw: &[u8] = s.as_bytes();
        if raw.len() != 4 {
            return Err(ChunkTypeError::InvalidLength);
        }
        let third: u8 = raw[2];
        if 48 <= third && third <= 57 {
            return Err(ChunkTypeError::InvalidChar);
        }
        let buf: [u8; 4] = [raw[0], raw[1], raw[2], raw[3]];
        let t = ChunkType::new(buf);
        assert(t@ =~= Seq::new(4, |i: int| s@[i] as u8));
        Ok(t)
    }
}

impl PartialEqSpecImpl for ChunkType {
    open spec fn obeys_eq_spec() -> bool {
        true
    }

    /// Two codes are equal when their bytes are.
    open spec fn eq_spec(&self, other: &ChunkType) -> bool {
        self@ == other@
    }
}

impl PartialEq for ChunkType {
    fn eq(&self, other: &ChunkType) -> (r: bool) {
        let a: [u8; 4] = self.chunk_type;
        let b: [u8; 4] = other.chunk_type;
        let same: bool = a[0] == b[0] && a[1] == b[1] && a[2] == b[2] && a[3] == b[3];
        assert(same == (self@ =~= other@));
        same
    }
}

} // verus!
