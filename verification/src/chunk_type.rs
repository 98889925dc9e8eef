//! The four-letter code that names a chunk's kind and carries its property bits.

use crate::text::{ascii_chars, is_ascii_bytes, lemma_ascii_is_utf8, lemma_utf8_injective};
use vstd::prelude::*;
use vstd::std_specs::convert::TryFromSpecImpl;
use vstd::string::StringSliceAdditionalSpecFns;

verus! {

/// Bit 5 of a code byte: clear in an upper-case letter, set in a lower-case one.
pub const PROPERTY_BIT_MASK: u8 = 0x20;

/// Why a chunk type code was refused.
#[derive(Debug, Clone, Copy, PartialEq, Eq)]
pub enum ChunkTypeError {
    /// The byte at `index` is the first one that is no ASCII letter.
    InvalidByte { byte: u8, index: usize },
    /// The code is not four bytes long; the field is the length it has.
    InvalidLength(usize),
}

/// True for the bytes `A`-`Z` and `a`-`z`.
pub open spec fn is_letter(b: u8) -> bool {
    (0x41 <= b <= 0x5a) || (0x61 <= b <= 0x7a)
}

/// True when `code` is four ASCII letters.
pub open spec fn is_code(code: Seq<u8>) -> bool {
    code.len() == 4 && forall|i: int| 0 <= i < 4 ==> is_letter(#[trigger] code[i])
}

/// The position of the first byte of a four-byte code that is no letter, or 4.
pub open spec fn first_non_letter(code: Seq<u8>) -> int {
    if !is_letter(code[0]) {
        0
    } else if !is_letter(code[1]) {
        1
    } else if !is_letter(code[2]) {
        2
    } else if !is_letter(code[3]) {
        3
    } else {
        4
    }
}

/// What validating `raw` as a chunk type code gives: the code itself, or the
/// reason for refusing it.
pub open spec fn checked_code(raw: Seq<u8>) -> Result<Seq<u8>, ChunkTypeError> {
    if raw.len() != 4 {
        Err(ChunkTypeError::InvalidLength(raw.len() as usize))
    } else if first_non_letter(raw) < 4 {
        Err(
            ChunkTypeError::InvalidByte {
                byte: raw[first_non_letter(raw)],
                index: first_non_letter(raw) as usize,
            },
        )
    } else {
        Ok(raw)
    }
}

/// True when bit 5 of `b` is set.
pub open spec fn property_bit(b: u8) -> bool {
    b & 0x20 != 0
}

fn is_ascii_letter(b: u8) -> (r: bool)
    ensures
        r == is_letter(b),
{
    (0x41 <= b && b <= 0x5a) || (0x61 <= b && b <= 0x7a)
}

/// A validated chunk type code: four ASCII letters.
#[derive(Debug, Clone, Copy, PartialEq, Eq)]
pub struct ChunkType {
    bytes: [u8; 4],
}

impl View for ChunkType {
    type V = Seq<u8>;

    closed spec fn view(&self) -> Seq<u8> {
        self.bytes@
    }
}

impl ChunkType {
    /// Every chunk type holds four ASCII letters.
    #[verifier::type_invariant]
    pub open spec fn wf(&self) -> bool {
        is_code(self@)
    }

    /// Validates four bytes as a chunk type code.
    pub fn from_bytes(bytes: [u8; 4]) -> (r: Result<ChunkType, ChunkTypeError>)
        ensures
            match r {
                Ok(t) => t.wf() && checked_code(bytes@) == Ok::<Seq<u8>, ChunkTypeError>(t@),
                Err(e) => checked_code(bytes@) == Err::<Seq<u8>, ChunkTypeError>(e),
            },
    {
        let mut index: usize = 0;
        while index < 4
            invariant
                index <= 4,
                forall|j: int| 0 <= j < index ==> is_letter(#[trigger] bytes@[j]),
            decreases 4 - index,
        {
            let byte: u8 = bytes[index];
            if !is_ascii_letter(byte) {
                return Err(ChunkTypeError::InvalidByte { byte, index });
            }
            index += 1;
        }
        Ok(ChunkType { bytes })
    }

    /// Validates a byte slice as a chunk type code: it must be four bytes
    /// long and hold letters only.
    pub fn from_slice(slice: &[u8]) -> (r: Result<ChunkType, ChunkTypeError>)
        ensures
            match r {
                Ok(t) => t.wf() && checked_code(slice@) == Ok::<Seq<u8>, ChunkTypeError>(t@),
                Err(e) => checked_code(slice@) == Err::<Seq<u8>, ChunkTypeError>(e),
            },
    {
        if slice.len() != 4 {
            return Err(ChunkTypeError::InvalidLength(slice.len()));
        }
        let bytes: [u8; 4] = [slice[0], slice[1], slice[2], slice[3]];
        assert(bytes@ =~= slice@);
        ChunkType::from_bytes(bytes)
    }

    /// Validates a string as a chunk type code: its UTF-8 encoding must be
    /// four bytes long and hold letters only.
    pub fn from_str(s: &str) -> (r: Result<ChunkType, ChunkTypeError>)
        ensures
            match r {
                Ok(t) => t.wf() && checked_code(s.spec_bytes()) == Ok::<Seq<u8>, ChunkTypeError>(
                    t@,
                ),
                Err(e) => checked_code(s.spec_bytes()) == Err::<Seq<u8>, ChunkTypeError>(e),
            },
    {
        ChunkType::from_slice(s.as_bytes())
    }

    /// The four bytes of the code.
    pub fn bytes(&self) -> (r: [u8; 4])
        ensures
            r@ == self@,
    {
        self.bytes
    }

    /// The code as text.
    pub fn to_string(&self) -> (r: String)
        ensures
            r@ == ascii_chars(self@),
    {
        proof {
            use_type_invariant(self);
            lemma_ascii_is_utf8(self@);
        }
        let s: &str = core::str::from_utf8(self.bytes.as_slice()).unwrap();
        proof {
            lemma_utf8_injective(s@, ascii_chars(self@));
        }
        s.to_owned()
    }

    /// True when the code is four letters and its reserved bit is clear.
    pub fn is_valid(&self) -> (r: bool)
        ensures
            r == (is_code(self@) && !property_bit(self@[2])),
            r == !property_bit(self@[2]),
    {
        proof {
            use_type_invariant(self);
        }
        let mut letters: bool = true;
        let mut index: usize = 0;
        while index < 4
            invariant
                index <= 4,
                self@.len() == 4,
                letters == (forall|j: int| 0 <= j < index ==> is_letter(#[trigger] self@[j])),
            decreases 4 - index,
        {
            letters = letters && is_ascii_letter(self.bytes[index]);
            index += 1;
        }
        letters && self.is_reserved_bit_valid()
    }

    /// True when the chunk is critical: the first letter is upper-case.
    pub fn is_critical(&self) -> (r: bool)
        ensures
            r == !property_bit(self@[0]),
    {
        !self.is_bit_set(0)
    }

    /// True when the chunk is public: the second letter is upper-case.
    pub fn is_public(&self) -> (r: bool)
        ensures
            r == !property_bit(self@[1]),
    {
        !self.is_bit_set(1)
    }

    /// True when the reserved bit is clear: the third letter is upper-case.
    pub fn is_reserved_bit_valid(&self) -> (r: bool)
        ensures
            r == !property_bit(self@[2]),
    {
        !self.is_bit_set(2)
    }

    /// True when the chunk is safe to copy: the fourth letter is lower-case.
    pub fn is_safe_to_copy(&self) -> (r: bool)
        ensures
            r == property_bit(self@[3]),
    {
        self.is_bit_set(3)
    }

    fn is_bit_set(&self, index: usize) -> (r: bool)
        requires
            index < 4,
        ensures
            r == property_bit(self@[index as int]),
    {
        self.bytes[index] & PROPERTY_BIT_MASK != 0
    }
}

impl TryFrom<[u8; 4]> for ChunkType {
    type Error = ChunkTypeError;

    /// Same as `ChunkType::from_bytes`.
    fn try_from(bytes: [u8; 4]) -> (r: Result<ChunkType, ChunkTypeError>)
        ensures
            match r {
                Ok(t) => t.wf() && checked_code(bytes@) == Ok::<Seq<u8>, ChunkTypeError>(t@),
                Err(e) => checked_code(bytes@) == Err::<Seq<u8>, ChunkTypeError>(e),
            },
    {
        ChunkType::from_bytes(bytes)
    }
}

/// The contract of this conversion stands on `try_from` itself, over the
/// view; `try_from_spec` is left unused.
impl TryFromSpecImpl<[u8; 4]> for ChunkType {
    open spec fn obeys_try_from_spec() -> bool {
        false
    }

    open spec fn try_from_spec(v: [u8; 4]) -> Result<Self, Self::Error> {
        arbitrary()
    }
}

impl<'a> TryFrom<&'a [u8]> for ChunkType {
    type Error = ChunkTypeError;

    /// Same as `ChunkType::from_slice`.
    fn try_from(slice: &'a [u8]) -> (r: Result<ChunkType, ChunkTypeError>)
        ensures
            match r {
                Ok(t) => t.wf() && checked_code(slice@) == Ok::<Seq<u8>, ChunkTypeError>(t@),
                Err(e) => checked_code(slice@) == Err::<Seq<u8>, ChunkTypeError>(e),
            },
    {
        ChunkType::from_slice(slice)
    }
}

/// The contract of this conversion stands on `try_from` itself, over the
/// view; `try_from_spec` is left unused.
impl<'a> TryFromSpecImpl<&'a [u8]> for ChunkType {
    open spec fn obeys_try_from_spec() -> bool {
        false
    }

    open spec fn try_from_spec(v: &'a [u8]) -> Result<Self, Self::Error> {
        arbitrary()
    }
}

impl core::str::FromStr for ChunkType {
    type Err = ChunkTypeError;

    /// Same as the inherent `ChunkType::from_str`.
    fn from_str(s: &str) -> (r: Result<ChunkType, ChunkTypeError>)
        ensures
            match r {
                Ok(t) => t.wf() && checked_code(s.spec_bytes()) == Ok::<Seq<u8>, ChunkTypeError>(
                    t@,
                ),
                Err(e) => checked_code(s.spec_bytes()) == Err::<Seq<u8>, ChunkTypeError>(e),
            },
    {
        ChunkType::from_str(s)
    }
}

impl AsRef<[u8]> for ChunkType {
    fn as_ref(&self) -> (r: &[u8])
        ensures
            r@ == self@,
    {
        self.bytes.as_slice()
    }
}

/// In a letter the property bit tells the case: it is set exactly in the
/// lower-case letters.
pub proof fn lemma_property_bit_is_case(b: u8)
    requires
        is_letter(b),
    ensures
        property_bit(b) <==> 0x61 <= b <= 0x7a,
{
    assert(is_letter(b) ==> (property_bit(b) <==> 0x61 <= b <= 0x7a)) by (bit_vector)
        requires
            is_letter(b),
    ;
}

/// Four letters are accepted as they are.
pub proof fn lemma_code_accepted(raw: Seq<u8>)
    requires
        is_code(raw),
    ensures
        checked_code(raw) == Ok::<Seq<u8>, ChunkTypeError>(raw),
{
}

/// Four bytes that hold anything but letters are refused, and the error
/// names the first byte that is no letter together with its position.
pub proof fn lemma_code_refused(raw: Seq<u8>, at: int)
    requires
        raw.len() == 4,
        0 <= at < 4,
        !is_letter(raw[at]),
        forall|j: int| 0 <= j < at ==> is_letter(#[trigger] raw[j]),
    ensures
        checked_code(raw) == Err::<Seq<u8>, ChunkTypeError>(
            ChunkTypeError::InvalidByte { byte: raw[at], index: at as usize },
        ),
{
    if at > 0 {
        assert(is_letter(raw[0]));
    }
    if at > 1 {
        assert(is_letter(raw[1]));
    }
    if at > 2 {
        assert(is_letter(raw[2]));
    }
}

/// A text spells a chunk type exactly when it reads the same as the type's
/// own text: comparing code bytes and comparing texts agree.
pub proof fn lemma_code_text(code: Seq<u8>, text: &str)
    requires
        is_code(code),
    ensures
        (text.spec_bytes() == code) <==> (text@ == ascii_chars(code)),
{
    assert(is_ascii_bytes(code)) by {
        assert forall|i: int| 0 <= i < code.len() implies #[trigger] code[i] < 0x80 by {
            assert(is_letter(code[i]));
        }
    }
    lemma_ascii_is_utf8(code);
    if text.spec_bytes() == code {
        lemma_utf8_injective(text@, ascii_chars(code));
    }
}

} // verus!
