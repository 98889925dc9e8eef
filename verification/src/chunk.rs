//! One chunk of a PNG stream: its type, its payload and the CRC-32 that
//! guards both, together with the wire format `length | type | data | crc`.

use crate::chunk_type::{checked_code, is_code, ChunkType, ChunkTypeError};
use crate::text::{
    ascii_chars, decimal, hex_list, hex_run, push_decimal, push_hex_list, push_hex_run,
};
use crate::utils::{get_slice, RangeLimit};
use crate::wire::{
    be_field, be_value, lemma_be_field_of_value, lemma_be_value_of_field, read_be_u32,
    write_be_u32,
};
use core::str::Utf8Error;
use vstd::prelude::*;
use vstd::slice::slice_to_vec;
use vstd::std_specs::convert::TryFromSpecImpl;
use vstd::string::*;
use vstd::utf8::valid_utf8;

verus! {

/// The CRC-32/ISO-HDLC checksum of the bytes of `head` followed by those of
/// `tail`, as the `crc` crate computes it.
pub uninterp spec fn crc32_iso_hdlc(head: Seq<u8>, tail: Seq<u8>) -> u32;

/// Feeds `head` and then `tail` to a CRC-32/ISO-HDLC digest of the `crc`
/// crate (`Crc::<u32>::new`, `digest`, `update`, `finalize`). The checksum is
/// not defined here: the contract only gives it its name.
#[verifier::external_body]
fn crc32_digest(head: &[u8], tail: &[u8]) -> (r: u32)
    ensures
        r == crc32_iso_hdlc(head@, tail@),
{
    let crc = crc::Crc::<u32>::new(&crc::CRC_32_ISO_HDLC);
    let mut digest = crc.digest();
    digest.update(head);
    digest.update(tail);
    digest.finalize()
}

/// Why bytes could not be read as a chunk, or a chunk's payload as text.
#[allow(inconsistent_fields)]
#[derive(Debug, Clone, Copy, PartialEq, Eq)]
pub enum ChunkError {
    /// The field at `position` needs `required` bytes and only `actual` are left.
    NotEnoughBytes { position: usize, required: usize, actual: usize },
    /// The declared payload length is above `MAX_DATA_SIZE`.
    TooLarge { size: usize },
    /// The type field is no valid chunk type code.
    InvalidChunkType(ChunkTypeError),
    /// The stored CRC (`actual`) is not the checksum of type and payload (`expected`).
    CrcMismatch { expected: u32, actual: u32 },
    /// The payload is not UTF-8.
    InvalidUtf8(Utf8Error),
}

/// What a chunk is: its type code, its payload and its stored checksum.
pub struct ChunkView {
    pub chunk_type: Seq<u8>,
    pub data: Seq<u8>,
    pub crc: u32,
}

impl ChunkView {
    /// A chunk is well formed when its type is four letters, its payload fits
    /// the length field and its checksum is the one of type and payload.
    pub open spec fn wf(self) -> bool {
        &&& is_code(self.chunk_type)
        &&& self.data.len() <= Chunk::MAX_DATA_SIZE
        &&& self.crc == crc32_iso_hdlc(self.chunk_type, self.data)
    }

    /// The number of bytes the chunk takes on the wire.
    pub open spec fn wire_len(self) -> nat {
        12 + self.data.len()
    }
}

/// The chunk that holds `data` under the type `code`.
pub open spec fn chunk_of(code: Seq<u8>, data: Seq<u8>) -> ChunkView {
    ChunkView { chunk_type: code, data, crc: crc32_iso_hdlc(code, data) }
}

/// The wire form of a chunk: big-endian payload length, type, payload,
/// big-endian checksum.
pub open spec fn wire_bytes(c: ChunkView) -> Seq<u8> {
    be_field(c.data.len() as u32) + c.chunk_type + c.data + be_field(c.crc)
}

/// The dump of a chunk: its length in decimal, its type, its payload as
/// hexadecimal bytes and its checksum as eight hexadecimal digits.
pub open spec fn chunk_text(c: ChunkView) -> Seq<char> {
    "Chunk {\n  Length: "@ + decimal(c.data.len()) + "\n  Type: "@ + ascii_chars(c.chunk_type)
        + "\n  Data: ["@ + hex_list(c.data) + "]\n  CRC: 0x"@ + hex_run(be_field(c.crc))
        + "\n}"@
}

/// What reading one chunk from the front of `bytes` gives. Bytes behind the
/// chunk are left alone.
pub open spec fn parsed_chunk(bytes: Seq<u8>) -> Result<ChunkView, ChunkError> {
    let total = bytes.len() as int;
    if total < 4 {
        Err(ChunkError::NotEnoughBytes { position: 0, required: 4, actual: total as usize })
    } else {
        let length = be_value(bytes.subrange(0, 4));
        let code = bytes.subrange(4, 8);
        if length > Chunk::MAX_DATA_SIZE {
            Err(ChunkError::TooLarge { size: length as usize })
        } else if total < 8 {
            Err(
                ChunkError::NotEnoughBytes {
                    position: 4,
                    required: 4,
                    actual: (total - 4) as usize,
                },
            )
        } else if let Err(e) = checked_code(code) {
            Err(ChunkError::InvalidChunkType(e))
        } else if total < 8 + length {
            Err(
                ChunkError::NotEnoughBytes {
                    position: 8,
                    required: length as usize,
                    actual: (total - 8) as usize,
                },
            )
        } else if total < 12 + length {
            Err(
                ChunkError::NotEnoughBytes {
                    position: (8 + length) as usize,
                    required: 4,
                    actual: (total - 8 - length) as usize,
                },
            )
        } else {
            let data = bytes.subrange(8, 8 + length);
            let stored = be_value(bytes.subrange(8 + length, 12 + length)) as u32;
            let expected = crc32_iso_hdlc(code, data);
            if stored != expected {
                Err(ChunkError::CrcMismatch { expected, actual: stored })
            } else {
                Ok(ChunkView { chunk_type: code, data, crc: stored })
            }
        }
    }
}

/// A chunk: a type, a payload of at most `MAX_DATA_SIZE` bytes, and the
/// CRC-32 of both.
#[derive(Debug)]
pub struct Chunk {
    chunk_type: ChunkType,
    data: Vec<u8>,
    crc: u32,
}

impl View for Chunk {
    type V = ChunkView;

    closed spec fn view(&self) -> ChunkView {
        ChunkView { chunk_type: self.chunk_type@, data: self.data@, crc: self.crc }
    }
}

impl Chunk {
    /// The longest payload a chunk may carry: 2^31 - 1 bytes.
    pub const MAX_DATA_SIZE: usize = 0x7fff_ffff;

    /// Width of the length field on the wire.
    pub const LENGTH_SIZE: usize = 4;

    /// Width of the type field on the wire.
    pub const TYPE_SIZE: usize = 4;

    /// Width of the CRC field on the wire.
    pub const CRC_SIZE: usize = 4;

    /// Every chunk is well formed.
    #[verifier::type_invariant]
    pub open spec fn wf(&self) -> bool {
        self@.wf()
    }

    /// Builds the chunk that holds `data` under `chunk_type`, with its checksum.
    pub fn new(chunk_type: ChunkType, data: Vec<u8>) -> (r: Chunk)
        requires
            data@.len() <= Chunk::MAX_DATA_SIZE,
        ensures
            r.wf(),
            r@ == chunk_of(chunk_type@, data@),
    {
        proof {
            use_type_invariant(&chunk_type);
        }
        let crc: u32 = Chunk::calculate_crc(&chunk_type, data.as_slice());
        Chunk { chunk_type, data, crc }
    }

    /// The checksum of a chunk with this type and payload.
    pub fn calculate_crc(chunk_type: &ChunkType, data: &[u8]) -> (r: u32)
        ensures
            r == crc32_iso_hdlc(chunk_type@, data@),
    {
        let code: [u8; 4] = chunk_type.bytes();
        crc32_digest(code.as_slice(), data)
    }

    /// The payload's length in bytes.
    pub fn length(&self) -> (r: u32)
        ensures
            r == self@.data.len(),
    {
        proof {
            use_type_invariant(self);
        }
        self.data.len() as u32
    }

    /// The chunk's type.
    pub fn chunk_type(&self) -> (r: &ChunkType)
        ensures
            r@ == self@.chunk_type,
    {
        &self.chunk_type
    }

    /// The payload.
    pub fn data(&self) -> (r: &[u8])
        ensures
            r@ == self@.data,
    {
        self.data.as_slice()
    }

    /// The stored checksum.
    pub fn crc(&self) -> (r: u32)
        ensures
            r == self@.crc,
    {
        self.crc
    }

    /// The payload as text, when it is UTF-8.
    pub fn data_as_str(&self) -> (r: Result<&str, ChunkError>)
        ensures
            match r {
                Ok(s) => valid_utf8(self@.data) && s.spec_bytes() == self@.data,
                Err(e) => !valid_utf8(self@.data) && e is InvalidUtf8,
            },
    {
        match core::str::from_utf8(self.data.as_slice()) {
            Ok(s) => Ok(s),
            Err(e) => Err(ChunkError::InvalidUtf8(e)),
        }
    }

    /// The chunk in its wire form.
    pub fn as_bytes(&self) -> (r: Vec<u8>)
        ensures
            r@ == wire_bytes(self@),
            r@.len() == self@.wire_len(),
    {
        proof {
            use_type_invariant(self);
            use_type_invariant(&self.chunk_type);
        }
        let length_field: [u8; 4] = write_be_u32(self.length());
        let code: [u8; 4] = self.chunk_type.bytes();
        let crc_field: [u8; 4] = write_be_u32(self.crc);
        let mut bytes: Vec<u8> = Vec::with_capacity(
            Chunk::LENGTH_SIZE + Chunk::TYPE_SIZE + Chunk::CRC_SIZE + self.data.len(),
        );
        bytes.extend_from_slice(length_field.as_slice());
        bytes.extend_from_slice(code.as_slice());
        bytes.extend_from_slice(self.data.as_slice());
        bytes.extend_from_slice(crc_field.as_slice());
        bytes
    }

    /// A dump of the chunk for people to read: length, type, the payload in
    /// hexadecimal and the checksum.
    pub fn to_string(&self) -> (r: String)
        ensures
            r@ == chunk_text(self@),
    {
        let mut out: String = String::new();
        out.append("Chunk {\n  Length: ");
        push_decimal(&mut out, self.length());
        out.append("\n  Type: ");
        let name: String = self.chunk_type.to_string();
        out.append(name.as_str());
        out.append("\n  Data: [");
        push_hex_list(&mut out, self.data.as_slice());
        out.append("]\n  CRC: 0x");
        let crc_field: [u8; 4] = write_be_u32(self.crc);
        push_hex_run(&mut out, crc_field.as_slice());
        out.append("\n}");
        assert(out@ =~= chunk_text(self@));
        out
    }

    /// Reads one chunk from the front of `bytes`, checking its type and its
    /// checksum. Nothing is repaired and nothing is cut short: bytes that do
    /// not hold a whole, intact chunk are refused.
    pub fn parse(bytes: &[u8]) -> (r: Result<Chunk, ChunkError>)
        ensures
            match r {
                Ok(c) => c.wf() && parsed_chunk(bytes@) == Ok::<ChunkView, ChunkError>(c@),
                Err(e) => parsed_chunk(bytes@) == Err::<ChunkView, ChunkError>(e),
            },
    {
        let total: usize = bytes.len();
        let length_field: &[u8] = match get_slice(
            bytes,
            RangeLimit::Included(0),
            RangeLimit::Excluded(Chunk::LENGTH_SIZE),
        ) {
            Ok(field) => field,
            Err(_) => {
                return Err(
                    ChunkError::NotEnoughBytes {
                        position: 0,
                        required: Chunk::LENGTH_SIZE,
                        actual: total,
                    },
                );
            },
        };
        let data_length: usize = read_be_u32(length_field) as usize;
        if data_length > Chunk::MAX_DATA_SIZE {
            return Err(ChunkError::TooLarge { size: data_length });
        }
        let type_start: usize = Chunk::LENGTH_SIZE;
        let type_field: &[u8] = match get_slice(
            bytes,
            RangeLimit::Included(type_start),
            RangeLimit::Excluded(type_start + Chunk::TYPE_SIZE),
        ) {
            Ok(field) => field,
            Err(_) => {
                return Err(
                    ChunkError::NotEnoughBytes {
                        position: type_start,
                        required: Chunk::TYPE_SIZE,
                        actual: total - type_start,
                    },
                );
            },
        };
        let chunk_type: ChunkType = match ChunkType::from_slice(type_field) {
            Ok(t) => t,
            Err(e) => {
                return Err(ChunkError::InvalidChunkType(e));
            },
        };
        let data_start: usize = type_start + Chunk::TYPE_SIZE;
        let data_field: &[u8] = match get_slice(
            bytes,
            RangeLimit::Included(data_start),
            RangeLimit::Excluded(data_start + data_length),
        ) {
            Ok(field) => field,
            Err(_) => {
                return Err(
                    ChunkError::NotEnoughBytes {
                        position: data_start,
                        required: data_length,
                        actual: total - data_start,
                    },
                );
            },
        };
        let crc_start: usize = data_start + data_length;
        let crc_field: &[u8] = match get_slice(
            bytes,
            RangeLimit::Included(crc_start),
            RangeLimit::Excluded(crc_start + Chunk::CRC_SIZE),
        ) {
            Ok(field) => field,
            Err(_) => {
                return Err(
                    ChunkError::NotEnoughBytes {
                        position: crc_start,
                        required: Chunk::CRC_SIZE,
                        actual: total - crc_start,
                    },
                );
            },
        };
        let crc: u32 = read_be_u32(crc_field);
        let expected: u32 = Chunk::calculate_crc(&chunk_type, data_field);
        if crc != expected {
            return Err(ChunkError::CrcMismatch { expected, actual: crc });
        }
        Ok(Chunk { chunk_type, data: slice_to_vec(data_field), crc })
    }
}

impl<'a> TryFrom<&'a [u8]> for Chunk {
    type Error = ChunkError;

    /// Same as `Chunk::parse`.
    fn try_from(bytes: &'a [u8]) -> (r: Result<Chunk, ChunkError>)
        ensures
            match r {
                Ok(c) => c.wf() && parsed_chunk(bytes@) == Ok::<ChunkView, ChunkError>(c@),
                Err(e) => parsed_chunk(bytes@) == Err::<ChunkView, ChunkError>(e),
            },
    {
        Chunk::parse(bytes)
    }
}

/// The contract of this conversion stands on `try_from` itself, over the
/// view; `try_from_spec` is left unused.
impl<'a> TryFromSpecImpl<&'a [u8]> for Chunk {
    open spec fn obeys_try_from_spec() -> bool {
        false
    }

    open spec fn try_from_spec(v: &'a [u8]) -> Result<Self, Self::Error> {
        arbitrary()
    }
}

/// A well-formed chunk's wire form takes `wire_len` bytes: twelve more than
/// its payload.
pub proof fn lemma_wire_len(c: ChunkView)
    requires
        c.wf(),
    ensures
        wire_bytes(c).len() == c.wire_len(),
        wire_bytes(c).len() == 12 + c.data.len(),
{
}

/// Reading gives back what was written: the wire form of a well-formed
/// chunk, with anything at all behind it, parses to that very chunk.
pub proof fn lemma_parse_wire(c: ChunkView, more: Seq<u8>)
    requires
        c.wf(),
    ensures
        parsed_chunk(wire_bytes(c) + more) == Ok::<ChunkView, ChunkError>(c),
{
    let bytes = wire_bytes(c) + more;
    let length = c.data.len() as int;
    lemma_be_value_of_field(length as u32);
    lemma_be_value_of_field(c.crc);
    assert(bytes.subrange(0, 4) =~= be_field(length as u32));
    assert(bytes.subrange(4, 8) =~= c.chunk_type);
    assert(bytes.subrange(8, 8 + length) =~= c.data);
    assert(bytes.subrange(8 + length, 12 + length) =~= be_field(c.crc));
}

/// A chunk built from a type and a payload survives the trip over the wire:
/// parsing its wire form gives the same type, payload and checksum.
pub proof fn lemma_chunk_round_trip(code: Seq<u8>, data: Seq<u8>)
    requires
        is_code(code),
        data.len() <= Chunk::MAX_DATA_SIZE,
    ensures
        chunk_of(code, data).wf(),
        parsed_chunk(wire_bytes(chunk_of(code, data))) == Ok::<ChunkView, ChunkError>(
            chunk_of(code, data),
        ),
{
    let c = chunk_of(code, data);
    lemma_parse_wire(c, Seq::empty());
    assert(wire_bytes(c) + Seq::<u8>::empty() =~= wire_bytes(c));
}

/// The frame that carries `code` and `data` with the checksum field set to
/// `stored`, whatever the true checksum is.
pub open spec fn framed(code: Seq<u8>, data: Seq<u8>, stored: u32) -> Seq<u8> {
    wire_bytes(ChunkView { chunk_type: code, data, crc: stored })
}

/// A frame whose stored checksum is not the checksum of its type and payload
/// is refused with `CrcMismatch`, which reports both numbers. So content
/// that was altered while the checksum field was held fixed is refused
/// whenever the alteration changes the content's checksum.
pub proof fn lemma_parse_rejects_wrong_checksum(code: Seq<u8>, data: Seq<u8>, stored: u32)
    requires
        is_code(code),
        data.len() <= Chunk::MAX_DATA_SIZE,
        stored != crc32_iso_hdlc(code, data),
    ensures
        parsed_chunk(framed(code, data, stored)) == Err::<ChunkView, ChunkError>(
            ChunkError::CrcMismatch { expected: crc32_iso_hdlc(code, data), actual: stored },
        ),
{
    let bytes = framed(code, data, stored);
    let length = data.len() as int;
    lemma_be_value_of_field(length as u32);
    lemma_be_value_of_field(stored);
    assert(bytes.subrange(0, 4) =~= be_field(length as u32));
    assert(bytes.subrange(4, 8) =~= code);
    assert(bytes.subrange(8, 8 + length) =~= data);
    assert(bytes.subrange(8 + length, 12 + length) =~= be_field(stored));
}

/// A frame whose type field holds a byte that is no letter is refused with
/// `InvalidChunkType`, before any checksum is looked at.
pub proof fn lemma_parse_rejects_bad_type(code: Seq<u8>, data: Seq<u8>, stored: u32)
    requires
        code.len() == 4,
        !is_code(code),
        data.len() <= Chunk::MAX_DATA_SIZE,
    ensures
        parsed_chunk(framed(code, data, stored)) matches Err(ChunkError::InvalidChunkType(_)),
{
    let bytes = framed(code, data, stored);
    let length = data.len() as int;
    lemma_be_value_of_field(length as u32);
    assert(bytes.subrange(0, 4) =~= be_field(length as u32));
    assert(bytes.subrange(4, 8) =~= code);
}

/// A chunk that was cut short is never accepted: every proper prefix of a
/// well-formed chunk's wire form is refused with `NotEnoughBytes`.
pub proof fn lemma_parse_rejects_truncated(c: ChunkView, kept: int)
    requires
        c.wf(),
        0 <= kept < c.wire_len(),
    ensures
        parsed_chunk(wire_bytes(c).take(kept)) matches Err(ChunkError::NotEnoughBytes { .. }),
{
    let bytes = wire_bytes(c).take(kept);
    let length = c.data.len() as int;
    lemma_be_value_of_field(length as u32);
    if kept >= 4 {
        assert(bytes.subrange(0, 4) =~= be_field(length as u32));
    }
    if kept >= 8 {
        assert(bytes.subrange(4, 8) =~= c.chunk_type);
    }
}

/// Input that ends before the chunk it declares is refused with
/// `NotEnoughBytes`, whatever it holds: less than a length field, or a
/// length within the limit and, as far as the type field is there, a valid
/// type, but fewer bytes than the declared payload and the checksum need.
pub proof fn lemma_parse_rejects_short(bytes: Seq<u8>)
    requires
        bytes.len() < 4 || {
            &&& be_value(bytes.subrange(0, 4)) <= Chunk::MAX_DATA_SIZE
            &&& bytes.len() >= 8 ==> is_code(bytes.subrange(4, 8))
            &&& bytes.len() < 12 + be_value(bytes.subrange(0, 4))
        },
    ensures
        parsed_chunk(bytes) matches Err(ChunkError::NotEnoughBytes { .. }),
{
}

/// Whenever a chunk is parsed, it is well formed, it is spelled by the
/// front of the input, and it takes exactly `wire_len` bytes of it.
pub proof fn lemma_parsed_is_prefix(bytes: Seq<u8>)
    requires
        parsed_chunk(bytes) is Ok,
    ensures
        parsed_chunk(bytes).unwrap().wf(),
        parsed_chunk(bytes).unwrap().wire_len() <= bytes.len(),
        bytes.take(parsed_chunk(bytes).unwrap().wire_len() as int) == wire_bytes(
            parsed_chunk(bytes).unwrap(),
        ),
{
    let c = parsed_chunk(bytes).unwrap();
    let length = be_value(bytes.subrange(0, 4));
    lemma_be_field_of_value(bytes.subrange(0, 4));
    lemma_be_field_of_value(bytes.subrange(8 + length, 12 + length));
    assert(bytes.take(c.wire_len() as int) =~= wire_bytes(c));
}

} // verus!
