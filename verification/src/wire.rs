//! Big-endian coding of the 32-bit fields of the wire format.

use vstd::prelude::*;

verus! {

/// The number that four bytes spell, most significant byte first.
pub open spec fn be_value(field: Seq<u8>) -> int {
    field[0] as int * 0x100_0000 + field[1] as int * 0x1_0000 + field[2] as int * 0x100
        + field[3] as int
}

/// The four bytes that spell `value`, most significant byte first.
pub open spec fn be_field(value: u32) -> Seq<u8> {
    seq![
        (value / 0x100_0000) as u8,
        (value / 0x1_0000 % 0x100) as u8,
        (value / 0x100 % 0x100) as u8,
        (value % 0x100) as u8,
    ]
}

/// Decoding undoes encoding.
pub proof fn lemma_be_value_of_field(value: u32)
    ensures
        be_field(value).len() == 4,
        be_value(be_field(value)) == value,
{
}

/// Encoding undoes decoding: a field is the only spelling of its value.
pub proof fn lemma_be_field_of_value(field: Seq<u8>)
    requires
        field.len() == 4,
    ensures
        0 <= be_value(field) <= u32::MAX,
        be_field(be_value(field) as u32) == field,
{
    let b0 = field[0] as int;
    let b1 = field[1] as int;
    let b2 = field[2] as int;
    let b3 = field[3] as int;
    let low3 = b1 * 0x1_0000 + b2 * 0x100 + b3;
    let low2 = b2 * 0x100 + b3;
    let v = be_value(field);
    assert(v == b0 * 0x100_0000 + low3);
    assert(0 <= low3 < 0x100_0000);
    assert(v / 0x100_0000 == b0);
    let high2 = b0 * 0x100 + b1;
    assert(v == high2 * 0x1_0000 + low2);
    assert(0 <= low2 < 0x1_0000);
    assert(v / 0x1_0000 == high2);
    assert(high2 % 0x100 == b1);
    let high3 = high2 * 0x100 + b2;
    assert(v == high3 * 0x100 + b3);
    assert(v / 0x100 == high3);
    assert(high3 % 0x100 == b2);
    assert(v % 0x100 == b3);
    assert(be_field(v as u32) =~= field);
}

/// Reads a four-byte field as a big-endian number.
pub fn read_be_u32(field: &[u8]) -> (r: u32)
    requires
        field@.len() == 4,
    ensures
        r == be_value(field@),
{
    let b0: u32 = field[0] as u32;
    let b1: u32 = field[1] as u32;
    let b2: u32 = field[2] as u32;
    let b3: u32 = field[3] as u32;
    b0 * 0x100_0000 + b1 * 0x1_0000 + b2 * 0x100 + b3
}

/// Spells `value` as a four-byte big-endian field.
pub fn write_be_u32(value: u32) -> (r: [u8; 4])
    ensures
        r@ == be_field(value),
{
    let r: [u8; 4] = [
        (value / 0x100_0000) as u8,
        (value / 0x1_0000 % 0x100) as u8,
        (value / 0x100 % 0x100) as u8,
        (value % 0x100) as u8,
    ];
    assert(r@ =~= be_field(value));
    r
}

} // verus!
