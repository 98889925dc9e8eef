//! Text helpers: UTF-8 decoding of byte strings and the small formatters
//! used by the human-readable dumps.

use core::str::Utf8Error;
use vstd::prelude::*;
use vstd::string::*;
use vstd::utf8::*;

verus! {

/// The error that std reports for bytes that are not UTF-8. Opaque here.
#[verifier::external_type_specification]
#[verifier::external_body]
pub struct ExUtf8Error(Utf8Error);

/// `core::str::from_utf8` succeeds exactly on well-formed UTF-8, and the text
/// it returns is made of the very bytes that were passed in.
pub assume_specification<'a>[ core::str::from_utf8 ](v: &'a [u8]) -> (r: Result<&'a str, Utf8Error>)
    ensures
        r.is_ok() == valid_utf8(v@),
        r matches Ok(s) ==> s.spec_bytes() == v@,
;

/// True when every byte is below 0x80.
pub open spec fn is_ascii_bytes(bytes: Seq<u8>) -> bool {
    forall|i: int| 0 <= i < bytes.len() ==> #[trigger] bytes[i] < 0x80
}

/// The characters that a string of ASCII bytes spells.
pub open spec fn ascii_chars(bytes: Seq<u8>) -> Seq<char> {
    Seq::new(bytes.len(), |i: int| bytes[i] as char)
}

/// ASCII bytes are well-formed UTF-8, and any text stored as those bytes
/// spells exactly `ascii_chars(bytes)`.
pub proof fn lemma_ascii_is_utf8(bytes: Seq<u8>)
    requires
        is_ascii_bytes(bytes),
    ensures
        valid_utf8(bytes),
        encode_utf8(ascii_chars(bytes)) == bytes,
        decode_utf8(bytes) == ascii_chars(bytes),
{
    let chars = ascii_chars(bytes);
    assert(is_ascii_chars(chars));
    is_ascii_chars_encode_utf8(chars);
    assert(encode_utf8(chars) =~= bytes);
    encode_utf8_valid_utf8(chars);
    encode_utf8_decode_utf8(chars);
}

/// Two texts with the same UTF-8 encoding are the same text.
pub proof fn lemma_utf8_injective(a: Seq<char>, b: Seq<char>)
    requires
        encode_utf8(a) == encode_utf8(b),
    ensures
        a == b,
{
    encode_utf8_decode_utf8(a);
    encode_utf8_decode_utf8(b);
}

/// The character for one hexadecimal digit, upper case.
pub open spec fn hex_digit(n: int) -> char {
    if n < 10 {
        (0x30 + n) as char
    } else {
        (0x41 + n - 10) as char
    }
}

/// A byte as two hexadecimal digits.
pub open spec fn hex_byte(b: u8) -> Seq<char> {
    seq![hex_digit(b as int / 16), hex_digit(b as int % 16)]
}

/// Bytes as pairs of hexadecimal digits without anything between them.
pub open spec fn hex_run(bytes: Seq<u8>) -> Seq<char>
    decreases bytes.len(),
{
    if bytes.len() == 0 {
        Seq::empty()
    } else {
        hex_run(bytes.drop_last()) + hex_byte(bytes.last())
    }
}

/// Bytes as pairs of hexadecimal digits with one space between neighbours.
pub open spec fn hex_list(bytes: Seq<u8>) -> Seq<char>
    decreases bytes.len(),
{
    if bytes.len() == 0 {
        Seq::empty()
    } else if bytes.len() == 1 {
        hex_byte(bytes[0])
    } else {
        hex_list(bytes.drop_last()) + seq![' '] + hex_byte(bytes.last())
    }
}

/// A number in decimal, without leading zeros.
pub open spec fn decimal(n: nat) -> Seq<char>
    decreases n,
{
    if n < 10 {
        seq![hex_digit(n as int)]
    } else {
        decimal(n / 10).push(hex_digit((n % 10) as int))
    }
}

/// Appends the digit for `n`.
pub fn push_digit(out: &mut String, n: u8)
    requires
        n < 16,
    ensures
        final(out)@ == old(out)@.push(hex_digit(n as int)),
{
    let digits: &str = "0123456789ABCDEF";
    proof {
        reveal_strlit("0123456789ABCDEF");
        assert(is_ascii_chars(digits@));
    }
    let at: usize = n as usize;
    let digit: &str = digits.substring_ascii(at, at + 1);
    assert(digit@ =~= seq![hex_digit(n as int)]);
    out.append(digit);
    assert(out@ =~= old(out)@.push(hex_digit(n as int)));
}

/// Appends `b` as two hexadecimal digits.
pub fn push_hex_byte(out: &mut String, b: u8)
    ensures
        final(out)@ == old(out)@ + hex_byte(b),
{
    push_digit(out, b / 16);
    push_digit(out, b % 16);
    assert(out@ =~= old(out)@ + hex_byte(b));
}

/// Appends `bytes` as hexadecimal digits without anything between them.
pub fn push_hex_run(out: &mut String, bytes: &[u8])
    ensures
        final(out)@ == old(out)@ + hex_run(bytes@),
{
    let mut index: usize = 0;
    assert(out@ =~= old(out)@ + hex_run(bytes@.take(0)));
    while index < bytes.len()
        invariant
            index <= bytes@.len(),
            out@ == old(out)@ + hex_run(bytes@.take(index as int)),
        decreases bytes@.len() - index,
    {
        proof {
            let next = bytes@.take(index + 1);
            assert(next.drop_last() =~= bytes@.take(index as int));
            assert(next.last() == bytes@[index as int]);
        }
        push_hex_byte(out, bytes[index]);
        assert(out@ =~= old(out)@ + hex_run(bytes@.take(index + 1)));
        index += 1;
    }
    assert(bytes@.take(index as int) =~= bytes@);
}

/// Appends `bytes` as hexadecimal digits with one space between neighbours.
pub fn push_hex_list(out: &mut String, bytes: &[u8])
    ensures
        final(out)@ == old(out)@ + hex_list(bytes@),
{
    let mut index: usize = 0;
    assert(out@ =~= old(out)@ + hex_list(bytes@.take(0)));
    while index < bytes.len()
        invariant
            index <= bytes@.len(),
            out@ == old(out)@ + hex_list(bytes@.take(index as int)),
        decreases bytes@.len() - index,
    {
        proof {
            let next = bytes@.take(index + 1);
            assert(next.drop_last() =~= bytes@.take(index as int));
            assert(next.last() == bytes@[index as int]);
        }
        if index > 0 {
            proof {
                reveal_strlit(" ");
            }
            out.append(" ");
            assert(" "@ =~= seq![' ']);
        }
        push_hex_byte(out, bytes[index]);
        assert(out@ =~= old(out)@ + hex_list(bytes@.take(index + 1)));
        index += 1;
    }
    assert(bytes@.take(index as int) =~= bytes@);
}

/// Appends `n` in decimal.
pub fn push_decimal(out: &mut String, n: u32)
    ensures
        final(out)@ == old(out)@ + decimal(n as nat),
    decreases n,
{
    if n >= 10 {
        push_decimal(out, n / 10);
    }
    push_digit(out, (n % 10) as u8);
    assert(out@ =~= old(out)@ + decimal(n as nat));
}

} // verus!
