//! Base-16 text: what it denotes, and the conversions between text and bytes.

use vstd::prelude::*;
use hex::FromHexError;
use crate::error::PipelineError;

verus! {

/// `c` is one of `0-9`, `a-f`, `A-F`.
pub open spec fn is_hex_digit(c: char) -> bool {
    ('0' <= c <= '9') || ('a' <= c <= 'f') || ('A' <= c <= 'F')
}

/// The number that a base-16 digit stands for; 0 for any other character.
pub open spec fn hex_digit_value(c: char) -> nat {
    if '0' <= c <= '9' {
        (c as int - '0' as int) as nat
    } else if 'a' <= c <= 'f' {
        (c as int - 'a' as int + 10) as nat
    } else if 'A' <= c <= 'F' {
        (c as int - 'A' as int + 10) as nat
    } else {
        0
    }
}

/// Every character of `s` is a base-16 digit.
pub open spec fn is_hex_text(s: Seq<char>) -> bool {
    forall|i: int| 0 <= i < s.len() ==> is_hex_digit(#[trigger] s[i])
}

/// The number that `s` denotes, most significant digit first.
pub open spec fn hex_value(s: Seq<char>) -> nat
    decreases s.len(),
{
    if s.len() == 0 {
        0
    } else {
        16 * hex_value(s.drop_last()) + hex_digit_value(s.last())
    }
}

/// `s` spells a whole number of bytes in base 16.
pub open spec fn is_byte_text(s: Seq<char>) -> bool {
    s.len() % 2 == 0 && is_hex_text(s)
}

/// The bytes that `s` spells, two digits to a byte, high digit first.
pub open spec fn hex_to_bytes(s: Seq<char>) -> Seq<u8> {
    Seq::new(
        s.len() / 2,
        |i: int| (16 * hex_digit_value(s[2 * i]) + hex_digit_value(s[2 * i + 1])) as u8,
    )
}

/// The lower-case digit for a number below 16.
pub open spec fn lower_hex_digit(n: nat) -> char {
    if n < 10 {
        (n + '0' as nat) as char
    } else {
        (n - 10 + 'a' as nat) as char
    }
}

/// The lower-case text that spells `bytes`, two digits to a byte, high digit
/// first.
pub open spec fn bytes_to_hex(bytes: Seq<u8>) -> Seq<char> {
    Seq::new(
        2 * bytes.len(),
        |i: int|
            if i % 2 == 0 {
                lower_hex_digit((bytes[i / 2] / 16) as nat)
            } else {
                lower_hex_digit((bytes[i / 2] % 16) as nat)
            },
    )
}

/// `hex::FromHexError`, of which nothing is read.
#[verifier::external_type_specification]
#[verifier::external_body]
pub struct ExFromHexError(FromHexError);

/// `hex::decode`.  It succeeds exactly on an even number of base-16 digits,
/// of either case, and then returns the bytes they spell, the first digit of
/// each pair being the high half of its byte.
#[verifier::external_body]
fn hex_decode(text: &str) -> (r: Result<Vec<u8>, FromHexError>)
    ensures
        r.is_ok() <==> is_byte_text(text@),
        r matches Ok(bytes) ==> bytes@ == hex_to_bytes(text@),
{
    hex::decode(text)
}

/// `hex::encode`.  It spells each byte as two lower-case digits, high half
/// first.
#[verifier::external_body]
fn hex_encode(bytes: &[u8]) -> (text: String)
    ensures
        text@ == bytes_to_hex(bytes@),
{
    hex::encode(bytes)
}

/// Reads a byte string from its base-16 spelling.
pub fn decode_hex(text: &str) -> (r: Result<Vec<u8>, PipelineError>)
    ensures
        match r {
            Ok(bytes) => is_byte_text(text@) && bytes@ == hex_to_bytes(text@),
            Err(e) => !is_byte_text(text@) && e == PipelineError::MalformedHex,
        },
{
    match hex_decode(text) {
        Ok(bytes) => Ok(bytes),
        Err(_) => Err(PipelineError::MalformedHex),
    }
}

/// Spells a byte string in lower-case base 16.
pub fn encode_hex(bytes: &[u8]) -> (text: String)
    ensures
        text@ == bytes_to_hex(bytes@),
{
    hex_encode(bytes)
}

/// A number below 16 and its lower-case digit stand for each other.
pub proof fn lemma_lower_hex_digit(n: nat)
    requires
        n < 16,
    ensures
        is_hex_digit(lower_hex_digit(n)),
        hex_digit_value(lower_hex_digit(n)) == n,
{
}

/// What `encode_hex` writes, `decode_hex` reads back unchanged.
pub proof fn lemma_bytes_round_trip(bytes: Seq<u8>)
    ensures
        is_byte_text(bytes_to_hex(bytes)),
        hex_to_bytes(bytes_to_hex(bytes)) == bytes,
{
    let s = bytes_to_hex(bytes);
    assert forall|i: int| 0 <= i < s.len() implies is_hex_digit(#[trigger] s[i]) by {
        lemma_lower_hex_digit((bytes[i / 2] / 16) as nat);
        lemma_lower_hex_digit((bytes[i / 2] % 16) as nat);
    }
    assert forall|k: int| 0 <= k < bytes.len() implies hex_to_bytes(s)[k] == bytes[k] by {
        lemma_lower_hex_digit((bytes[k] / 16) as nat);
        lemma_lower_hex_digit((bytes[k] % 16) as nat);
        assert(s[2 * k] == lower_hex_digit((bytes[k] / 16) as nat));
        assert(s[2 * k + 1] == lower_hex_digit((bytes[k] % 16) as nat));
    }
    assert(hex_to_bytes(s) =~= bytes);
}

} // verus!
