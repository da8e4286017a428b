//! The textual encodings of primitive values: decimal digits, base64 and
//! hexadecimal, each with the specification that states the text exactly.

use alloy_primitives::{Address, Function, I256, U256};
use base64::prelude::{Engine, BASE64_STANDARD};
use vstd::arithmetic::power2::pow2;
use vstd::prelude::*;

verus! {

/// The number that a sequence of bytes spells in big-endian order.
pub open spec fn unsigned_value(bytes: Seq<u8>) -> nat
    decreases bytes.len(),
{
    if bytes.len() == 0 {
        0
    } else {
        unsigned_value(bytes.drop_last()) * 256 + bytes.last() as nat
    }
}

/// The number that a sequence of bytes spells in big-endian two's complement.
pub open spec fn signed_value(bytes: Seq<u8>) -> int {
    if bytes.len() > 0 && bytes[0] >= 128 {
        unsigned_value(bytes) - pow2(8 * bytes.len())
    } else {
        unsigned_value(bytes) as int
    }
}

/// The character of one decimal digit.
pub open spec fn decimal_digit(d: int) -> char {
    "0123456789"@[d]
}

/// The base-10 digits of a number, most significant first, without leading zeros.
pub open spec fn decimal_text(n: nat) -> Seq<char>
    decreases n,
{
    if n < 10 {
        seq![decimal_digit(n as int)]
    } else {
        decimal_text(n / 10).push(decimal_digit((n % 10) as int))
    }
}

/// The base-10 text of an integer: a minus sign for a negative one, then the
/// digits of its magnitude.
pub open spec fn signed_decimal_text(v: int) -> Seq<char> {
    if v < 0 {
        seq!['-'] + decimal_text((-v) as nat)
    } else {
        decimal_text(v as nat)
    }
}

/// The character of one six-bit group in the standard base64 alphabet.
pub open spec fn base64_symbol(v: int) -> char {
    "ABCDEFGHIJKLMNOPQRSTUVWXYZabcdefghijklmnopqrstuvwxyz0123456789+/"@[v]
}

/// The standard base64 encoding of a byte sequence, padded with `=` to a
/// multiple of four characters.
pub open spec fn base64_text(bytes: Seq<u8>) -> Seq<char>
    decreases bytes.len(),
{
    let b0 = bytes[0] as int;
    let b1 = bytes[1] as int;
    let b2 = bytes[2] as int;
    if bytes.len() == 0 {
        Seq::empty()
    } else if bytes.len() == 1 {
        seq![base64_symbol(b0 / 4), base64_symbol((b0 % 4) * 16), '=', '=']
    } else if bytes.len() == 2 {
        seq![
            base64_symbol(b0 / 4),
            base64_symbol((b0 % 4) * 16 + b1 / 16),
            base64_symbol((b1 % 16) * 4),
            '=',
        ]
    } else {
        seq![
            base64_symbol(b0 / 4),
            base64_symbol((b0 % 4) * 16 + b1 / 16),
            base64_symbol((b1 % 16) * 4 + b2 / 64),
            base64_symbol(b2 % 64),
        ] + base64_text(bytes.skip(3))
    }
}

/// The six-bit group that a character of the standard base64 alphabet stands for.
pub open spec fn base64_group(c: char) -> int {
    if 'A' <= c <= 'Z' {
        c as int - 'A' as int
    } else if 'a' <= c <= 'z' {
        c as int - 'a' as int + 26
    } else if '0' <= c <= '9' {
        c as int - '0' as int + 52
    } else if c == '+' {
        62
    } else {
        63
    }
}

/// The bytes that a padded base64 text stands for: three for each four
/// characters, and one or two for a last group that ends in padding.
pub open spec fn base64_bytes(text: Seq<char>) -> Seq<u8>
    decreases text.len(),
{
    let g0 = base64_group(text[0]);
    let g1 = base64_group(text[1]);
    let g2 = base64_group(text[2]);
    let g3 = base64_group(text[3]);
    if text.len() < 4 {
        Seq::empty()
    } else if text[2] == '=' {
        seq![(g0 * 4 + g1 / 16) as u8]
    } else if text[3] == '=' {
        seq![(g0 * 4 + g1 / 16) as u8, ((g1 % 16) * 16 + g2 / 4) as u8]
    } else {
        seq![
            (g0 * 4 + g1 / 16) as u8,
            ((g1 % 16) * 16 + g2 / 4) as u8,
            ((g2 % 4) * 64 + g3) as u8,
        ] + base64_bytes(text.skip(4))
    }
}

/// Each six-bit group has its own character in the alphabet, and none of
/// them is the padding character.
pub proof fn lemma_base64_symbol(v: int)
    requires
        0 <= v < 64,
    ensures
        base64_group(base64_symbol(v)) == v,
        base64_symbol(v) != '=',
{
    reveal_strlit("ABCDEFGHIJKLMNOPQRSTUVWXYZabcdefghijklmnopqrstuvwxyz0123456789+/");
    assert(v == 0 || v == 1 || v == 2 || v == 3 || v == 4 || v == 5 || v == 6 || v == 7 || v == 8
        || v == 9 || v == 10 || v == 11 || v == 12 || v == 13 || v == 14 || v == 15 || v == 16
        || v == 17 || v == 18 || v == 19 || v == 20 || v == 21 || v == 22 || v == 23 || v == 24
        || v == 25 || v == 26 || v == 27 || v == 28 || v == 29 || v == 30 || v == 31 || v == 32
        || v == 33 || v == 34 || v == 35 || v == 36 || v == 37 || v == 38 || v == 39 || v == 40
        || v == 41 || v == 42 || v == 43 || v == 44 || v == 45 || v == 46 || v == 47 || v == 48
        || v == 49 || v == 50 || v == 51 || v == 52 || v == 53 || v == 54 || v == 55 || v == 56
        || v == 57 || v == 58 || v == 59 || v == 60 || v == 61 || v == 62 || v == 63);
}

/// Decoding the base64 text of a byte sequence gives the bytes back, and the
/// text has four characters for every three bytes or part of three.
pub proof fn lemma_base64_round_trip(bytes: Seq<u8>)
    ensures
        base64_bytes(base64_text(bytes)) == bytes,
        base64_text(bytes).len() == 4 * ((bytes.len() + 2) / 3),
    decreases bytes.len(),
{
    if bytes.len() == 0 {
        assert(base64_bytes(base64_text(bytes)) =~= bytes);
    } else {
        let b0 = bytes[0] as int;
        lemma_base64_symbol(b0 / 4);
        if bytes.len() == 1 {
            lemma_base64_symbol((b0 % 4) * 16);
            assert(base64_bytes(base64_text(bytes)) =~= bytes);
        } else {
            let b1 = bytes[1] as int;
            lemma_base64_symbol((b0 % 4) * 16 + b1 / 16);
            if bytes.len() == 2 {
                lemma_base64_symbol((b1 % 16) * 4);
                assert(base64_bytes(base64_text(bytes)) =~= bytes);
            } else {
                let b2 = bytes[2] as int;
                lemma_base64_symbol((b1 % 16) * 4 + b2 / 64);
                lemma_base64_symbol(b2 % 64);
                lemma_base64_round_trip(bytes.skip(3));
                let head = seq![
                    base64_symbol(b0 / 4),
                    base64_symbol((b0 % 4) * 16 + b1 / 16),
                    base64_symbol((b1 % 16) * 4 + b2 / 64),
                    base64_symbol(b2 % 64),
                ];
                let text = base64_text(bytes);
                assert(text == head + base64_text(bytes.skip(3)));
                assert(text.skip(4) =~= base64_text(bytes.skip(3)));
                assert(base64_bytes(text) =~= seq![bytes[0], bytes[1], bytes[2]] + bytes.skip(3));
                assert(seq![bytes[0], bytes[1], bytes[2]] + bytes.skip(3) =~= bytes);
            }
        }
    }
}

/// The character of one hexadecimal digit, in lower case.
pub open spec fn hex_digit(d: int) -> char {
    "0123456789abcdef"@[d]
}

/// Two lower-case hexadecimal digits for each byte, in order.
pub open spec fn hex_text(bytes: Seq<u8>) -> Seq<char>
    decreases bytes.len(),
{
    if bytes.len() == 0 {
        Seq::empty()
    } else {
        let last = bytes.last() as int;
        hex_text(bytes.drop_last()).push(hex_digit(last / 16)).push(hex_digit(last % 16))
    }
}

/// The hexadecimal text of a byte sequence behind the prefix `0x`.
pub open spec fn prefixed_hex_text(bytes: Seq<u8>) -> Seq<char> {
    seq!['0', 'x'] + hex_text(bytes)
}

/// The checksummed textual form of a 20-byte address: `0x` and forty
/// hexadecimal digits whose letter case carries a Keccak-256 checksum.
pub uninterp spec fn address_checksum_text(address: Seq<u8>) -> Seq<char>;

/// Calls `Uint::from_be_bytes` and the `Display` impl of `ruint::Uint`, as
/// re-exported by `alloy_primitives::U256`. The contract claims that the text
/// is the base-10 digits of the number that the word spells in big-endian
/// order, without sign, padding or leading zeros.
#[verifier::external_body]
pub(crate) fn uint_to_decimal(word: &[u8; 32]) -> (text: String)
    ensures
        text@ == decimal_text(unsigned_value(word@)),
{
    U256::from_be_bytes(*word).to_string()
}

/// Calls `Signed::from_be_bytes` and `Signed::to_dec_string` of
/// `alloy_primitives::I256`. The contract claims that the text is the base-10
/// digits of the magnitude of the two's-complement number that the word
/// spells, behind a `-` when that number is negative.
#[verifier::external_body]
pub(crate) fn int_to_decimal(word: &[u8; 32]) -> (text: String)
    ensures
        text@ == signed_decimal_text(signed_value(word@)),
{
    I256::from_be_bytes(*word).to_dec_string()
}

/// Calls `Engine::encode` on `base64::prelude::BASE64_STANDARD`. The contract
/// claims that the text is the base64 encoding of the bytes in the standard
/// alphabet, with padding.
#[verifier::external_body]
pub(crate) fn base64_encode(bytes: &[u8]) -> (text: String)
    ensures
        text@ == base64_text(bytes@),
{
    BASE64_STANDARD.encode(bytes)
}

/// Calls the `Display` impl of `alloy_primitives::Address`. The contract
/// names the text and claims only that it depends on the twenty bytes alone.
#[verifier::external_body]
pub(crate) fn address_to_text(address: &[u8; 20]) -> (text: String)
    ensures
        text@ == address_checksum_text(address@),
{
    Address::from(*address).to_string()
}

/// Calls the `Display` impl of `alloy_primitives::Function`. The contract
/// claims that the text is `0x` followed by two lower-case hexadecimal digits
/// for each of the twenty-four bytes.
#[verifier::external_body]
pub(crate) fn function_to_text(function: &[u8; 24]) -> (text: String)
    ensures
        text@ == prefixed_hex_text(function@),
{
    Function::from(*function).to_string()
}

} // verus!
