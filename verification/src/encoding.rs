//! Hexadecimal and decimal text, as the wallet's JSON models hold their bytes
//! and numbers.

use vstd::prelude::*;
use crate::error::HexError;

verus! {

/// The lowercase hexadecimal digit of a number below 16.
pub open spec fn hex_char(nibble: int) -> char {
    seq!['0', '1', '2', '3', '4', '5', '6', '7', '8', '9', 'a', 'b', 'c', 'd', 'e', 'f'][nibble]
}

/// The hexadecimal form of `bytes`: two lowercase digits for each byte, the
/// high half first.
pub open spec fn hex_encoding(bytes: Seq<u8>) -> Seq<char> {
    Seq::new(
        2 * bytes.len(),
        |i: int|
            if i % 2 == 0 {
                hex_char(bytes[i / 2] as int / 16)
            } else {
                hex_char(bytes[i / 2] as int % 16)
            },
    )
}

/// What the ASCII character `c` is worth as a hexadecimal digit, of either
/// case; `None` where it is no such digit.
pub open spec fn hex_value(c: u8) -> Option<int> {
    if 48 <= c <= 57 {
        Some(c - 48)
    } else if 97 <= c <= 102 {
        Some(c - 97 + 10)
    } else if 65 <= c <= 70 {
        Some(c - 65 + 10)
    } else {
        None
    }
}

/// Whether `text` is the hexadecimal form of some bytes: an even number of
/// hexadecimal digits.
pub open spec fn is_hex(text: Seq<u8>) -> bool {
    &&& text.len() % 2 == 0
    &&& forall|i: int| 0 <= i < text.len() ==> hex_value(#[trigger] text[i]) is Some
}

/// The bytes that the hexadecimal `text` stands for.
pub open spec fn hex_decoding(text: Seq<u8>) -> Seq<u8> {
    Seq::new(
        text.len() / 2,
        |i: int| (hex_value(text[2 * i])->0 * 16 + hex_value(text[2 * i + 1])->0) as u8,
    )
}

/// What decoding `text` as hexadecimal gives: its bytes; or, for an odd
/// length, that; or else the first character that is no digit, with its place.
pub open spec fn hex_decoded(text: Seq<u8>, outcome: Result<Vec<u8>, HexError>) -> bool {
    match outcome {
        Ok(bytes) => is_hex(text) && bytes@ == hex_decoding(text),
        Err(HexError::OddLength) => text.len() % 2 == 1,
        Err(HexError::InvalidHexCharacter { c, index }) => {
            &&& text.len() % 2 == 0
            &&& index < text.len()
            &&& hex_value(text[index as int]) is None
            &&& c == text[index as int] as char
            &&& forall|j: int| 0 <= j < index ==> hex_value(#[trigger] text[j]) is Some
        },
        Err(HexError::InvalidStringLength) => false,
    }
}

/// The hexadecimal form of `data`.
///
/// Calls `hex::encode`, which writes each byte as two lowercase digits, the
/// high half first; the contract says so.
#[verifier::external_body]
pub(crate) fn hex_encode(data: &[u8]) -> (text: String)
    ensures
        text@ == hex_encoding(data@),
{
    hex::encode(data)
}

/// The bytes that the hexadecimal `text` stands for.
///
/// Calls `hex::decode`. It refuses a text of odd length; else it reads the
/// digits, of either case, two for a byte, and refuses the text at the first
/// character that is no digit, which it reports with its place. The contract
/// says so. The error is handed on variant for variant.
#[verifier::external_body]
pub(crate) fn hex_decode(text: &[u8]) -> (outcome: Result<Vec<u8>, HexError>)
    ensures
        hex_decoded(text@, outcome),
{
    match hex::decode(text) {
        Ok(bytes) => Ok(bytes),
        Err(hex::FromHexError::InvalidHexCharacter { c, index }) => {
            Err(HexError::InvalidHexCharacter { c, index })
        },
        Err(hex::FromHexError::OddLength) => Err(HexError::OddLength),
        Err(hex::FromHexError::InvalidStringLength) => Err(HexError::InvalidStringLength),
    }
}

/// The decimal digit of a number below 10.
pub open spec fn decimal_char(digit: int) -> char {
    seq!['0', '1', '2', '3', '4', '5', '6', '7', '8', '9'][digit]
}

/// The decimal form of `number`, without a sign and without leading zeros.
pub open spec fn decimal(number: nat) -> Seq<char>
    decreases number,
{
    if number < 10 {
        seq![decimal_char(number as int)]
    } else {
        decimal(number / 10).push(decimal_char((number % 10) as int))
    }
}

/// The decimal form of `number`.
///
/// Calls `u64::to_string` of std, which writes an unsigned integer in decimal
/// without a sign and without leading zeros; the contract says so.
#[verifier::external_body]
pub(crate) fn u64_to_string(number: u64) -> (text: String)
    ensures
        text@ == decimal(number as nat),
{
    number.to_string()
}

/// What the character `c` is worth as a decimal digit; `None` where it is none.
pub open spec fn digit_value(c: char) -> Option<int> {
    if '0' <= c <= '9' {
        Some(c as int - '0' as int)
    } else {
        None
    }
}

/// Whether `digits` is one decimal digit or more, and nothing else.
pub open spec fn is_digits(digits: Seq<char>) -> bool {
    &&& digits.len() > 0
    &&& forall|i: int| 0 <= i < digits.len() ==> digit_value(#[trigger] digits[i]) is Some
}

/// The number that the decimal digits `digits` spell.
pub open spec fn digits_value(digits: Seq<char>) -> nat
    decreases digits.len(),
{
    if digits.len() == 0 {
        0
    } else {
        (digits_value(digits.drop_last()) * 10 + digit_value(digits.last())->0) as nat
    }
}

/// The number that `text` spells in decimal, where it spells one that fits in
/// 64 bits: decimal digits and nothing else, but for one `+` that may stand
/// in front.
pub open spec fn parsed_u64(text: Seq<char>) -> Option<u64> {
    let digits = if text.len() > 0 && text[0] == '+' {
        text.drop_first()
    } else {
        text
    };
    if is_digits(digits) && digits_value(digits) <= u64::MAX {
        Some(digits_value(digits) as u64)
    } else {
        None
    }
}

/// The number that `text` spells in decimal.
///
/// Calls `str::parse::<u64>` of std. It expects decimal digits, before which
/// one `+` may stand, and takes anything else, an empty text and a number
/// that does not fit for an error; the contract says so.
#[verifier::external_body]
pub(crate) fn parse_u64(text: &str) -> (number: Option<u64>)
    ensures
        number == parsed_u64(text@),
{
    match text.parse::<u64>() {
        Ok(number) => Some(number),
        Err(_) => None,
    }
}

/// The bytes of a text.
pub open spec fn bytes_of(text: Seq<char>) -> Seq<u8> {
    vstd::utf8::encode_utf8(text)
}

/// The bytes that the hexadecimal `text` stands for.
pub fn decode_hex(text: &String) -> (outcome: Result<Vec<u8>, HexError>)
    ensures
        hex_decoded(bytes_of(text@), outcome),
{
    hex_decode(text.as_str().as_bytes())
}

/// What decoding reports of a text that is not hexadecimal is one thing only.
pub proof fn lemma_hex_error_unique(text: Seq<u8>, first: HexError, second: HexError)
    requires
        hex_decoded(text, Err(first)),
        hex_decoded(text, Err(second)),
    ensures
        first == second,
        !is_hex(text),
{
    match (first, second) {
        (
            HexError::InvalidHexCharacter { c: c1, index: i1 },
            HexError::InvalidHexCharacter { c: c2, index: i2 },
        ) => {
            assert(hex_value(text[i1 as int]) is None);
            assert(hex_value(text[i2 as int]) is None);
            if i1 < i2 {
                assert(hex_value(text[i1 as int]) is Some);
            }
            if i2 < i1 {
                assert(hex_value(text[i2 as int]) is Some);
            }
        },
        (HexError::InvalidHexCharacter { c, index }, _) => {
            assert(hex_value(text[index as int]) is None);
        },
        (_, HexError::InvalidHexCharacter { c, index }) => {
            assert(hex_value(text[index as int]) is None);
        },
        _ => {},
    }
}

/// A hexadecimal digit is an ASCII character that is worth what it was made of.
proof fn lemma_hex_char(nibble: int)
    requires
        0 <= nibble < 16,
    ensures
        '\0' <= hex_char(nibble) <= '\u{7f}',
        hex_value(hex_char(nibble) as u8) == Some(nibble),
{
    let digits = seq![
        '0',
        '1',
        '2',
        '3',
        '4',
        '5',
        '6',
        '7',
        '8',
        '9',
        'a',
        'b',
        'c',
        'd',
        'e',
        'f',
    ];
    assert(digits[0] == '0' && digits[1] == '1' && digits[2] == '2' && digits[3] == '3');
    assert(digits[4] == '4' && digits[5] == '5' && digits[6] == '6' && digits[7] == '7');
    assert(digits[8] == '8' && digits[9] == '9' && digits[10] == 'a' && digits[11] == 'b');
    assert(digits[12] == 'c' && digits[13] == 'd' && digits[14] == 'e' && digits[15] == 'f');
}

/// Decoding the hexadecimal form of bytes gives the bytes back.
pub proof fn lemma_hex_round_trip(bytes: Seq<u8>)
    ensures
        is_hex(bytes_of(hex_encoding(bytes))),
        hex_decoding(bytes_of(hex_encoding(bytes))) == bytes,
{
    let text = hex_encoding(bytes);
    assert forall|i: int| 0 <= i < text.len() implies '\0' <= #[trigger] text[i] <= '\u{7f}' by {
        lemma_hex_char(bytes[i / 2] as int / 16);
        lemma_hex_char(bytes[i / 2] as int % 16);
    }
    vstd::utf8::is_ascii_chars_encode_utf8(text);
    let raw = bytes_of(text);
    assert forall|i: int| 0 <= i < raw.len() implies hex_value(#[trigger] raw[i]) is Some by {
        lemma_hex_char(bytes[i / 2] as int / 16);
        lemma_hex_char(bytes[i / 2] as int % 16);
        assert(raw[i] == text[i] as u8);
    }
    assert forall|k: int| 0 <= k < bytes.len() implies hex_decoding(raw)[k] == bytes[k] by {
        lemma_hex_char(bytes[k] as int / 16);
        lemma_hex_char(bytes[k] as int % 16);
        assert(raw[2 * k] == text[2 * k] as u8);
        assert(raw[2 * k + 1] == text[2 * k + 1] as u8);
    }
    assert(hex_decoding(raw) =~= bytes);
}

/// A decimal digit is worth what it was made of.
proof fn lemma_decimal_char(digit: int)
    requires
        0 <= digit < 10,
    ensures
        digit_value(decimal_char(digit)) == Some(digit),
{
    let digits = seq!['0', '1', '2', '3', '4', '5', '6', '7', '8', '9'];
    assert(digits[0] == '0' && digits[1] == '1' && digits[2] == '2' && digits[3] == '3');
    assert(digits[4] == '4' && digits[5] == '5' && digits[6] == '6' && digits[7] == '7');
    assert(digits[8] == '8' && digits[9] == '9');
}

/// The decimal form of a number is made of digits that spell the number.
proof fn lemma_decimal_digits(number: nat)
    ensures
        is_digits(decimal(number)),
        digits_value(decimal(number)) == number,
    decreases number,
{
    if number < 10 {
        lemma_decimal_char(number as int);
        let text = decimal(number);
        assert(text.drop_last() =~= Seq::<char>::empty());
        assert(digits_value(text.drop_last()) == 0);
    } else {
        lemma_decimal_digits(number / 10);
        lemma_decimal_char((number % 10) as int);
        let text = decimal(number);
        assert(text.drop_last() =~= decimal(number / 10));
        assert forall|i: int| 0 <= i < text.len() implies digit_value(#[trigger] text[i])
            is Some by {
            if i < text.len() - 1 {
                assert(text[i] == decimal(number / 10)[i]);
            }
        }
    }
}

/// Reading the decimal form of a number gives the number back.
pub proof fn lemma_decimal_round_trip(number: u64)
    ensures
        parsed_u64(decimal(number as nat)) == Some(number),
{
    lemma_decimal_digits(number as nat);
    let text = decimal(number as nat);
    assert(digit_value(text[0]) is Some);
}

} // verus!
