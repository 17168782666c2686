//! Hexadecimal text: what it means, and the two calls into the `hex` crate
//! that the rest of the library relies on.

use vstd::prelude::*;

verus! {

/// Why a byte string is not hexadecimal text.
#[derive(Debug, Clone, Copy, PartialEq, Eq)]
pub enum HexError {
    /// The byte `c` at `index` is not one of `0-9`, `a-f`, `A-F`.
    InvalidHexCharacter { c: char, index: usize },
    /// The text has an odd number of digits.
    OddLength,
    /// The text does not fill a container of fixed size.
    InvalidStringLength,
}

/// The value of one ASCII hexadecimal digit, in either case.
pub open spec fn hex_digit_value(c: u8) -> Option<u8> {
    if 0x30 <= c <= 0x39 {
        Some((c - 0x30) as u8)
    } else if 0x41 <= c <= 0x46 {
        Some((c - 0x41 + 10) as u8)
    } else if 0x61 <= c <= 0x66 {
        Some((c - 0x61 + 10) as u8)
    } else {
        None
    }
}

/// `text` is an even number of hexadecimal digits.
pub open spec fn is_hex_text(text: Seq<u8>) -> bool {
    &&& text.len() % 2 == 0
    &&& forall|i: int| 0 <= i < text.len() ==> (#[trigger] hex_digit_value(text[i])) is Some
}

/// The bytes that hexadecimal `text` stands for, two digits to a byte, the
/// high digit first.
pub open spec fn hex_decoded(text: Seq<u8>) -> Seq<u8> {
    Seq::new(
        text.len() / 2,
        |i: int|
            (hex_digit_value(text[2 * i]).unwrap() * 16 + hex_digit_value(
                text[2 * i + 1],
            ).unwrap()) as u8,
    )
}

/// `index` is the position of the first byte of `text` that is no digit.
pub open spec fn is_first_bad_digit(text: Seq<u8>, index: int) -> bool {
    &&& 0 <= index < text.len()
    &&& hex_digit_value(text[index]) is None
    &&& forall|j: int| 0 <= j < index ==> (#[trigger] hex_digit_value(text[j])) is Some
}

/// What decoding reports for `text`, which is not hexadecimal: an odd
/// length first, else the first byte that is no digit.
pub open spec fn hex_failure(text: Seq<u8>, e: HexError) -> bool {
    if text.len() % 2 != 0 {
        e == HexError::OddLength
    } else {
        &&& e matches HexError::InvalidHexCharacter { c, index }
        &&& is_first_bad_digit(text, index as int)
        &&& c == text[index as int] as char
    }
}

/// The lower-case digit for a value below sixteen.
pub open spec fn hex_digit_char(nibble: u8) -> char {
    if nibble < 10 {
        (0x30 + nibble) as u8 as char
    } else {
        (0x61 + nibble - 10) as u8 as char
    }
}

/// The lower-case hexadecimal text of `bytes`: two digits to a byte, the high
/// digit first.
pub open spec fn hex_encoded(bytes: Seq<u8>) -> Seq<char> {
    Seq::new(
        2 * bytes.len(),
        |i: int|
            if i % 2 == 0 {
                hex_digit_char(bytes[i / 2] / 16)
            } else {
                hex_digit_char(bytes[i / 2] % 16)
            },
    )
}

/// `c` is a decimal digit or one of the letters `a` to `f`.
pub open spec fn is_lower_hex_char(c: char) -> bool {
    ||| 0x30 <= c as u32 <= 0x39
    ||| 0x61 <= c as u32 <= 0x66
}

/// Encoded text has two characters for every byte, each of them a
/// lower-case hexadecimal digit.
pub proof fn lemma_hex_encoded_is_canonical(bytes: Seq<u8>)
    ensures
        hex_encoded(bytes).len() == 2 * bytes.len(),
        forall|i: int| 0 <= i < 2 * bytes.len() ==> is_lower_hex_char(#[trigger] hex_encoded(bytes)[i]),
{
    assert forall|i: int| 0 <= i < 2 * bytes.len() implies is_lower_hex_char(
        #[trigger] hex_encoded(bytes)[i],
    ) by {
        let byte = bytes[i / 2];
        let nibble: u8 = if i % 2 == 0 {
            byte / 16
        } else {
            byte % 16
        };
        assert(nibble < 16);
        assert(hex_encoded(bytes)[i] == hex_digit_char(nibble));
    }
}

/// Calls `hex::decode`.
///
/// Trusted: the call succeeds exactly on an even number of hexadecimal
/// digits and then returns the bytes they stand for; otherwise it reports an
/// odd length, or else the first offending byte with its position.
#[verifier::external_body]
pub(crate) fn decode_hex(text: &[u8]) -> (r: Result<Vec<u8>, HexError>)
    ensures
        r is Ok <==> is_hex_text(text@),
        r matches Ok(bytes) ==> bytes@ == hex_decoded(text@),
        r matches Err(e) ==> hex_failure(text@, e),
{
    match ::hex::decode(text) {
        Ok(bytes) => Ok(bytes),
        Err(::hex::FromHexError::InvalidHexCharacter { c, index }) => Err(
            HexError::InvalidHexCharacter { c, index },
        ),
        Err(::hex::FromHexError::OddLength) => Err(HexError::OddLength),
        Err(::hex::FromHexError::InvalidStringLength) => Err(HexError::InvalidStringLength),
    }
}

/// Calls `hex::encode`.
///
/// Trusted: the result is the lower-case hexadecimal text of `bytes`.
#[verifier::external_body]
pub(crate) fn encode_hex(bytes: &[u8]) -> (r: String)
    ensures
        r@ == hex_encoded(bytes@),
{
    ::hex::encode(bytes)
}

} // verus!
