//! Hexadecimal text: digits, nibbles and the bytes they spell.

use vstd::prelude::*;
use crate::errors::ParseError;

verus! {

/// `c` is one of `0-9`, `a-f`, `A-F`.
pub open spec fn is_hex_digit(c: u8) -> bool {
    ||| 0x30 <= c <= 0x39
    ||| 0x61 <= c <= 0x66
    ||| 0x41 <= c <= 0x46
}

/// The number between 0 and 15 that the hexadecimal digit `c` stands for.
pub open spec fn hex_digit_value(c: u8) -> u8
    recommends
        is_hex_digit(c),
{
    if 0x30 <= c <= 0x39 {
        (c - 0x30) as u8
    } else if 0x61 <= c <= 0x66 {
        (c - 0x61 + 10) as u8
    } else {
        (c - 0x41 + 10) as u8
    }
}

/// Every byte of `text` is a hexadecimal digit.
pub open spec fn is_hex(text: Seq<u8>) -> bool {
    forall|i: int| 0 <= i < text.len() ==> is_hex_digit(#[trigger] text[i])
}

/// The index of the first byte of `text` that is no hexadecimal digit, or `text.len()`.
pub open spec fn first_non_hex(text: Seq<u8>) -> int
    decreases text.len(),
{
    if text.len() == 0 || !is_hex_digit(text[0]) {
        0
    } else {
        1 + first_non_hex(text.drop_first())
    }
}

/// The byte that the two digits at `2 * i` and `2 * i + 1` of `text` spell, high nibble first.
pub open spec fn hex_byte_at(text: Seq<u8>, i: int) -> u8 {
    (hex_digit_value(text[2 * i]) * 16 + hex_digit_value(text[2 * i + 1])) as u8
}

/// The bytes that an even number of hexadecimal digits spell.
pub open spec fn decode_hex(text: Seq<u8>) -> Seq<u8> {
    Seq::new((text.len() / 2) as nat, |i: int| hex_byte_at(text, i))
}

/// The lower-case hexadecimal digit of a number below 16.
pub open spec fn hex_digit_of(nibble: u8) -> u8
    recommends
        nibble < 16,
{
    if nibble < 10 {
        (0x30 + nibble) as u8
    } else {
        (0x61 + nibble - 10) as u8
    }
}

/// The lower-case hexadecimal text of `bytes`, two digits for each byte.
pub open spec fn encode_hex(bytes: Seq<u8>) -> Seq<u8> {
    Seq::new(
        2 * bytes.len(),
        |i: int|
            if i % 2 == 0 {
                hex_digit_of(bytes[i / 2] / 16)
            } else {
                hex_digit_of(bytes[i / 2] % 16)
            },
    )
}

/// `first_non_hex` is an index into the text or its length, everything before it is a
/// digit, and the byte at it, if there is one, is none.
pub proof fn lemma_first_non_hex(text: Seq<u8>)
    ensures
        0 <= first_non_hex(text) <= text.len(),
        forall|j: int| 0 <= j < first_non_hex(text) ==> is_hex_digit(#[trigger] text[j]),
        first_non_hex(text) < text.len() ==> !is_hex_digit(text[first_non_hex(text)]),
        first_non_hex(text) == text.len() <==> is_hex(text),
    decreases text.len(),
{
    if text.len() == 0 || !is_hex_digit(text[0]) {
    } else {
        let rest = text.drop_first();
        lemma_first_non_hex(rest);
        assert forall|j: int| 0 <= j < first_non_hex(text) implies is_hex_digit(
            #[trigger] text[j],
        ) by {
            if j > 0 {
                assert(text[j] == rest[j - 1]);
            }
        }
        assert(text[first_non_hex(text)] == rest[first_non_hex(rest)] || first_non_hex(text)
            == text.len());
        if is_hex(text) {
            assert forall|j: int| 0 <= j < rest.len() implies is_hex_digit(#[trigger] rest[j]) by {
                assert(rest[j] == text[j + 1]);
            }
        }
    }
}

/// The value of one hexadecimal digit, or `None` where `c` is no such digit.
pub fn digit_value(c: u8) -> (r: Option<u8>)
    ensures
        r is Some <==> is_hex_digit(c),
        r matches Some(v) ==> v == hex_digit_value(c) && v < 16,
{
    if 0x30 <= c && c <= 0x39 {
        Some(c - 0x30)
    } else if 0x61 <= c && c <= 0x66 {
        Some(c - 0x61 + 10)
    } else if 0x41 <= c && c <= 0x46 {
        Some(c - 0x41 + 10)
    } else {
        None
    }
}

/// The lower-case hexadecimal digit of a number below 16.
fn digit_of(nibble: u8) -> (c: u8)
    requires
        nibble < 16,
    ensures
        c == hex_digit_of(nibble),
        is_hex_digit(c),
        hex_digit_value(c) == nibble,
{
    if nibble < 10 {
        0x30 + nibble
    } else {
        0x61 + (nibble - 10)
    }
}

/// Finds the first byte of `text` that is no hexadecimal digit.
pub fn find_non_hex(text: &[u8]) -> (r: Option<usize>)
    ensures
        r is None <==> is_hex(text@),
        r matches Some(i) ==> i == first_non_hex(text@) && i < text@.len(),
{
    proof {
        lemma_first_non_hex(text@);
    }
    let mut i: usize = 0;
    while i < text.len()
        invariant
            0 <= i <= text@.len(),
            i <= first_non_hex(text@) <= text@.len(),
            forall|j: int| 0 <= j < first_non_hex(text@) ==> is_hex_digit(#[trigger] text@[j]),
            first_non_hex(text@) < text@.len() ==> !is_hex_digit(text@[first_non_hex(text@)]),
            first_non_hex(text@) == text@.len() <==> is_hex(text@),
        decreases text@.len() - i,
    {
        if digit_value(text[i]).is_none() {
            return Some(i);
        }
        i += 1;
    }
    None
}

/// Decodes `text` into the bytes it spells. Refuses an odd number of digits, and a text
/// that holds anything but hexadecimal digits.
pub fn decode(text: &[u8]) -> (r: Result<Vec<u8>, ParseError>)
    ensures
        match r {
            Ok(bytes) => text@.len() % 2 == 0 && is_hex(text@) && bytes@ == decode_hex(text@),
            Err(ParseError::InvalidLength { len }) => text@.len() % 2 == 1 && len == text@.len(),
            Err(ParseError::InvalidHex { position }) => text@.len() % 2 == 0 && !is_hex(text@)
                && position == first_non_hex(text@),
            Err(ParseError::NotAscii { .. }) => false,
        },
{
    if text.len() % 2 != 0 {
        return Err(ParseError::InvalidLength { len: text.len() });
    }
    match find_non_hex(text) {
        Some(position) => Err(ParseError::InvalidHex { position }),
        None => {
            let n: usize = text.len() / 2;
            let mut out: Vec<u8> = Vec::with_capacity(n);
            let mut i: usize = 0;
            while i < n
                invariant
                    2 * n == text@.len(),
                    text@.len() <= usize::MAX,
                    is_hex(text@),
                    0 <= i <= n,
                    out@.len() == i,
                    forall|j: int| 0 <= j < i ==> out@[j] == hex_byte_at(text@, j),
                decreases n - i,
            {
                let hi = digit_value(text[2 * i]);
                let lo = digit_value(text[2 * i + 1]);
                match (hi, lo) {
                    (Some(h), Some(l)) => {
                        out.push(h * 16 + l);
                    },
                    _ => {
                        assert(false);
                    },
                }
                i += 1;
            }
            assert(out@ =~= decode_hex(text@));
            Ok(out)
        },
    }
}

/// Writes `bytes` as lower-case hexadecimal text.
pub fn encode(bytes: &[u8]) -> (text: Vec<u8>)
    requires
        2 * bytes@.len() <= usize::MAX,
    ensures
        text@ == encode_hex(bytes@),
{
    let mut out: Vec<u8> = Vec::with_capacity(2 * bytes.len());
    let mut i: usize = 0;
    while i < bytes.len()
        invariant
            0 <= i <= bytes@.len(),
            out@.len() == 2 * i,
            forall|j: int| 0 <= j < 2 * i ==> out@[j] == #[trigger] encode_hex(bytes@)[j],
        decreases bytes@.len() - i,
    {
        let b = bytes[i];
        out.push(digit_of(b / 16));
        out.push(digit_of(b % 16));
        i += 1;
    }
    assert(out@ =~= encode_hex(bytes@));
    out
}

/// Decoding what `encode` wrote gives the bytes back.
pub proof fn lemma_decode_encode(bytes: Seq<u8>)
    ensures
        is_hex(encode_hex(bytes)),
        decode_hex(encode_hex(bytes)) == bytes,
{
    let text = encode_hex(bytes);
    assert forall|i: int| 0 <= i < text.len() implies is_hex_digit(#[trigger] text[i]) by {
        let b = bytes[i / 2];
        assert(b / 16 < 16 && b % 16 < 16);
    }
    assert forall|i: int| 0 <= i < bytes.len() implies hex_byte_at(text, i) == bytes[i] by {
        let b = bytes[i];
        assert((2 * i) / 2 == i && (2 * i + 1) / 2 == i);
        assert((2 * i) % 2 == 0 && (2 * i + 1) % 2 == 1);
        assert(text[2 * i] == hex_digit_of(b / 16));
        assert(text[2 * i + 1] == hex_digit_of(b % 16));
        assert(hex_digit_value(hex_digit_of(b / 16)) == b / 16);
        assert(hex_digit_value(hex_digit_of(b % 16)) == b % 16);
        assert((b / 16) * 16 + b % 16 == b);
    }
    assert(decode_hex(text) =~= bytes);
}

} // verus!
