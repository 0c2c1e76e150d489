//! Lower-case hexadecimal encoding of bytes, and its decoding.
//!
//! Encoding writes two lower-case digits per byte, high nibble first.
//! Decoding works on the UTF-8 bytes of the text: it accepts upper- and
//! lower-case digits, refuses text of odd byte length and reports the first
//! byte that is not a hexadecimal digit.
use vstd::prelude::*;
use vstd::string::*;
use vstd::utf8::*;
use crate::text::push_char;

verus! {

/// The digit that stands for a nibble.
pub open spec fn nibble_char(n: int) -> char {
    if n < 10 {
        (n + 48) as char
    } else {
        (n - 10 + 97) as char
    }
}

/// The two lower-case digits of every byte, in order.
pub open spec fn hex_encoding(bytes: Seq<u8>) -> Seq<char>
    decreases bytes.len(),
{
    if bytes.len() == 0 {
        Seq::empty()
    } else {
        seq![nibble_char((bytes[0] / 16) as int), nibble_char((bytes[0] % 16) as int)] + hex_encoding(
            bytes.drop_first(),
        )
    }
}

/// Whether a byte is a hexadecimal digit of either case.
pub open spec fn is_hex_byte(b: u8) -> bool {
    (48 <= b <= 57) || (65 <= b <= 70) || (97 <= b <= 102)
}

/// The value of a hexadecimal digit.
pub open spec fn hex_value(b: u8) -> int {
    if 48 <= b <= 57 {
        b - 48
    } else if 65 <= b <= 70 {
        b - 65 + 10
    } else {
        b - 97 + 10
    }
}

/// The bytes that a text of hexadecimal digits stands for, two digits per byte.
pub open spec fn hex_decoding(text: Seq<u8>) -> Seq<u8> {
    Seq::new(text.len() / 2, |i: int| (hex_value(text[2 * i]) * 16 + hex_value(text[2 * i + 1])) as u8)
}

/// Why a text is not hexadecimal.
#[derive(Debug, Clone, Copy, PartialEq, Eq)]
pub enum HexError {
    /// The text has an odd number of bytes.
    OddLength,
    /// The byte at `index` (shown as `c`) is not a hexadecimal digit.
    InvalidHexCharacter { c: char, index: usize },
}

/// What decoding gives for a text, given as its bytes.
pub open spec fn hex_decode_result(text: Seq<u8>) -> Result<Seq<u8>, HexError> {
    if text.len() % 2 != 0 {
        Err(HexError::OddLength)
    } else if exists|i: int| 0 <= i < text.len() && !is_hex_byte(#[trigger] text[i]) {
        let i = choose|i: int|
            0 <= i < text.len() && !is_hex_byte(#[trigger] text[i]) && forall|j: int|
                0 <= j < i ==> is_hex_byte(#[trigger] text[j]);
        Err(HexError::InvalidHexCharacter { c: text[i] as char, index: i as usize })
    } else {
        Ok(hex_decoding(text))
    }
}

/// A decoding result with the bytes taken by their view.
pub open spec fn bytes_result(r: Result<Vec<u8>, HexError>) -> Result<Seq<u8>, HexError> {
    match r {
        Ok(v) => Ok(v@),
        Err(e) => Err(e),
    }
}

fn nibble_to_char(n: u8) -> (c: char)
    requires
        n < 16,
    ensures
        c == nibble_char(n as int),
{
    if n < 10 {
        (n + 48) as char
    } else {
        (n - 10 + 97) as char
    }
}

/// Encodes bytes as lower-case hexadecimal text.
pub fn encode(bytes: &[u8]) -> (r: String)
    ensures
        r@ == hex_encoding(bytes@),
{
    let mut r = String::new();
    let mut i: usize = 0;
    assert(bytes@.skip(0) == bytes@);
    assert(r@ + hex_encoding(bytes@) == hex_encoding(bytes@));
    while i < bytes.len()
        invariant
            i <= bytes.len(),
            r@ + hex_encoding(bytes@.skip(i as int)) == hex_encoding(bytes@),
        decreases bytes.len() - i,
    {
        let b = bytes[i];
        let ghost prev = r@;
        assert(bytes@.skip(i as int).drop_first() == bytes@.skip(i + 1));
        assert(bytes@.skip(i as int)[0] == b);
        push_char(&mut r, nibble_to_char(b / 16));
        push_char(&mut r, nibble_to_char(b % 16));
        proof {
            let rest = hex_encoding(bytes@.skip(i + 1));
            let pair = seq![nibble_char((b / 16) as int), nibble_char((b % 16) as int)];
            assert(hex_encoding(bytes@.skip(i as int)) == pair + rest);
            assert(r@ == prev + pair);
            assert(prev + (pair + rest) == (prev + pair) + rest);
        }
        i += 1;
    }
    assert(bytes@.skip(bytes.len() as int) == Seq::<u8>::empty());
    assert(r@ + Seq::<char>::empty() == r@);
    r
}

fn digit_value(b: u8) -> (v: u8)
    requires
        is_hex_byte(b),
    ensures
        v == hex_value(b),
        v < 16,
{
    if b <= 57 {
        b - 48
    } else if b <= 70 {
        b - 65 + 10
    } else {
        b - 97 + 10
    }
}

fn is_hex_digit(b: u8) -> (r: bool)
    ensures
        r == is_hex_byte(b),
{
    (48 <= b && b <= 57) || (65 <= b && b <= 70) || (97 <= b && b <= 102)
}

/// Decodes hexadecimal text (either case) into bytes.
pub fn decode(text: &str) -> (r: Result<Vec<u8>, HexError>)
    ensures
        bytes_result(r) == hex_decode_result(text.spec_bytes()),
{
    let bytes = text.as_bytes();
    let ghost t = text.spec_bytes();
    if bytes.len() % 2 != 0 {
        return Err(HexError::OddLength);
    }
    let mut i: usize = 0;
    while i < bytes.len()
        invariant
            bytes@ == t,
            t == text.spec_bytes(),
            t.len() % 2 == 0,
            i <= bytes.len(),
            forall|j: int| 0 <= j < i ==> is_hex_byte(#[trigger] t[j]),
        decreases bytes.len() - i,
    {
        if !is_hex_digit(bytes[i]) {
            proof {
                let w = choose|k: int|
                    0 <= k < t.len() && !is_hex_byte(#[trigger] t[k]) && forall|j: int|
                        0 <= j < k ==> is_hex_byte(#[trigger] t[j]);
                assert(0 <= i < t.len() && !is_hex_byte(t[i as int]) && forall|j: int|
                    0 <= j < i ==> is_hex_byte(#[trigger] t[j]));
                if w < i {
                    assert(is_hex_byte(t[w]));
                } else if w > i {
                    assert(is_hex_byte(t[i as int]));
                }
                assert(w == i);
            }
            let bad = bytes[i];
            let c = bad as char;
            return Err(HexError::InvalidHexCharacter { c: c, index: i });
        }
        i += 1;
    }
    let mut out: Vec<u8> = Vec::new();
    let mut k: usize = 0;
    let half = bytes.len() / 2;
    while k < half
        invariant
            bytes@ == t,
            t == text.spec_bytes(),
            bytes.len() == t.len(),
            t.len() % 2 == 0,
            half == t.len() / 2,
            k <= half,
            forall|j: int| 0 <= j < t.len() ==> is_hex_byte(#[trigger] t[j]),
            out@ == hex_decoding(t).take(k as int),
        decreases half - k,
    {
        let hi = digit_value(bytes[2 * k]);
        let lo = digit_value(bytes[2 * k + 1]);
        out.push(hi * 16 + lo);
        assert(hex_decoding(t).take(k + 1) == hex_decoding(t).take(k as int).push(hex_decoding(t)[k as int]));
        k += 1;
    }
    assert(hex_decoding(t).take(half as int) == hex_decoding(t));
    assert(!exists|j: int| 0 <= j < t.len() && !is_hex_byte(#[trigger] t[j]));
    Ok(out)
}

proof fn lemma_nibble_char(n: int)
    requires
        0 <= n < 16,
    ensures
        '\0' <= nibble_char(n) <= '\u{7f}',
        is_hex_byte(nibble_char(n) as u8),
        hex_value(nibble_char(n) as u8) == n,
{
}

/// Two digits stand for each byte, high nibble first.
pub proof fn lemma_hex_encoding_shape(bytes: Seq<u8>)
    ensures
        hex_encoding(bytes).len() == 2 * bytes.len(),
        forall|i: int|
            0 <= i < bytes.len() ==> hex_encoding(bytes)[2 * i] == nibble_char((bytes[i] / 16) as int)
                && hex_encoding(bytes)[2 * i + 1] == nibble_char((bytes[i] % 16) as int),
    decreases bytes.len(),
{
    if bytes.len() > 0 {
        let rest = bytes.drop_first();
        lemma_hex_encoding_shape(rest);
        let pair = seq![nibble_char((bytes[0] / 16) as int), nibble_char((bytes[0] % 16) as int)];
        assert(hex_encoding(bytes) == pair + hex_encoding(rest));
        assert forall|i: int| 0 <= i < bytes.len() implies hex_encoding(bytes)[2 * i] == nibble_char(
            (bytes[i] / 16) as int,
        ) && hex_encoding(bytes)[2 * i + 1] == nibble_char((bytes[i] % 16) as int) by {
            if i > 0 {
                assert(rest[i - 1] == bytes[i]);
                assert(hex_encoding(bytes)[2 * i] == hex_encoding(rest)[2 * (i - 1)]);
                assert(hex_encoding(bytes)[2 * i + 1] == hex_encoding(rest)[2 * (i - 1) + 1]);
            }
        }
    }
}

/// Decoding the encoding of any bytes gives the bytes back.
pub proof fn lemma_hex_roundtrip(bytes: Seq<u8>)
    ensures
        hex_decode_result(encode_utf8(hex_encoding(bytes))) == Ok::<Seq<u8>, HexError>(bytes),
{
    let chars = hex_encoding(bytes);
    lemma_hex_encoding_shape(bytes);
    assert forall|k: int| 0 <= k < chars.len() implies '\0' <= #[trigger] chars[k] <= '\u{7f}'
        && is_hex_byte(chars[k] as u8) by {
        let i = k / 2;
        assert(0 <= i < bytes.len());
        if k % 2 == 0 {
            assert(k == 2 * i);
            lemma_nibble_char((bytes[i] / 16) as int);
        } else {
            assert(k == 2 * i + 1);
            lemma_nibble_char((bytes[i] % 16) as int);
        }
    }
    assert(is_ascii_chars(chars));
    is_ascii_chars_encode_utf8(chars);
    let t = encode_utf8(chars);
    assert(t.len() % 2 == 0);
    assert forall|j: int| 0 <= j < t.len() implies is_hex_byte(#[trigger] t[j]) by {
        assert(chars[j] as u8 == t[j]);
    }
    assert forall|i: int| 0 <= i < bytes.len() implies #[trigger] hex_decoding(t)[i] == bytes[i] by {
        assert(chars[2 * i] as u8 == t[2 * i]);
        assert(chars[2 * i + 1] as u8 == t[2 * i + 1]);
        lemma_nibble_char((bytes[i] / 16) as int);
        lemma_nibble_char((bytes[i] % 16) as int);
    }
    assert(hex_decoding(t) == bytes);
}

} // verus!
