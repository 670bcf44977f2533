//! Conversion between bytes and their two-digit hexadecimal text.
//!
//! Text is held as ASCII bytes. A byte becomes two upper-case digits; the
//! storage form has nothing between bytes, the display form has a space after
//! every byte. Decoding accepts digits of either case and nothing else.

use vstd::prelude::*;
use vstd::string::*;

verus! {

/// Why a piece of hex text is not the encoding of any byte sequence.
#[derive(Clone, Copy, Debug, PartialEq, Eq, Structural)]
pub enum HexError {
    /// Some character is not a hexadecimal digit.
    InvalidHexDigit,
    /// Every character is a digit, but their number is odd.
    OddLength,
}

/// The byte of a space.
pub const SPACE: u8 = 0x20;

/// The upper-case digit for a value below sixteen.
pub open spec fn upper_digit(n: int) -> u8 {
    if n < 10 {
        (0x30 + n) as u8
    } else {
        (0x41 + n - 10) as u8
    }
}

/// The value of a hexadecimal digit of either case, if `c` is one.
pub open spec fn digit_value(c: u8) -> Option<int> {
    if 0x30 <= c <= 0x39 {
        Some(c - 0x30)
    } else if 0x41 <= c <= 0x46 {
        Some(c - 0x41 + 10)
    } else if 0x61 <= c <= 0x66 {
        Some(c - 0x61 + 10)
    } else {
        None
    }
}

/// The storage form: two digits per byte, nothing between.
pub open spec fn encode_spec(bytes: Seq<u8>) -> Seq<u8> {
    Seq::new(
        2 * bytes.len(),
        |i: int|
            if i % 2 == 0 {
                upper_digit(bytes[i / 2] as int / 16)
            } else {
                upper_digit(bytes[i / 2] as int % 16)
            },
    )
}

/// The display form: two digits and a space per byte.
pub open spec fn encode_display_spec(bytes: Seq<u8>) -> Seq<u8> {
    Seq::new(
        3 * bytes.len(),
        |i: int|
            if i % 3 == 0 {
                upper_digit(bytes[i / 3] as int / 16)
            } else if i % 3 == 1 {
                upper_digit(bytes[i / 3] as int % 16)
            } else {
                SPACE
            },
    )
}

/// Whether every character of `hex` is a hexadecimal digit.
pub open spec fn all_digits(hex: Seq<u8>) -> bool {
    forall|i: int| 0 <= i < hex.len() ==> (#[trigger] digit_value(hex[i])) is Some
}

/// The byte that the `k`-th pair of digits of `hex` stands for.
pub open spec fn pair_value(hex: Seq<u8>, k: int) -> u8 {
    (digit_value(hex[2 * k]).unwrap() * 16 + digit_value(hex[2 * k + 1]).unwrap()) as u8
}

/// What hex text decodes to: an invalid character is reported before an odd
/// length, and the empty text is the empty byte sequence.
pub open spec fn decode_spec(hex: Seq<u8>) -> Result<Seq<u8>, HexError> {
    if !all_digits(hex) {
        Err(HexError::InvalidHexDigit)
    } else if hex.len() % 2 == 1 {
        Err(HexError::OddLength)
    } else {
        Ok(Seq::new(hex.len() / 2, |k: int| pair_value(hex, k)))
    }
}

/// `text` without its spaces.
pub open spec fn strip_spaces_spec(text: Seq<u8>) -> Seq<u8> {
    text.filter(|c: u8| c != SPACE)
}

/// What a line of the buffer decodes to: its spaces are dropped first.
pub open spec fn decode_line_spec(line: Seq<u8>) -> Result<Seq<u8>, HexError> {
    decode_spec(strip_spaces_spec(line))
}

/// The upper-case digit for a value below sixteen.
pub fn upper_digit_of(n: u8) -> (d: u8)
    requires
        n < 16,
    ensures
        d == upper_digit(n as int),
{
    if n < 10 {
        0x30 + n
    } else {
        0x41 + (n - 10)
    }
}

/// The value of the digit `c`, or `None` where `c` is no hexadecimal digit.
pub fn digit_value_of(c: u8) -> (v: Option<u8>)
    ensures
        match v {
            Some(n) => digit_value(c) == Some(n as int) && n < 16,
            None => digit_value(c) is None,
        },
{
    if 0x30 <= c && c <= 0x39 {
        Some(c - 0x30)
    } else if 0x41 <= c && c <= 0x46 {
        Some(c - 0x41 + 10)
    } else if 0x61 <= c && c <= 0x66 {
        Some(c - 0x61 + 10)
    } else {
        None
    }
}

/// Encodes bytes in the storage form.
pub fn encode(bytes: &[u8]) -> (hex: Vec<u8>)
    ensures
        hex@ == encode_spec(bytes@),
{
    let mut hex: Vec<u8> = Vec::new();
    let mut i: usize = 0;
    while i < bytes.len()
        invariant
            i <= bytes.len(),
            hex@ == encode_spec(bytes@.take(i as int)),
        decreases bytes.len() - i,
    {
        let b: u8 = bytes[i];
        hex.push(upper_digit_of(b / 16));
        hex.push(upper_digit_of(b % 16));
        i += 1;
        proof {
            assert(hex@ =~= encode_spec(bytes@.take(i as int)));
        }
    }
    proof {
        assert(bytes@.take(i as int) =~= bytes@);
    }
    hex
}

/// Encodes bytes in the display form.
pub fn encode_display(bytes: &[u8]) -> (hex: Vec<u8>)
    ensures
        hex@ == encode_display_spec(bytes@),
{
    let mut hex: Vec<u8> = Vec::new();
    let mut i: usize = 0;
    while i < bytes.len()
        invariant
            i <= bytes.len(),
            hex@ == encode_display_spec(bytes@.take(i as int)),
        decreases bytes.len() - i,
    {
        let b: u8 = bytes[i];
        hex.push(upper_digit_of(b / 16));
        hex.push(upper_digit_of(b % 16));
        hex.push(SPACE);
        i += 1;
        proof {
            assert(hex@ =~= encode_display_spec(bytes@.take(i as int)));
        }
    }
    proof {
        assert(bytes@.take(i as int) =~= bytes@);
    }
    hex
}

/// Decodes hex text, two digits to a byte.
pub fn decode(hex: &[u8]) -> (r: Result<Vec<u8>, HexError>)
    ensures
        match r {
            Ok(bytes) => decode_spec(hex@) == Ok::<Seq<u8>, HexError>(bytes@),
            Err(e) => decode_spec(hex@) == Err::<Seq<u8>, HexError>(e),
        },
{
    let mut bytes: Vec<u8> = Vec::new();
    let mut high: u8 = 0;
    let mut pending: bool = false;
    let mut i: usize = 0;
    while i < hex.len()
        invariant
            i <= hex.len(),
            all_digits(hex@.take(i as int)),
            pending == (i % 2 == 1),
            bytes@.len() == i / 2,
            forall|k: int| 0 <= k < bytes@.len() ==> bytes@[k] == pair_value(hex@, k),
            pending ==> digit_value(hex@[i - 1]) == Some(high as int),
        decreases hex.len() - i,
    {
        match digit_value_of(hex[i]) {
            None => {
                proof {
                    assert(digit_value(hex@[i as int]) is None);
                }
                return Err(HexError::InvalidHexDigit);
            },
            Some(n) => {
                if pending {
                    bytes.push(high * 16 + n);
                    pending = false;
                } else {
                    high = n;
                    pending = true;
                }
            },
        }
        i += 1;
        proof {
            assert forall|j: int| 0 <= j < i implies (#[trigger] digit_value(
                hex@.take(i as int)[j],
            )) is Some by {
                if j < i - 1 {
                    assert(hex@.take(i - 1)[j] == hex@[j]);
                }
            }
        }
    }
    proof {
        assert(hex@.take(i as int) =~= hex@);
    }
    if pending {
        Err(HexError::OddLength)
    } else {
        proof {
            assert(bytes@ =~= Seq::new(hex@.len() / 2, |k: int| pair_value(hex@, k)));
        }
        Ok(bytes)
    }
}

/// Copies `text` without its spaces.
pub fn strip_spaces(text: &[u8]) -> (out: Vec<u8>)
    ensures
        out@ == strip_spaces_spec(text@),
{
    let mut out: Vec<u8> = Vec::new();
    let mut i: usize = 0;
    while i < text.len()
        invariant
            i <= text.len(),
            out@ == strip_spaces_spec(text@.take(i as int)),
        decreases text.len() - i,
    {
        proof {
            lemma_strip_push(text@.take(i as int), text@[i as int]);
            assert(text@.take(i as int).push(text@[i as int]) =~= text@.take(i + 1));
        }
        if text[i] != SPACE {
            out.push(text[i]);
        }
        i += 1;
    }
    proof {
        assert(text@.take(i as int) =~= text@);
    }
    out
}

/// Decodes one line of the buffer: drops its spaces, then decodes the rest.
pub fn decode_line(line: &[u8]) -> (r: Result<Vec<u8>, HexError>)
    ensures
        match r {
            Ok(bytes) => decode_line_spec(line@) == Ok::<Seq<u8>, HexError>(bytes@),
            Err(e) => decode_line_spec(line@) == Err::<Seq<u8>, HexError>(e),
        },
{
    let pure_hex = strip_spaces(line);
    decode(pure_hex.as_slice())
}

/// Decodes the UTF-8 bytes of a string as hex text; `None` where they are not
/// the encoding of a byte sequence.
pub fn hex_to_bytes(hex_string: &str) -> (r: Option<Vec<u8>>)
    ensures
        match r {
            Some(bytes) => decode_spec(hex_string.spec_bytes()) == Ok::<Seq<u8>, HexError>(bytes@),
            None => decode_spec(hex_string.spec_bytes()) is Err,
        },
{
    let text = hex_string.as_bytes_vec();
    match decode(text.as_slice()) {
        Ok(bytes) => Some(bytes),
        Err(_) => None,
    }
}

/// Stripping after appending one character: a space vanishes, another stays.
pub proof fn lemma_strip_push(text: Seq<u8>, c: u8)
    ensures
        strip_spaces_spec(text.push(c)) == if c == SPACE {
            strip_spaces_spec(text)
        } else {
            strip_spaces_spec(text).push(c)
        },
{
    reveal(Seq::filter);
    assert(text.push(c).drop_last() =~= text);
}

/// The storage form has no spaces: stripping leaves it as it is.
pub proof fn lemma_display_stripped(bytes: Seq<u8>)
    ensures
        strip_spaces_spec(encode_display_spec(bytes)) == encode_spec(bytes),
    decreases bytes.len(),
{
    if bytes.len() == 0 {
        reveal(Seq::filter);
        assert(encode_display_spec(bytes) =~= Seq::<u8>::empty());
        assert(encode_spec(bytes) =~= Seq::<u8>::empty());
    } else {
        let head = bytes.drop_last();
        let b = bytes.last();
        let hi = upper_digit(b as int / 16);
        let lo = upper_digit(b as int % 16);
        lemma_display_stripped(head);
        let d = encode_display_spec(head);
        assert(encode_display_spec(bytes) =~= d.push(hi).push(lo).push(SPACE));
        lemma_strip_push(d, hi);
        lemma_strip_push(d.push(hi), lo);
        lemma_strip_push(d.push(hi).push(lo), SPACE);
        assert(encode_spec(bytes) =~= encode_spec(head).push(hi).push(lo));
    }
}

/// Decoding the storage form of a byte sequence gives the sequence back.
pub proof fn lemma_decode_encode(bytes: Seq<u8>)
    ensures
        decode_spec(encode_spec(bytes)) == Ok::<Seq<u8>, HexError>(bytes),
{
    let hex = encode_spec(bytes);
    assert forall|i: int| 0 <= i < hex.len() implies (#[trigger] digit_value(hex[i])) is Some by {
        let b = bytes[i / 2];
        assert(0 <= b as int / 16 < 16);
        assert(0 <= b as int % 16 < 16);
    }
    assert forall|k: int| 0 <= k < bytes.len() implies pair_value(hex, k) == bytes[k] by {
        let b = bytes[k];
        assert((2 * k) / 2 == k && (2 * k + 1) / 2 == k);
        assert((2 * k) % 2 == 0 && (2 * k + 1) % 2 == 1);
        assert(digit_value(upper_digit(b as int / 16)) == Some(b as int / 16));
        assert(digit_value(upper_digit(b as int % 16)) == Some(b as int % 16));
    }
    assert(Seq::new(hex.len() / 2, |k: int| pair_value(hex, k)) =~= bytes);
}

/// Decoding the display form of a byte sequence as a line gives the sequence
/// back.
pub proof fn lemma_decode_line_display(bytes: Seq<u8>)
    ensures
        decode_line_spec(encode_display_spec(bytes)) == Ok::<Seq<u8>, HexError>(bytes),
{
    lemma_display_stripped(bytes);
    lemma_decode_encode(bytes);
}

} // verus!
