//! UTF-16 text as event logs store it.

use crate::text::{string_of, trim_back, trim_back_of};
use vstd::prelude::*;

verus! {

/// `char::from_u32`: the character with a given number; none for the numbers of
/// the surrogates and those past the last code point.
pub assume_specification[ char::from_u32 ](i: u32) -> (c: Option<char>)
    ensures
        match c {
            Some(x) => (i < 0xd800 || 0xe000 <= i <= 0x10ffff) && x == i as char,
            None => 0xd800 <= i < 0xe000 || 0x10ffff < i,
        },
;

/// The replacement character.
pub open spec fn replacement() -> char {
    '\u{FFFD}'
}

/// Whether a code unit is the first half of a surrogate pair.
pub open spec fn is_high(w: u16) -> bool {
    0xd800 <= w < 0xdc00
}

/// Whether a code unit is the second half of a surrogate pair.
pub open spec fn is_low(w: u16) -> bool {
    0xdc00 <= w < 0xe000
}

/// The character that a surrogate pair stands for.
pub open spec fn pair_char(high: u16, low: u16) -> char {
    (0x10000 + (high - 0xd800) * 0x400 + (low - 0xdc00)) as char
}

/// The characters of UTF-16 code units; a surrogate without its other half
/// becomes the replacement character.
pub open spec fn decoded(w: Seq<u16>) -> Seq<char>
    decreases w.len(),
{
    if w.len() == 0 {
        Seq::empty()
    } else if !is_high(w[0]) && !is_low(w[0]) {
        seq![w[0] as char] + decoded(w.skip(1))
    } else if is_high(w[0]) && w.len() > 1 && is_low(w[1]) {
        seq![pair_char(w[0], w[1])] + decoded(w.skip(2))
    } else {
        seq![replacement()] + decoded(w.skip(1))
    }
}

/// The little-endian code units of a byte sequence; an odd last byte is dropped.
pub open spec fn units_le(b: Seq<u8>) -> Seq<u16> {
    Seq::new(b.len() / 2, |i: int| (b[2 * i] + b[2 * i + 1] * 256) as u16)
}

/// The text that little-endian UTF-16 bytes hold, without trailing NULs.
pub open spec fn utf16le_text(b: Seq<u8>) -> Seq<char> {
    trim_back_of(decoded(units_le(b)), '\0')
}

/// The little-endian code units of `bytes`.
fn units(bytes: &[u8]) -> (w: Vec<u16>)
    ensures
        w@ == units_le(bytes@),
{
    let mut w: Vec<u16> = Vec::new();
    let n: usize = bytes.len() / 2;
    let mut i: usize = 0;
    while i < n
        invariant
            i <= n,
            n == bytes.len() / 2,
            w@ == units_le(bytes@).take(i as int),
        decreases n - i,
    {
        let unit: u16 = bytes[2 * i] as u16 + bytes[2 * i + 1] as u16 * 256;
        w.push(unit);
        assert(unit == units_le(bytes@)[i as int]);
        assert(units_le(bytes@).take(i + 1) =~= units_le(bytes@).take(i as int).push(unit));
        i += 1;
    }
    assert(units_le(bytes@).take(n as int) =~= units_le(bytes@));
    w
}

/// The character with a given number, where there is one.
fn scalar(n: u32) -> (c: char)
    requires
        n < 0xd800 || 0xe000 <= n <= 0x10ffff,
    ensures
        c == n as char,
{
    match char::from_u32(n) {
        Some(c) => c,
        None => '\u{FFFD}',
    }
}

/// `String::from_utf16_lossy`, on characters.
fn decode_units(w: &Vec<u16>) -> (out: Vec<char>)
    ensures
        out@ == decoded(w@),
{
    let mut out: Vec<char> = Vec::new();
    let mut i: usize = 0;
    assert(w@.skip(0) =~= w@);
    while i < w.len()
        invariant
            i <= w.len(),
            out@ + decoded(w@.skip(i as int)) == decoded(w@),
        decreases w.len() - i,
    {
        let ghost rest = w@.skip(i as int);
        let u: u16 = w[i];
        assert(rest.skip(1) =~= w@.skip(i + 1));
        if u < 0xd800 || u >= 0xe000 {
            out.push(scalar(u as u32));
            i += 1;
        } else if u < 0xdc00 && i + 1 < w.len() && 0xdc00 <= w[i + 1] && w[i + 1] < 0xe000 {
            let low: u16 = w[i + 1];
            assert(rest.skip(2) =~= w@.skip(i + 2));
            out.push(scalar(0x10000 + (u as u32 - 0xd800) * 0x400 + (low as u32 - 0xdc00)));
            i += 2;
        } else {
            out.push('\u{FFFD}');
            i += 1;
        }
        assert(out@ + decoded(w@.skip(i as int)) =~= decoded(w@));
    }
    assert(decoded(w@.skip(i as int)) =~= Seq::empty());
    out
}

/// The text that little-endian UTF-16 bytes hold, without trailing NULs.
pub fn decode_utf16le(bytes: &[u8]) -> (s: String)
    ensures
        s@ == utf16le_text(bytes@),
{
    let w = units(bytes);
    let mut chars = decode_units(&w);
    trim_back(&mut chars, '\0');
    string_of(chars.as_slice())
}

} // verus!
