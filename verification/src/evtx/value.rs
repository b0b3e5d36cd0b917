//! The values of substitutions, as text.

use crate::clock::{filetime_text, filetime_to_rfc3339};
use crate::evtx::bytes::{
    i32_at, i64_at, signed16, signed32, signed64, to_i16, u16_at, u32_at, u64_at, word16, word32,
    word64,
};
use crate::guid;
use crate::guid::stored_guid_text;
use crate::numbers::{
    bool_text, bool_word, decimal, decimal_text, digit_of, hexadecimal, push_decimal,
    push_hexadecimal, push_padded, signed_decimal, signed_text, zero_padded,
};
use crate::text::{push_text, string_of};
use crate::utf16::{decode_utf16le, utf16le_text};
use vstd::prelude::*;

verus! {

// ---------------------------------------------------------------------------
// Written forms
// ---------------------------------------------------------------------------

/// Bytes up to the first NUL, each as the character of its number.
pub open spec fn ansi_text(d: Seq<u8>) -> Seq<char>
    decreases d.len(),
{
    if d.len() == 0 || d[0] == 0 {
        Seq::empty()
    } else {
        seq![d[0] as char] + ansi_text(d.skip(1))
    }
}

/// A byte taken as signed.
pub open spec fn signed8(v: u8) -> int {
    if v < 0x80 {
        v as int
    } else {
        v - 0x100
    }
}

/// A byte as two hexadecimal digits.
pub open spec fn byte_text(v: u8) -> Seq<char> {
    seq![digit_of(v as int / 16), digit_of(v as int % 16)]
}

/// Bytes as pairs of hexadecimal digits with hyphens between them.
pub open spec fn dump_text(d: Seq<u8>) -> Seq<char>
    decreases d.len(),
{
    if d.len() == 0 {
        Seq::empty()
    } else if d.len() == 1 {
        byte_text(d[0])
    } else {
        dump_text(d.drop_last()) + seq!['-'] + byte_text(d.last())
    }
}

/// A SYSTEMTIME: year, month, day, hour, minute, second and milliseconds, each
/// filled up with zeros. The day of the week, in the third place, is left out.
pub open spec fn systemtime_text(d: Seq<u8>) -> Seq<char> {
    zero_padded(decimal(word16(d, 0) as nat), 4) + seq!['-'] + zero_padded(
        decimal(word16(d, 2) as nat),
        2,
    ) + seq!['-'] + zero_padded(decimal(word16(d, 6) as nat), 2) + seq!['T'] + zero_padded(
        decimal(word16(d, 8) as nat),
        2,
    ) + seq![':'] + zero_padded(decimal(word16(d, 10) as nat), 2) + seq![':'] + zero_padded(
        decimal(word16(d, 12) as nat),
        2,
    ) + seq!['.'] + zero_padded(decimal(word16(d, 14) as nat), 3) + seq!['Z']
}

/// The identifier authority of a SID: six bytes, the most significant first.
pub open spec fn sid_authority(d: Seq<u8>) -> nat {
    (((((d[2] * 0x100 + d[3]) * 0x100 + d[4]) * 0x100 + d[5]) * 0x100 + d[6]) * 0x100 + d[7]) as nat
}

/// The first `n` sub-authorities of a SID, each after a hyphen.
pub open spec fn sid_parts(d: Seq<u8>, n: nat) -> Seq<char>
    decreases n,
{
    if n == 0 {
        Seq::empty()
    } else {
        sid_parts(d, (n - 1) as nat) + seq!['-'] + decimal(word32(d, 8 + 4 * (n - 1)) as nat)
    }
}

/// The number of sub-authorities of a SID: the count it gives, or as many as
/// there are.
pub open spec fn sid_count(d: Seq<u8>) -> nat {
    if d[1] as int <= (d.len() - 8) / 4 {
        d[1] as nat
    } else {
        ((d.len() - 8) / 4) as nat
    }
}

/// A SID in the form "S-1-...".
pub open spec fn sid_text(d: Seq<u8>) -> Seq<char> {
    seq!['S', '-'] + decimal(d[0] as nat) + seq!['-'] + decimal(sid_authority(d)) + sid_parts(
        d,
        sid_count(d),
    )
}

/// The text of a value: its bytes read by its type. It is empty where there are
/// too few bytes and for types without a text.
pub open spec fn value_text(d: Seq<u8>, vtype: u16) -> Seq<char> {
    if d.len() == 0 {
        Seq::empty()
    } else if vtype == 0x01 {
        utf16le_text(d)
    } else if vtype == 0x02 {
        ansi_text(d)
    } else if vtype == 0x03 {
        signed_decimal(signed8(d[0]))
    } else if vtype == 0x04 {
        decimal(d[0] as nat)
    } else if vtype == 0x05 && d.len() >= 2 {
        signed_decimal(signed16(word16(d, 0)) as int)
    } else if vtype == 0x06 && d.len() >= 2 {
        decimal(word16(d, 0) as nat)
    } else if vtype == 0x07 && d.len() >= 4 {
        signed_decimal(signed32(word32(d, 0)) as int)
    } else if vtype == 0x08 && d.len() >= 4 {
        decimal(word32(d, 0) as nat)
    } else if vtype == 0x09 && d.len() >= 8 {
        signed_decimal(signed64(word64(d, 0)) as int)
    } else if vtype == 0x0a && d.len() >= 8 {
        decimal(word64(d, 0) as nat)
    } else if vtype == 0x0d && d.len() >= 4 {
        bool_word(word32(d, 0) != 0)
    } else if vtype == 0x0e {
        dump_text(d)
    } else if vtype == 0x0f && d.len() >= 16 {
        seq!['{'] + guid::hyphenated_text(guid::reordered(d)) + seq!['}']
    } else if vtype == 0x11 && d.len() >= 8 {
        filetime_text(signed64(word64(d, 0)))
    } else if vtype == 0x12 && d.len() >= 16 {
        systemtime_text(d)
    } else if vtype == 0x13 && d.len() >= 8 {
        sid_text(d)
    } else if vtype == 0x14 && d.len() >= 4 {
        seq!['0', 'x'] + hexadecimal(word32(d, 0) as nat)
    } else if vtype == 0x15 && d.len() >= 8 {
        seq!['0', 'x'] + hexadecimal(word64(d, 0) as nat)
    } else {
        Seq::empty()
    }
}

// ---------------------------------------------------------------------------
// Reading
// ---------------------------------------------------------------------------

fn ansi_string(d: &[u8]) -> (s: String)
    ensures
        s@ == ansi_text(d@),
{
    let mut out = String::new();
    let mut i: usize = 0;
    assert(d@.skip(0) =~= d@);
    while i < d.len() && d[i] != 0
        invariant
            i <= d.len(),
            out@ + ansi_text(d@.skip(i as int)) == ansi_text(d@),
        decreases d.len() - i,
    {
        assert(d@.skip(i as int).skip(1) =~= d@.skip(i + 1));
        out.push(d[i] as char);
        i += 1;
        assert(out@ + ansi_text(d@.skip(i as int)) =~= ansi_text(d@));
    }
    assert(ansi_text(d@.skip(i as int)) =~= Seq::empty());
    assert(out@ =~= ansi_text(d@));
    out
}

fn push_byte(out: &mut Vec<char>, v: u8)
    ensures
        final(out)@ == old(out)@ + byte_text(v),
{
    let mut high: Vec<char> = Vec::new();
    let mut low: Vec<char> = Vec::new();
    push_hexadecimal(&mut high, (v / 16) as u64);
    push_hexadecimal(&mut low, (v % 16) as u64);
    out.push(high[0]);
    out.push(low[0]);
    assert(out@ =~= old(out)@ + byte_text(v));
}

fn dump_string(d: &[u8]) -> (s: String)
    ensures
        s@ == dump_text(d@),
{
    let mut out: Vec<char> = Vec::new();
    let mut i: usize = 0;
    assert(d@.take(0) =~= Seq::empty());
    while i < d.len()
        invariant
            i <= d.len(),
            out@ == dump_text(d@.take(i as int)),
        decreases d.len() - i,
    {
        assert(d@.take(i + 1).drop_last() =~= d@.take(i as int));
        assert(d@.take(i + 1).last() == d@[i as int]);
        if i > 0 {
            out.push('-');
        }
        push_byte(&mut out, d[i]);
        i += 1;
        assert(out@ =~= dump_text(d@.take(i as int)));
    }
    assert(d@.take(d@.len() as int) =~= d@);
    string_of(out.as_slice())
}

fn systemtime_string(d: &[u8]) -> (s: String)
    requires
        d@.len() >= 16,
    ensures
        s@ == systemtime_text(d@),
{
    let mut out: Vec<char> = Vec::new();
    push_padded(&mut out, u16_at(d, 0) as u64, 4);
    out.push('-');
    push_padded(&mut out, u16_at(d, 2) as u64, 2);
    out.push('-');
    push_padded(&mut out, u16_at(d, 6) as u64, 2);
    out.push('T');
    push_padded(&mut out, u16_at(d, 8) as u64, 2);
    out.push(':');
    push_padded(&mut out, u16_at(d, 10) as u64, 2);
    out.push(':');
    push_padded(&mut out, u16_at(d, 12) as u64, 2);
    out.push('.');
    push_padded(&mut out, u16_at(d, 14) as u64, 3);
    out.push('Z');
    assert(out@ =~= systemtime_text(d@));
    string_of(out.as_slice())
}

fn sid_string(d: &[u8]) -> (s: String)
    requires
        d@.len() >= 8,
    ensures
        s@ == sid_text(d@),
{
    let mut out: Vec<char> = Vec::new();
    out.push('S');
    out.push('-');
    push_decimal(&mut out, d[0] as u64);
    out.push('-');
    let high: u64 = (d[2] as u64 * 0x100 + d[3] as u64) * 0x100 + d[4] as u64;
    let auth: u64 = ((high * 0x100 + d[5] as u64) * 0x100 + d[6] as u64) * 0x100 + d[7] as u64;
    push_decimal(&mut out, auth);
    let ghost head = out@;
    assert(head =~= seq!['S', '-'] + decimal(d@[0] as nat) + seq!['-'] + decimal(
        sid_authority(d@),
    ));
    let room: usize = (d.len() - 8) / 4;
    let count: usize = if d[1] as usize <= room {
        d[1] as usize
    } else {
        room
    };
    let mut i: usize = 0;
    assert(out@ =~= head + sid_parts(d@, 0));
    while i < count
        invariant
            i <= count,
            count == sid_count(d@),
            d@.len() >= 8,
            count <= (d@.len() - 8) / 4,
            out@ == head + sid_parts(d@, i as nat),
        decreases count - i,
    {
        let len: usize = d.len();
        out.push('-');
        push_decimal(&mut out, u32_at(d, 8 + 4 * i) as u64);
        i += 1;
        assert(out@ =~= head + sid_parts(d@, i as nat));
    }
    assert(out@ =~= sid_text(d@));
    string_of(out.as_slice())
}

fn guid_string(d: &[u8]) -> (s: String)
    requires
        d@.len() >= 16,
    ensures
        s@ == seq!['{'] + guid::hyphenated_text(guid::reordered(d@)) + seq!['}'],
{
    let bytes: [u8; 16] = [
        d[0],
        d[1],
        d[2],
        d[3],
        d[4],
        d[5],
        d[6],
        d[7],
        d[8],
        d[9],
        d[10],
        d[11],
        d[12],
        d[13],
        d[14],
        d[15],
    ];
    assert(guid::reordered(bytes@) =~= guid::reordered(d@));
    let inner = stored_guid_text(bytes);
    let mut out: Vec<char> = Vec::new();
    out.push('{');
    push_text(&mut out, inner.as_str());
    out.push('}');
    assert(out@ =~= seq!['{'] + inner@ + seq!['}']);
    string_of(out.as_slice())
}

fn hex_string(n: u64) -> (s: String)
    ensures
        s@ == seq!['0', 'x'] + hexadecimal(n as nat),
{
    let mut out: Vec<char> = Vec::new();
    out.push('0');
    out.push('x');
    push_hexadecimal(&mut out, n);
    assert(out@ =~= seq!['0', 'x'] + hexadecimal(n as nat));
    string_of(out.as_slice())
}

/// The text of a value of the given type.
pub fn decode_value(data: &[u8], vtype: u16) -> (s: String)
    ensures
        s@ == value_text(data@, vtype),
{
    let n: usize = data.len();
    if n == 0 {
        return String::new();
    }
    match vtype {
        0x01 => decode_utf16le(data),
        0x02 => ansi_string(data),
        0x03 => {
            let v: u8 = data[0];
            if v < 0x80 {
                signed_text(v as i64)
            } else {
                signed_text(v as i64 - 0x100)
            }
        },
        0x04 => decimal_text(data[0] as u64),
        0x05 if n >= 2 => signed_text(to_i16(u16_at(data, 0)) as i64),
        0x06 if n >= 2 => decimal_text(u16_at(data, 0) as u64),
        0x07 if n >= 4 => signed_text(i32_at(data, 0) as i64),
        0x08 if n >= 4 => decimal_text(u32_at(data, 0) as u64),
        0x09 if n >= 8 => signed_text(i64_at(data, 0)),
        0x0a if n >= 8 => decimal_text(u64_at(data, 0)),
        0x0d if n >= 4 => bool_text(u32_at(data, 0) != 0),
        0x0e => dump_string(data),
        0x0f if n >= 16 => guid_string(data),
        0x11 if n >= 8 => filetime_to_rfc3339(i64_at(data, 0)),
        0x12 if n >= 16 => systemtime_string(data),
        0x13 if n >= 8 => sid_string(data),
        0x14 if n >= 4 => hex_string(u32_at(data, 0) as u64),
        0x15 if n >= 8 => hex_string(u64_at(data, 0)),
        _ => String::new(),
    }
}

/// A GUID value of a log reads back as the GUID that it stores.
pub proof fn law_guid_value_reads_back(d: Seq<u8>)
    requires
        d.len() == 16,
    ensures
        guid::guid_of(value_text(d, 0x0f)) == Some(guid::reordered(d)),
{
    let r = guid::reordered(d);
    guid::law_hyphenated_reads_back(r);
    guid::law_braces_are_optional(guid::hyphenated_text(r));
}

} // verus!
