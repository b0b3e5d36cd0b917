//! Laws of stored values: the text of a value is that of what its bytes store.

use crate::clock::{filetime_text, EPOCH_DIFF};
use crate::evtx::bytes::{word16, word32, word64};
use crate::evtx::value::{ansi_text, byte_text, sid_count, sid_parts, value_text};
use crate::laws::evtx::{has_at, law_stored_numbers_read_back, stored16, stored32, stored64};
use crate::laws::texts::hex_number;
use crate::numbers::{decimal, hexadecimal, signed_decimal, zero_padded};
use crate::text::trim_back_of;
use crate::utf16::{decoded, is_high, is_low, pair_char, units_le, utf16le_text};
use vstd::prelude::*;

verus! {

// ---------------------------------------------------------------------------
// UTF-16
// ---------------------------------------------------------------------------

/// The UTF-16 code units of a character: one, or a surrogate pair.
pub open spec fn char_units(c: char) -> Seq<u16> {
    let n = c as int;
    if n < 0x1_0000 {
        seq![n as u16]
    } else {
        seq![
            (0xd800 + (n - 0x1_0000) / 0x400) as u16,
            (0xdc00 + (n - 0x1_0000) % 0x400) as u16,
        ]
    }
}

/// The UTF-16 code units of a text.
pub open spec fn text_units(s: Seq<char>) -> Seq<u16>
    decreases s.len(),
{
    if s.len() == 0 {
        Seq::empty()
    } else {
        char_units(s[0]) + text_units(s.skip(1))
    }
}

/// Code units as they are stored, the lower byte of each first.
pub open spec fn stored_units(w: Seq<u16>) -> Seq<u8> {
    Seq::new(
        2 * w.len(),
        |i: int|
            if i % 2 == 0 {
                (w[i / 2] % 256) as u8
            } else {
                (w[i / 2] / 256) as u8
            },
    )
}

/// A text as it is stored: its UTF-16 code units.
pub open spec fn stored_text(s: Seq<char>) -> Seq<u8> {
    stored_units(text_units(s))
}

/// The units of a character stand for it.
proof fn lemma_char_units(c: char)
    ensures
        ({
            let n = c as int;
            let w = char_units(c);
            &&& n < 0x1_0000 ==> w.len() == 1 && !is_high(w[0]) && !is_low(w[0]) && w[0] as char
                == c
            &&& n >= 0x1_0000 ==> w.len() == 2 && is_high(w[0]) && is_low(w[1]) && pair_char(
                w[0],
                w[1],
            ) == c
        }),
{
    let n = c as int;
    assert(0 <= n < 0xd800 || 0xe000 <= n <= 0x10ffff);
    if n >= 0x1_0000 {
        let high = 0xd800 + (n - 0x1_0000) / 0x400;
        let low = 0xdc00 + (n - 0x1_0000) % 0x400;
        assert(0xd800 <= high < 0xdc00);
        assert(0x10000 + (high - 0xd800) * 0x400 + (low - 0xdc00) == n);
    }
}

proof fn lemma_decoded(s: Seq<char>)
    ensures
        decoded(text_units(s)) == s,
    decreases s.len(),
{
    if s.len() == 0 {
        assert(decoded(text_units(s)) =~= s);
    } else {
        let c = s[0];
        let n = c as int;
        let rest = s.skip(1);
        lemma_decoded(rest);
        let w = text_units(s);
        let first = char_units(c);
        lemma_char_units(c);
        assert(w[0] == first[0]);
        if n < 0x1_0000 {
            assert(w.skip(1) =~= text_units(rest));
        } else {
            assert(w[1] == first[1]);
            assert(w.skip(2) =~= text_units(rest));
        }
        assert(decoded(w) =~= seq![c] + decoded(text_units(rest)));
        assert(seq![c] + rest =~= s);
    }
}

proof fn lemma_units(w: Seq<u16>)
    ensures
        units_le(stored_units(w)) == w,
{
    let b = stored_units(w);
    assert forall|i: int| 0 <= i < w.len() implies #[trigger] units_le(b)[i] == w[i] by {
        assert((2 * i) / 2 == i && (2 * i) % 2 == 0);
        assert((2 * i + 1) / 2 == i && (2 * i + 1) % 2 == 1);
        assert(b[2 * i] == (w[i] % 256) as u8);
        assert(b[2 * i + 1] == (w[i] / 256) as u8);
    }
    assert(units_le(b) =~= w);
}

/// A text is read back from its stored form, but for NULs at its end.
pub proof fn law_stored_texts_read_back(s: Seq<char>)
    ensures
        utf16le_text(stored_text(s)) == trim_back_of(s, '\0'),
        s.len() == 0 || s.last() != '\0' ==> utf16le_text(stored_text(s)) == s,
        s.len() > 0 && s.last() != '\0' ==> value_text(stored_text(s), 0x01) == s,
{
    lemma_decoded(s);
    lemma_units(text_units(s));
    if s.len() > 0 {
        assert(text_units(s).len() > 0);
        assert(stored_text(s).len() > 0);
    }
}

// ---------------------------------------------------------------------------
// Numbers
// ---------------------------------------------------------------------------

/// A signed number below 2^(bits - 1) as the unsigned one that it is stored by.
pub open spec fn complement(n: int, range: int) -> int {
    if n < 0 {
        n + range
    } else {
        n
    }
}

/// The numbers of a log read as what they store: unsigned and signed ones in
/// decimal, and those of the hexadecimal types in hexadecimal.
pub proof fn law_number_values_read_as_stored(n: int)
    ensures
        0 <= n < 0x100 ==> value_text(seq![n as u8], 0x04) == decimal(n as nat),
        -0x80 <= n < 0x80 ==> value_text(seq![complement(n, 0x100) as u8], 0x03) == signed_decimal(
            n,
        ),
        0 <= n < 0x1_0000 ==> value_text(stored16(n), 0x06) == decimal(n as nat),
        -0x8000 <= n < 0x8000 ==> value_text(stored16(complement(n, 0x1_0000)), 0x05)
            == signed_decimal(n),
        0 <= n < 0x1_0000_0000 ==> value_text(stored32(n), 0x08) == decimal(n as nat),
        -0x8000_0000 <= n < 0x8000_0000 ==> value_text(
            stored32(complement(n, 0x1_0000_0000)),
            0x07,
        ) == signed_decimal(n),
        0 <= n < 0x1_0000_0000 ==> value_text(stored32(n), 0x0d) == if n == 0 {
            "false"@
        } else {
            "true"@
        },
        0 <= n < 0x1_0000_0000 ==> value_text(stored32(n), 0x14) == seq!['0', 'x'] + hexadecimal(
            n as nat,
        ),
{
    lemma_whole16(complement(n, 0x1_0000));
    lemma_whole16(n);
    lemma_whole32(complement(n, 0x1_0000_0000));
    lemma_whole32(n);
}

/// The same for numbers of eight bytes.
pub proof fn law_long_number_values_read_as_stored(n: int)
    ensures
        0 <= n < 0x1_0000_0000_0000_0000 ==> value_text(stored64(n), 0x0a) == decimal(n as nat),
        -0x8000_0000_0000_0000 <= n < 0x8000_0000_0000_0000 ==> value_text(
            stored64(complement(n, 0x1_0000_0000_0000_0000)),
            0x09,
        ) == signed_decimal(n),
        0 <= n < 0x1_0000_0000_0000_0000 ==> value_text(stored64(n), 0x15) == seq!['0', 'x']
            + hexadecimal(n as nat),
        0 <= n < 0x8000_0000_0000_0000 ==> value_text(stored64(n), 0x11) == filetime_text(n as i64),
{
    lemma_whole64(complement(n, 0x1_0000_0000_0000_0000));
    lemma_whole64(n);
}

proof fn lemma_whole16(n: int)
    ensures
        stored16(n).len() == 2,
        0 <= n < 0x1_0000 ==> word16(stored16(n), 0) == n,
{
    let b = stored16(n);
    assert(b.subrange(0, 2) =~= b);
    law_stored_numbers_read_back(b, 0, n);
}

proof fn lemma_whole32(n: int)
    ensures
        stored32(n).len() == 4,
        0 <= n < 0x1_0000_0000 ==> word32(stored32(n), 0) == n,
{
    let b = stored32(n);
    assert(b.subrange(0, 4) =~= b);
    law_stored_numbers_read_back(b, 0, n);
}

proof fn lemma_whole64(n: int)
    ensures
        stored64(n).len() == 8,
        0 <= n < 0x1_0000_0000_0000_0000 ==> word64(stored64(n), 0) == n,
{
    let b = stored64(n);
    assert(b.subrange(0, 8) =~= b);
    law_stored_numbers_read_back(b, 0, n);
}

// ---------------------------------------------------------------------------
// Other values
// ---------------------------------------------------------------------------

/// Bytes of plain text read as the characters with their numbers, up to a NUL.
pub proof fn law_plain_text_reads_up_to_a_nul(d: Seq<u8>, rest: Seq<u8>)
    requires
        forall|i: int| 0 <= i < d.len() ==> #[trigger] d[i] != 0,
        d.len() > 0,
    ensures
        value_text(d, 0x02) == Seq::new(d.len(), |i: int| d[i] as char),
        value_text(d + seq![0u8] + rest, 0x02) == Seq::new(d.len(), |i: int| d[i] as char),
{
    lemma_ansi(d, Seq::empty());
    assert(d + Seq::<u8>::empty() =~= d);
    lemma_ansi(d, seq![0u8] + rest);
    assert(d + (seq![0u8] + rest) =~= d + seq![0u8] + rest);
}

proof fn lemma_ansi(d: Seq<u8>, rest: Seq<u8>)
    requires
        forall|i: int| 0 <= i < d.len() ==> #[trigger] d[i] != 0,
        rest.len() > 0 ==> rest[0] == 0,
    ensures
        ansi_text(d + rest) == Seq::new(d.len(), |i: int| d[i] as char),
    decreases d.len(),
{
    let want = Seq::new(d.len(), |i: int| d[i] as char);
    if d.len() == 0 {
        assert(d + rest =~= rest);
        assert(ansi_text(rest) =~= want);
    } else {
        let f = d.skip(1);
        assert forall|i: int| 0 <= i < f.len() implies #[trigger] f[i] != 0 by {
            assert(f[i] == d[i + 1]);
        }
        lemma_ansi(f, rest);
        assert((d + rest).skip(1) =~= f + rest);
        assert((d + rest)[0] == d[0]);
        assert(ansi_text(d + rest) =~= want);
    }
}

/// Bytes of no other type read as two hexadecimal digits each, with hyphens between
/// them.
pub proof fn law_bytes_are_dumped_in_pairs(d: Seq<u8>, v: u8)
    requires
        d.len() > 0,
    ensures
        value_text(seq![v], 0x0e).len() == 2,
        hex_number(value_text(seq![v], 0x0e)) == v,
        value_text(d.push(v), 0x0e) == value_text(d, 0x0e) + seq!['-'] + value_text(seq![v], 0x0e),
{
    let t = byte_text(v);
    assert(seq![v][0] == v);
    assert(value_text(seq![v], 0x0e) == t);
    assert(t.drop_last() =~= seq![t[0]]);
    assert(seq![t[0]].drop_last() =~= Seq::<char>::empty());
    assert(hex_number(Seq::<char>::empty()) == 0);
    assert(hex_number(seq![t[0]]) == v as int / 16);
    assert(d.push(v).drop_last() =~= d);
    assert(d.push(v).len() > 1);
}

/// A SYSTEMTIME reads as its year, month, day, hour, minute, second and
/// milliseconds.
pub proof fn law_system_times_read_as_stored(
    year: u16,
    month: u16,
    weekday: u16,
    day: u16,
    hour: u16,
    minute: u16,
    second: u16,
    milliseconds: u16,
)
    ensures
        value_text(
            stored16(year as int) + (stored16(month as int) + (stored16(weekday as int) + (stored16(
                day as int,
            ) + (stored16(hour as int) + (stored16(minute as int) + (stored16(second as int)
                + stored16(milliseconds as int))))))),
            0x12,
        ) == zero_padded(decimal(year as nat), 4) + seq!['-'] + zero_padded(
            decimal(month as nat),
            2,
        ) + seq!['-'] + zero_padded(decimal(day as nat), 2) + seq!['T'] + zero_padded(
            decimal(hour as nat),
            2,
        ) + seq![':'] + zero_padded(decimal(minute as nat), 2) + seq![':'] + zero_padded(
            decimal(second as nat),
            2,
        ) + seq!['.'] + zero_padded(decimal(milliseconds as nat), 3) + seq!['Z'],
{
    let d = stored16(year as int) + (stored16(month as int) + (stored16(weekday as int) + (stored16(
        day as int,
    ) + (stored16(hour as int) + (stored16(minute as int) + (stored16(second as int) + stored16(
        milliseconds as int,
    )))))));
    assert(d.len() == 16);
    assert(d.subrange(0, 2) =~= stored16(year as int));
    assert(d.subrange(2, 4) =~= stored16(month as int));
    assert(d.subrange(6, 8) =~= stored16(day as int));
    assert(d.subrange(8, 10) =~= stored16(hour as int));
    assert(d.subrange(10, 12) =~= stored16(minute as int));
    assert(d.subrange(12, 14) =~= stored16(second as int));
    assert(d.subrange(14, 16) =~= stored16(milliseconds as int));
    law_stored_numbers_read_back(d, 0, year as int);
    law_stored_numbers_read_back(d, 2, month as int);
    law_stored_numbers_read_back(d, 6, day as int);
    law_stored_numbers_read_back(d, 8, hour as int);
    law_stored_numbers_read_back(d, 10, minute as int);
    law_stored_numbers_read_back(d, 12, second as int);
    law_stored_numbers_read_back(d, 14, milliseconds as int);
}

/// The sub-authorities of a SID as they are stored.
pub open spec fn stored_authorities(parts: Seq<u32>) -> Seq<u8>
    decreases parts.len(),
{
    if parts.len() == 0 {
        Seq::empty()
    } else {
        stored_authorities(parts.drop_last()) + stored32(parts.last() as int)
    }
}

/// The sub-authorities of a SID as they are written: each after a hyphen.
pub open spec fn written_authorities(parts: Seq<u32>) -> Seq<char>
    decreases parts.len(),
{
    if parts.len() == 0 {
        Seq::empty()
    } else {
        written_authorities(parts.drop_last()) + (seq!['-'] + decimal(parts.last() as nat))
    }
}

proof fn lemma_authorities(d: Seq<u8>, parts: Seq<u32>)
    requires
        d.len() >= 8,
        has_at(d, 8, stored_authorities(parts)),
    ensures
        stored_authorities(parts).len() == 4 * parts.len(),
        sid_parts(d, parts.len()) == written_authorities(parts),
    decreases parts.len(),
{
    if parts.len() > 0 {
        let f = parts.drop_last();
        let s = stored_authorities(f);
        let k = s.len() as int;
        let t = stored32(parts.last() as int);
        let whole = d.subrange(8, 8 + (s + t).len() as int);
        assert(d.subrange(8, 8 + s.len() as int) =~= whole.subrange(0, s.len() as int));
        assert((s + t).subrange(0, s.len() as int) =~= s);
        lemma_authorities(d, f);
        assert(t.len() == 4);
        assert(d.subrange(8 + k, 8 + k + 4) =~= whole.subrange(k, k + 4));
        assert((s + t).subrange(k, k + 4) =~= t);
        law_stored_numbers_read_back(d, 8 + 4 * (f.len() as int), parts.last() as int);
        assert(sid_parts(d, parts.len()) =~= written_authorities(parts));
    } else {
        assert(sid_parts(d, 0) =~= written_authorities(parts));
    }
}

/// A SID reads as its revision, its authority and all of its sub-authorities.
pub proof fn law_sids_read_as_stored(revision: u8, authority: Seq<u8>, parts: Seq<u32>)
    requires
        authority.len() == 6,
        parts.len() < 0x100,
    ensures
        ({
            let number = authority[0] * 0x100_0000_0000 + authority[1] * 0x1_0000_0000
                + authority[2] * 0x100_0000 + authority[3] * 0x1_0000 + authority[4] * 0x100
                + authority[5];
            value_text(
                seq![revision, parts.len() as u8] + authority + stored_authorities(parts),
                0x13,
            ) == seq!['S', '-'] + decimal(revision as nat) + seq!['-'] + decimal(number as nat)
                + written_authorities(parts)
        }),
{
    let tail = stored_authorities(parts);
    let d = seq![revision, parts.len() as u8] + authority + tail;
    assert(d.subrange(8, 8 + tail.len() as int) =~= tail);
    lemma_authorities(d, parts);
    assert(d[0] == revision && d[1] == parts.len() as u8);
    assert(d[2] == authority[0] && d[3] == authority[1] && d[4] == authority[2]);
    assert(d[5] == authority[3] && d[6] == authority[4] && d[7] == authority[5]);
    assert(sid_count(d) == parts.len());
}

/// A FILETIME reads as the instant that many units of 100 nanoseconds after 1601,
/// which from 1970 on is that many seconds and nanoseconds.
pub proof fn law_file_times_count_from_1601(secs: u32, units: u32)
    requires
        units < 10_000_000,
    ensures
        filetime_text((116_444_736_000_000_000 + secs * 10_000_000 + units) as i64) == match crate::clock::rfc3339_text(
            secs as i64,
            (units * 100) as u32,
        ) {
            Some(t) => t,
            None => Seq::empty(),
        },
        forall|ft: i64|
            ft < 116_444_736_000_000_000 ==> #[trigger] filetime_text(ft) == Seq::<char>::empty(),
{
    let ft = (116_444_736_000_000_000 + secs * 10_000_000 + units) as i64;
    let n = ft - EPOCH_DIFF;
    assert(n == secs * 10_000_000 + units);
    assert(n / 10_000_000 == secs && n % 10_000_000 == units);
}

} // verus!
