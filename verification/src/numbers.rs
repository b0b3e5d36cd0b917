//! Numbers as text: decimal and hexadecimal writing, and the reading of
//! unsigned decimal numbers.

use crate::text::{chars_of, string_of};
use vstd::prelude::*;

verus! {

/// The character of a hexadecimal digit, in capitals.
pub open spec fn digit_of(d: int) -> char {
    if d < 10 {
        ('0' as int + d) as char
    } else {
        ('A' as int + d - 10) as char
    }
}

/// `n` written in the given base, without leading zeros.
pub open spec fn written(n: nat, base: nat) -> Seq<char>
    decreases n,
{
    if n < base || base < 2 {
        seq![digit_of(n as int)]
    } else {
        proof {
            assert(n / base < n) by (nonlinear_arith)
                requires
                    n >= base,
                    base >= 2,
            ;
        }
        written(n / base, base).push(digit_of((n % base) as int))
    }
}

/// `n` in decimal.
pub open spec fn decimal(n: nat) -> Seq<char> {
    written(n, 10)
}

/// An integer in decimal, with a minus sign where it is negative.
pub open spec fn signed_decimal(n: int) -> Seq<char> {
    if n < 0 {
        seq!['-'] + decimal((-n) as nat)
    } else {
        decimal(n as nat)
    }
}

/// `n` in hexadecimal capitals.
pub open spec fn hexadecimal(n: nat) -> Seq<char> {
    written(n, 16)
}

/// `s` filled up with zeros on the left to `width` characters.
pub open spec fn zero_padded(s: Seq<char>, width: nat) -> Seq<char> {
    if s.len() >= width {
        s
    } else {
        Seq::new((width - s.len()) as nat, |i: int| '0') + s
    }
}

/// The character of a hexadecimal digit.
fn digit(d: u8) -> (c: char)
    requires
        d < 16,
    ensures
        c == digit_of(d as int),
{
    if d < 10 {
        (48u8 + d) as char
    } else {
        (55u8 + d) as char
    }
}

/// Appends `n` in the given base.
fn push_written(out: &mut Vec<char>, n: u64, base: u64)
    requires
        2 <= base <= 16,
    ensures
        final(out)@ == old(out)@ + written(n as nat, base as nat),
    decreases n,
{
    if n < base {
        out.push(digit(n as u8));
        assert(out@ =~= old(out)@ + written(n as nat, base as nat));
    } else {
        assert(n / base < n) by (nonlinear_arith)
            requires
                n >= base,
                base >= 2,
        ;
        push_written(out, n / base, base);
        assert(n % base < base) by (nonlinear_arith)
            requires
                base >= 2,
        ;
        out.push(digit((n % base) as u8));
        assert(out@ =~= old(out)@ + written(n as nat, base as nat));
    }
}

/// Appends `n` in decimal.
pub fn push_decimal(out: &mut Vec<char>, n: u64)
    ensures
        final(out)@ == old(out)@ + decimal(n as nat),
{
    push_written(out, n, 10);
}

/// Appends `n` in hexadecimal capitals.
pub fn push_hexadecimal(out: &mut Vec<char>, n: u64)
    ensures
        final(out)@ == old(out)@ + hexadecimal(n as nat),
{
    push_written(out, n, 16);
}

/// Appends an integer in decimal.
pub fn push_signed(out: &mut Vec<char>, n: i64)
    ensures
        final(out)@ == old(out)@ + signed_decimal(n as int),
{
    if n < 0 {
        out.push('-');
        let magnitude: u64 = (-(n + 1)) as u64 + 1;
        push_decimal(out, magnitude);
        assert(out@ =~= old(out)@ + signed_decimal(n as int));
    } else {
        push_decimal(out, n as u64);
    }
}

/// Appends `n` in decimal, filled up with zeros to `width` characters.
pub fn push_padded(out: &mut Vec<char>, n: u64, width: usize)
    ensures
        final(out)@ == old(out)@ + zero_padded(decimal(n as nat), width as nat),
{
    let mut body: Vec<char> = Vec::new();
    push_decimal(&mut body, n);
    assert(body@ =~= decimal(n as nat));
    let len: usize = body.len();
    if len < width {
        let mut i: usize = 0;
        while i < width - len
            invariant
                len < width,
                i <= width - len,
                out@ == old(out)@ + Seq::new(i as nat, |k: int| '0'),
            decreases width - len - i,
        {
            out.push('0');
            i += 1;
            assert(out@ =~= old(out)@ + Seq::new(i as nat, |k: int| '0'));
        }
    }
    let ghost head = out@;
    out.append(&mut body);
    assert(out@ =~= old(out)@ + zero_padded(decimal(n as nat), width as nat));
}

/// `n` in decimal.
pub fn decimal_text(n: u64) -> (s: String)
    ensures
        s@ == decimal(n as nat),
{
    let mut v: Vec<char> = Vec::new();
    push_decimal(&mut v, n);
    assert(v@ =~= decimal(n as nat));
    string_of(v.as_slice())
}

/// An integer in decimal.
pub fn signed_text(n: i64) -> (s: String)
    ensures
        s@ == signed_decimal(n as int),
{
    let mut v: Vec<char> = Vec::new();
    push_signed(&mut v, n);
    assert(v@ =~= signed_decimal(n as int));
    string_of(v.as_slice())
}

/// An optional port in decimal, or another text in its place.
pub open spec fn port_or(n: Option<u16>, other: Seq<char>) -> Seq<char> {
    match n {
        Some(p) => decimal(p as nat),
        None => other,
    }
}

/// An optional port in decimal, or another text in its place.
pub fn port_text(n: Option<u16>, other: &str) -> (s: String)
    ensures
        s@ == port_or(n, other@),
{
    match n {
        Some(p) => decimal_text(p as u64),
        None => other.to_owned(),
    }
}

/// An optional process number in decimal, or another text in its place.
pub open spec fn pid_or(n: Option<u32>, other: Seq<char>) -> Seq<char> {
    match n {
        Some(p) => decimal(p as nat),
        None => other,
    }
}

/// An optional process number in decimal, or another text in its place.
pub fn pid_text(n: Option<u32>, other: &str) -> (s: String)
    ensures
        s@ == pid_or(n, other@),
{
    match n {
        Some(p) => decimal_text(p as u64),
        None => other.to_owned(),
    }
}

/// `true` or `false`.
pub open spec fn bool_word(b: bool) -> Seq<char> {
    if b {
        "true"@
    } else {
        "false"@
    }
}

/// The word for a truth value.
pub fn bool_text(b: bool) -> (s: String)
    ensures
        s@ == bool_word(b),
{
    if b {
        "true".to_owned()
    } else {
        "false".to_owned()
    }
}

// ---------------------------------------------------------------------------
// Reading
// ---------------------------------------------------------------------------

/// Whether a character is one of the ten decimal digits.
pub open spec fn is_digit(c: char) -> bool {
    '0' <= c && c <= '9'
}

/// Whether a text is made of decimal digits alone.
pub open spec fn all_digits(s: Seq<char>) -> bool {
    forall|i: int| 0 <= i < s.len() ==> is_digit(#[trigger] s[i])
}

/// The number that a text of decimal digits writes.
pub open spec fn value_of(s: Seq<char>) -> nat
    decreases s.len(),
{
    if s.len() == 0 {
        0
    } else {
        value_of(s.drop_last()) * 10 + ((s.last() as int) - ('0' as int)) as nat
    }
}

/// The digits of a written number: what follows an optional plus sign.
pub open spec fn digits_part(s: Seq<char>) -> Seq<char> {
    if s.len() > 0 && s[0] == '+' {
        s.skip(1)
    } else {
        s
    }
}

/// The unsigned number that a text writes, where it is one and at most `max`.
pub open spec fn unsigned_of(s: Seq<char>, max: nat) -> Option<nat> {
    let body = digits_part(s);
    if body.len() > 0 && all_digits(body) && value_of(body) <= max {
        Some(value_of(body))
    } else {
        None
    }
}

/// Longer texts of digits write no smaller numbers.
proof fn lemma_value_prefix(s: Seq<char>, i: int)
    requires
        0 <= i <= s.len(),
    ensures
        value_of(s.take(i)) <= value_of(s),
    decreases s.len() - i,
{
    if i < s.len() {
        lemma_value_prefix(s, i + 1);
        assert(s.take(i + 1).drop_last() =~= s.take(i));
    } else {
        assert(s.take(i) =~= s);
    }
}

/// `str::parse` into an unsigned integer of which `max` is the largest value.
pub fn parse_unsigned(s: &str, max: u64) -> (r: Option<u64>)
    ensures
        match r {
            Some(n) => unsigned_of(s@, max as nat) == Some(n as nat),
            None => unsigned_of(s@, max as nat) is None,
        },
{
    let v = chars_of(s);
    let start: usize = if v.len() > 0 && v[0] == '+' {
        1
    } else {
        0
    };
    let ghost body = digits_part(s@);
    assert(body =~= v@.skip(start as int));
    if start == v.len() {
        return None;
    }
    let mut acc: u64 = 0;
    let mut i: usize = start;
    assert(body.take(0) =~= Seq::empty());
    while i < v.len()
        invariant
            start <= i <= v.len(),
            v@ == s@,
            body == digits_part(s@),
            body == v@.skip(start as int),
            forall|j: int| 0 <= j < i - start ==> is_digit(#[trigger] body[j]),
            acc == value_of(body.take(i - start)),
            acc <= max,
        decreases v.len() - i,
    {
        let c = v[i];
        assert(body[i - start] == c);
        if c < '0' || c > '9' {
            assert(!is_digit(body[i - start]));
            return None;
        }
        let d: u64 = (c as u32 - 48) as u64;
        assert(body.take(i - start + 1).drop_last() =~= body.take(i - start));
        assert(value_of(body.take(i - start + 1)) == acc * 10 + d);
        if acc > max / 10 || d > max || acc * 10 > max - d {
            proof {
                lemma_value_prefix(body, i - start + 1);
            }
            return None;
        }
        acc = acc * 10 + d;
        i += 1;
    }
    assert(body.take((i - start) as int) =~= body);
    Some(acc)
}

} // verus!
