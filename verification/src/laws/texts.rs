//! Laws of texts and written numbers: what is taken apart can be put together
//! again, and what is written reads back.

use crate::guid::hex_value;
use crate::numbers::{
    all_digits, decimal, digit_of, digits_part, hexadecimal, is_digit, unsigned_of, value_of,
    zero_padded,
};
use crate::text::{
    is_white, joined, split_of, text_less, trim_back_of, trim_end_of, trim_front_of, trim_of,
    trim_start_of,
};
use vstd::prelude::*;

verus! {

// ---------------------------------------------------------------------------
// White space
// ---------------------------------------------------------------------------

proof fn lemma_trim_start(s: Seq<char>)
    ensures
        ({
            let t = trim_start_of(s);
            let n = s.len() - t.len();
            &&& 0 <= n
            &&& t == s.skip(n)
            &&& forall|i: int| 0 <= i < n ==> is_white(#[trigger] s[i])
            &&& t.len() > 0 ==> !is_white(t[0])
        }),
    decreases s.len(),
{
    if s.len() > 0 && is_white(s[0]) {
        let u = s.skip(1);
        lemma_trim_start(u);
        let t = trim_start_of(s);
        let n = s.len() - t.len();
        assert(u.skip(n - 1) =~= s.skip(n));
        assert forall|i: int| 0 <= i < n implies is_white(#[trigger] s[i]) by {
            if i > 0 {
                assert(u[i - 1] == s[i]);
            }
        }
    } else {
        assert(s.skip(0) =~= s);
    }
}

proof fn lemma_trim_end(s: Seq<char>)
    ensures
        ({
            let t = trim_end_of(s);
            &&& t.len() <= s.len()
            &&& t == s.take(t.len() as int)
            &&& forall|i: int| t.len() <= i < s.len() ==> is_white(#[trigger] s[i])
            &&& t.len() > 0 ==> !is_white(t.last())
        }),
    decreases s.len(),
{
    if s.len() > 0 && is_white(s.last()) {
        let u = s.drop_last();
        lemma_trim_end(u);
        let t = trim_end_of(s);
        assert(u.take(t.len() as int) =~= s.take(t.len() as int));
        assert forall|i: int| t.len() <= i < s.len() implies is_white(#[trigger] s[i]) by {
            if i < u.len() {
                assert(u[i] == s[i]);
            }
        }
    } else {
        assert(s.take(s.len() as int) =~= s);
    }
}

/// Trimming takes white space away at both ends and nothing else: what is left
/// stands in the text with white space alone before and after it, and neither
/// begins nor ends with any. Trimming again changes nothing.
pub proof fn law_trimming_takes_white_space_alone(s: Seq<char>)
    ensures
        ({
            let t = trim_of(s);
            &&& exists|i: int|
                {
                    &&& 0 <= i
                    &&& i + t.len() <= s.len()
                    &&& #[trigger] s.subrange(i, i + t.len()) == t
                    &&& forall|k: int| 0 <= k < i ==> is_white(#[trigger] s[k])
                    &&& forall|k: int| i + t.len() <= k < s.len() ==> is_white(#[trigger] s[k])
                }
            &&& t.len() > 0 ==> !is_white(t[0]) && !is_white(t.last())
            &&& trim_of(t) == t
        }),
{
    let u = trim_start_of(s);
    let t = trim_of(s);
    lemma_trim_start(s);
    lemma_trim_end(u);
    let n = s.len() - u.len();
    assert(s.subrange(n, n + t.len()) =~= t);
    assert forall|k: int| n + t.len() <= k < s.len() implies is_white(#[trigger] s[k]) by {
        assert(u[k - n] == s[k]);
    }
    if t.len() > 0 {
        assert(t[0] == u[0]);
    }
    lemma_trim_start(t);
    if t.len() > 0 {
        assert(trim_start_of(t) =~= t);
    }
    lemma_trim_end(t);
    assert(trim_of(t) =~= t);
}

/// A text without white space at its ends is trimmed to itself.
pub proof fn law_trimmed_texts_stay(s: Seq<char>)
    requires
        s.len() > 0 ==> !is_white(s[0]) && !is_white(s.last()),
    ensures
        trim_of(s) == s,
{
    assert(trim_start_of(s) == s);
}

/// Taking a character off one end of a text leaves the rest of the text, which
/// does not have it there any more.
pub proof fn law_ends_are_taken_off(s: Seq<char>, c: char)
    ensures
        ({
            let f = trim_front_of(s, c);
            let n = s.len() - f.len();
            &&& 0 <= n
            &&& f == s.skip(n)
            &&& forall|i: int| 0 <= i < n ==> #[trigger] s[i] == c
            &&& f.len() > 0 ==> f[0] != c
        }),
        ({
            let b = trim_back_of(s, c);
            &&& b.len() <= s.len()
            &&& b == s.take(b.len() as int)
            &&& forall|i: int| b.len() <= i < s.len() ==> #[trigger] s[i] == c
            &&& b.len() > 0 ==> b.last() != c
        }),
    decreases s.len(),
{
    if s.len() > 0 {
        let u = s.skip(1);
        let w = s.drop_last();
        law_ends_are_taken_off(u, c);
        law_ends_are_taken_off(w, c);
        if s[0] == c {
            let f = trim_front_of(s, c);
            let n = s.len() - f.len();
            assert(u.skip(n - 1) =~= s.skip(n));
            assert forall|i: int| 0 <= i < n implies #[trigger] s[i] == c by {
                if i > 0 {
                    assert(u[i - 1] == s[i]);
                }
            }
        } else {
            assert(s.skip(0) =~= s);
        }
        if s.last() == c {
            let b = trim_back_of(s, c);
            assert(w.take(b.len() as int) =~= s.take(b.len() as int));
            assert forall|i: int| b.len() <= i < s.len() implies #[trigger] s[i] == c by {
                if i < w.len() {
                    assert(w[i] == s[i]);
                }
            }
        } else {
            assert(s.take(s.len() as int) =~= s);
        }
    } else {
        assert(s.skip(0) =~= s);
        assert(s.take(0) =~= s);
    }
}

// ---------------------------------------------------------------------------
// Parts
// ---------------------------------------------------------------------------

/// The parts that a text is split into, joined by the character it was split at,
/// are the text again, and none of them holds that character.
pub proof fn law_split_texts_join_again(s: Seq<char>, c: char)
    ensures
        split_of(s, c).len() > 0,
        joined(split_of(s, c), seq![c]) == s,
        forall|i: int| 0 <= i < split_of(s, c).len() ==> !(#[trigger] split_of(s, c)[i]).contains(c),
    decreases s.len(),
{
    let parts = split_of(s, c);
    if s.len() == 0 {
        assert(parts[0] =~= s);
    } else {
        let f = s.drop_last();
        law_split_texts_join_again(f, c);
        let front = split_of(f, c);
        assert(s =~= f.push(s.last()));
        if s.last() == c {
            assert(parts.drop_last() =~= front);
            assert(joined(parts, seq![c]) =~= joined(front, seq![c]) + seq![c]
                + Seq::<char>::empty());
            assert(joined(parts, seq![c]) =~= s);
        } else {
            let last = front.last();
            assert(parts.last() == last.push(s.last()));
            if front.len() == 1 {
                assert(front[0] == last);
                assert(parts[0] =~= last.push(s.last()));
                assert(joined(front, seq![c]) == last);
                assert(joined(parts, seq![c]) =~= s);
            } else {
                assert(parts.drop_last() =~= front.drop_last());
                assert(joined(parts, seq![c]) =~= joined(front.drop_last(), seq![c]) + seq![c]
                    + last.push(s.last()));
                assert(joined(parts, seq![c]) =~= s);
            }
            assert forall|i: int| 0 <= i < parts.len() implies !(#[trigger] parts[i]).contains(
                c,
            ) by {
                if i < parts.len() - 1 {
                    assert(parts[i] == front[i]);
                } else {
                    assert(front[i] == last);
                    if parts[i].contains(c) {
                        let k = choose|k: int| 0 <= k < parts[i].len() && parts[i][k] == c;
                        assert(last[k] == c);
                    }
                }
            }
        }
        assert forall|i: int| 0 <= i < parts.len() implies !(#[trigger] parts[i]).contains(c) by {
            if s.last() == c && i < front.len() {
                assert(parts[i] == front[i]);
            }
        }
    }
}

/// Splitting a text at a character gives the parts of what stands before one of
/// its places, followed by those of what stands after it.
pub proof fn law_parts_are_found_on_both_sides(a: Seq<char>, b: Seq<char>, c: char)
    ensures
        split_of(a + seq![c] + b, c) == split_of(a, c) + split_of(b, c),
        !a.contains(c) ==> split_of(a, c) == seq![a],
    decreases b.len(),
{
    let s = a + seq![c] + b;
    if b.len() == 0 {
        assert(s.drop_last() =~= a);
        assert(s.last() == c);
        assert(b =~= Seq::<char>::empty());
        assert(split_of(s, c) =~= split_of(a, c) + split_of(b, c));
    } else {
        law_parts_are_found_on_both_sides(a, b.drop_last(), c);
        assert(s.drop_last() =~= a + seq![c] + b.drop_last());
        assert(s.last() == b.last());
        law_split_texts_join_again(b.drop_last(), c);
        let (p, q) = (split_of(a, c), split_of(b.drop_last(), c));
        assert((p + q).last() == q.last());
        assert((p + q).drop_last() =~= p + q.drop_last());
        assert(split_of(s, c) =~= split_of(a, c) + split_of(b, c));
    }
    if !a.contains(c) {
        lemma_one_part(a, c);
    }
}

proof fn lemma_one_part(a: Seq<char>, c: char)
    requires
        !a.contains(c),
    ensures
        split_of(a, c) == seq![a],
    decreases a.len(),
{
    if a.len() > 0 {
        let f = a.drop_last();
        assert(a[a.len() - 1] != c);
        if f.contains(c) {
            let i = choose|i: int| 0 <= i < f.len() && f[i] == c;
            assert(a[i] == c);
        }
        lemma_one_part(f, c);
        assert(f.push(a.last()) =~= a);
        assert(split_of(a, c) =~= seq![a]);
    } else {
        assert(split_of(a, c) =~= seq![a]);
    }
}

/// Texts are ordered by the first character in which they differ, and a text comes
/// before those that go on from it.
pub proof fn law_texts_are_ordered_by_their_first_difference(
    p: Seq<char>,
    a: Seq<char>,
    b: Seq<char>,
)
    ensures
        a.len() > 0 && b.len() > 0 && a[0] < b[0] ==> text_less(p + a, p + b) && !text_less(
            p + b,
            p + a,
        ),
        b.len() > 0 ==> text_less(p, p + b),
        !text_less(p + a, p),
    decreases p.len(),
{
    if p.len() == 0 {
        assert(p + a =~= a);
        assert(p + b =~= b);
    } else {
        law_texts_are_ordered_by_their_first_difference(p.skip(1), a, b);
        assert((p + a).skip(1) =~= p.skip(1) + a);
        assert((p + b).skip(1) =~= p.skip(1) + b);
    }
}

// ---------------------------------------------------------------------------
// Numbers
// ---------------------------------------------------------------------------

proof fn lemma_decimal(n: nat)
    ensures
        decimal(n).len() > 0,
        all_digits(decimal(n)),
        value_of(decimal(n)) == n,
    decreases n,
{
    let s = decimal(n);
    if n < 10 {
        assert(s[0] == digit_of(n as int));
        assert(s.drop_last() =~= Seq::<char>::empty());
        assert(value_of(Seq::<char>::empty()) == 0);
    } else {
        lemma_decimal(n / 10);
        let front = decimal(n / 10);
        assert(s.drop_last() =~= front);
        assert(s.last() == digit_of((n % 10) as int));
        assert forall|i: int| 0 <= i < s.len() implies is_digit(#[trigger] s[i]) by {
            if i < front.len() {
                assert(s[i] == front[i]);
            }
        }
    }
}

/// A number in decimal reads back as itself, with or without a plus sign, where it
/// is not over the limit, and as nothing where it is. It has no leading zero.
pub proof fn law_decimal_reads_back(n: nat, max: nat)
    ensures
        n <= max ==> unsigned_of(decimal(n), max) == Some(n),
        n <= max ==> unsigned_of(seq!['+'] + decimal(n), max) == Some(n),
        n > max ==> unsigned_of(decimal(n), max) is None,
        n > 0 ==> decimal(n)[0] != '0',
        trim_of(decimal(n)) == decimal(n),
{
    lemma_decimal(n);
    let s = decimal(n);
    assert(is_digit(s[0]));
    assert(digits_part(s) == s);
    let t = seq!['+'] + s;
    assert(t.skip(1) =~= s);
    lemma_no_leading_zero(n);
    assert(is_digit(s[s.len() - 1]));
    law_trimmed_texts_stay(s);
}

proof fn lemma_no_leading_zero(n: nat)
    ensures
        n > 0 ==> decimal(n)[0] != '0',
    decreases n,
{
    if n >= 10 {
        lemma_no_leading_zero(n / 10);
        lemma_decimal(n / 10);
        assert(decimal(n)[0] == decimal(n / 10)[0]);
    }
}

/// The number that hexadecimal digits write.
pub open spec fn hex_number(s: Seq<char>) -> int
    decreases s.len(),
{
    if s.len() == 0 {
        0
    } else {
        hex_number(s.drop_last()) * 16 + hex_value(s.last())
    }
}

/// A number in hexadecimal reads back as itself, in capitals.
pub proof fn law_hexadecimal_reads_back(n: nat)
    ensures
        hex_number(hexadecimal(n)) == n,
        forall|i: int|
            0 <= i < hexadecimal(n).len() ==> is_digit(#[trigger] hexadecimal(n)[i]) || ('A'
                <= hexadecimal(n)[i] && hexadecimal(n)[i] <= 'F'),
    decreases n,
{
    let s = hexadecimal(n);
    if n < 16 {
        assert(s.drop_last() =~= Seq::<char>::empty());
        assert(hex_number(Seq::<char>::empty()) == 0);
    } else {
        law_hexadecimal_reads_back(n / 16);
        let front = hexadecimal(n / 16);
        assert(s.drop_last() =~= front);
        assert forall|i: int| 0 <= i < s.len() implies is_digit(#[trigger] s[i]) || ('A' <= s[i]
            && s[i] <= 'F') by {
            if i < front.len() {
                assert(s[i] == front[i]);
            }
        }
    }
}

/// Filling up with zeros gives the width that is asked for, or leaves a text that
/// has it, and puts nothing but zeros in front.
pub proof fn law_zeros_fill_up(s: Seq<char>, width: nat)
    ensures
        ({
            let t = zero_padded(s, width);
            &&& t.len() == if s.len() < width {
                width
            } else {
                s.len()
            }
            &&& t.skip(t.len() - s.len()) == s
            &&& forall|i: int| 0 <= i < t.len() - s.len() ==> #[trigger] t[i] == '0'
        }),
{
    let t = zero_padded(s, width);
    assert(t.skip(t.len() - s.len()) =~= s);
}

/// White space is the tab, the line and page breaks up to the carriage return, the
/// blank, the next-line mark, and the blanks and separators of Unicode; a letter, a
/// digit or a punctuation mark of ASCII is none.
pub proof fn law_white_space_is_that_of_unicode(c: char)
    ensures
        '\t' <= c <= '\r' || c == ' ' ==> is_white(c),
        c == '\u{85}' || c == '\u{A0}' || c == '\u{1680}' ==> is_white(c),
        '\u{2000}' <= c <= '\u{200A}' ==> is_white(c),
        c == '\u{2028}' || c == '\u{2029}' || c == '\u{202F}' || c == '\u{205F}' || c
            == '\u{3000}' ==> is_white(c),
        '!' <= c <= '~' ==> !is_white(c),
        c < '\t' ==> !is_white(c),
        c > '\u{3000}' ==> !is_white(c),
        c == '\u{200B}' || c == '\u{FEFF}' ==> !is_white(c),
{
}

} // verus!
