//! Repair of JSON in which Windows paths were written with single backslashes.

use crate::guid::is_hex;
use crate::text::{chars_of, string_of};
use vstd::prelude::*;

verus! {

/// Whether four hexadecimal digits stand in a text from a position on.
pub open spec fn four_digits_at(s: Seq<char>, i: int) -> bool {
    i + 4 <= s.len() && is_hex(s[i]) && is_hex(s[i + 1]) && is_hex(s[i + 2]) && is_hex(s[i + 3])
}

/// The text with each backslash doubled that does not begin one of the escapes
/// for a quote, a backslash, a slash or a code unit, the last with four
/// hexadecimal digits. The escapes for control characters count as stray:
/// exporters never write them on purpose.
pub open spec fn repaired(s: Seq<char>) -> Seq<char>
    decreases s.len(),
{
    if s.len() == 0 {
        s
    } else if s[0] != '\\' {
        seq![s[0]] + repaired(s.skip(1))
    } else if s.len() > 1 && (s[1] == '"' || s[1] == '\\' || s[1] == '/') {
        seq!['\\', s[1]] + repaired(s.skip(2))
    } else if s.len() > 1 && s[1] == 'u' && four_digits_at(s, 2) {
        seq!['\\', 'u', s[2], s[3], s[4], s[5]] + repaired(s.skip(6))
    } else {
        seq!['\\', '\\'] + repaired(s.skip(1))
    }
}

/// A repaired text needs no further repair.
pub proof fn law_repair_once(s: Seq<char>)
    ensures
        repaired(repaired(s)) == repaired(s),
    decreases s.len(),
{
    let r = repaired(s);
    if s.len() == 0 {
    } else if s[0] != '\\' {
        law_repair_once(s.skip(1));
        assert(r.skip(1) =~= repaired(s.skip(1)));
    } else if s.len() > 1 && (s[1] == '"' || s[1] == '\\' || s[1] == '/') {
        law_repair_once(s.skip(2));
        assert(r.skip(2) =~= repaired(s.skip(2)));
    } else if s.len() > 1 && s[1] == 'u' && four_digits_at(s, 2) {
        law_repair_once(s.skip(6));
        assert(r.skip(6) =~= repaired(s.skip(6)));
    } else {
        law_repair_once(s.skip(1));
        assert(r.skip(2) =~= repaired(s.skip(1)));
    }
}

/// A text without its backslashes.
pub open spec fn without_backslashes(s: Seq<char>) -> Seq<char>
    decreases s.len(),
{
    if s.len() == 0 {
        s
    } else if s[0] == '\\' {
        without_backslashes(s.skip(1))
    } else {
        seq![s[0]] + without_backslashes(s.skip(1))
    }
}

/// What stands before a text stays before it when backslashes are left out.
proof fn lemma_without_backslashes(a: Seq<char>, b: Seq<char>)
    ensures
        without_backslashes(a + b) == without_backslashes(a) + without_backslashes(b),
    decreases a.len(),
{
    if a.len() == 0 {
        assert(a + b =~= b);
        assert(without_backslashes(a) + without_backslashes(b) =~= without_backslashes(b));
    } else {
        lemma_without_backslashes(a.skip(1), b);
        assert((a + b).skip(1) =~= a.skip(1) + b);
        assert(without_backslashes(a + b) =~= without_backslashes(a) + without_backslashes(b));
    }
}

/// Repair never shortens a text, and it changes nothing but its backslashes.
pub proof fn law_repair_changes_only_backslashes(s: Seq<char>)
    ensures
        repaired(s).len() >= s.len(),
        without_backslashes(repaired(s)) == without_backslashes(s),
    decreases s.len(),
{
    if s.len() > 0 {
        let (n, head) = if s[0] != '\\' {
            (1int, seq![s[0]])
        } else if s.len() > 1 && (s[1] == '"' || s[1] == '\\' || s[1] == '/') {
            (2, seq!['\\', s[1]])
        } else if s.len() > 1 && s[1] == 'u' && four_digits_at(s, 2) {
            (6, seq!['\\', 'u', s[2], s[3], s[4], s[5]])
        } else {
            (1, seq!['\\', '\\'])
        };
        law_repair_changes_only_backslashes(s.skip(n));
        lemma_without_backslashes(head, repaired(s.skip(n)));
        lemma_without_backslashes(s.take(n), s.skip(n));
        assert(s =~= s.take(n) + s.skip(n));
        if s[0] == '\\' && n == 1 {
            let one = seq!['\\'];
            lemma_without_backslashes(one, one);
            assert(head =~= one + one);
            assert(s.take(1) =~= one);
            assert(one.skip(1) =~= Seq::empty());
            assert(without_backslashes(one) =~= Seq::empty());
        } else {
            assert(s.take(n) =~= head);
        }
    }
}

/// A text without backslashes stays as it is.
pub proof fn law_repair_keeps_plain_text(s: Seq<char>)
    requires
        !s.contains('\\'),
    ensures
        repaired(s) == s,
    decreases s.len(),
{
    if s.len() > 0 {
        assert(s[0] != '\\');
        assert(!s.skip(1).contains('\\')) by {
            if s.skip(1).contains('\\') {
                let i = choose|i: int| 0 <= i < s.skip(1).len() && s.skip(1)[i] == '\\';
                assert(s[i + 1] == '\\');
            }
        }
        law_repair_keeps_plain_text(s.skip(1));
        assert(repaired(s) =~= s);
    }
}

/// Whether a character is a hexadecimal digit.
fn hex(c: char) -> (r: bool)
    ensures
        r == is_hex(c),
{
    ('0' <= c && c <= '9') || ('a' <= c && c <= 'f') || ('A' <= c && c <= 'F')
}

/// Doubles every backslash that is not part of a recognised JSON escape.
pub fn fix_unescaped_backslashes(s: &str) -> (r: String)
    ensures
        r@ == repaired(s@),
{
    let v = chars_of(s);
    let mut out: Vec<char> = Vec::new();
    let mut i: usize = 0;
    assert(v@.skip(0) =~= v@);
    while i < v.len()
        invariant
            i <= v.len(),
            v@ == s@,
            out@ + repaired(v@.skip(i as int)) == repaired(v@),
        decreases v.len() - i,
    {
        let ghost rest = v@.skip(i as int);
        assert(rest.skip(1) =~= v@.skip(i + 1));
        if v[i] != '\\' {
            out.push(v[i]);
            i += 1;
        } else if i + 1 < v.len() && (v[i + 1] == '"' || v[i + 1] == '\\' || v[i + 1] == '/') {
            assert(rest.skip(2) =~= v@.skip(i + 2));
            out.push('\\');
            out.push(v[i + 1]);
            i += 2;
        } else if v.len() - i >= 6 && v[i + 1] == 'u' && hex(v[i + 2]) && hex(v[i + 3]) && hex(
            v[i + 4],
        ) && hex(v[i + 5]) {
            assert(rest.skip(6) =~= v@.skip(i + 6));
            out.push('\\');
            out.push('u');
            out.push(v[i + 2]);
            out.push(v[i + 3]);
            out.push(v[i + 4]);
            out.push(v[i + 5]);
            i += 6;
        } else {
            out.push('\\');
            out.push('\\');
            i += 1;
        }
        assert(out@ + repaired(v@.skip(i as int)) =~= repaired(v@));
    }
    assert(repaired(v@.skip(i as int)) =~= Seq::empty());
    assert(out@ =~= repaired(v@));
    string_of(out.as_slice())
}

} // verus!
