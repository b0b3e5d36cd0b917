//! Text as sequences of characters: the operations of the reader and of the
//! rule engine, stated over `Seq<char>`.

use vstd::prelude::*;
use vstd::slice::slice_subrange;

verus! {

// ---------------------------------------------------------------------------
// Trusted operations of the standard library
// ---------------------------------------------------------------------------

/// `String::push` appends one character.
pub assume_specification[ String::push ](s: &mut String, c: char)
    ensures
        final(s)@ == old(s)@.push(c),
;

/// `str::eq`: two texts are equal exactly when they hold the same characters.
#[verifier::external_body]
pub(crate) fn same_text(a: &str, b: &str) -> (same: bool)
    ensures
        same == (a@ == b@),
{
    a == b
}

/// What `str::to_lowercase` makes of a text.
pub uninterp spec fn lowercase(s: Seq<char>) -> Seq<char>;

/// The lower-case letter of an ASCII capital; any other character as it is.
pub open spec fn ascii_lower(c: char) -> char {
    if 'A' <= c && c <= 'Z' {
        ((c as int) + 32) as char
    } else {
        c
    }
}

/// `str::to_lowercase`. The mapping is that of Unicode and goes by the name
/// `lowercase`; on ASCII text it replaces the capitals A to Z and nothing else.
/// In other text a letter may be mapped by what stands around it, as the final
/// sigma is, and nothing is stated of that.
#[verifier::external_body]
pub(crate) fn to_lowercase(s: &str) -> (lower: String)
    ensures
        lower@ == lowercase(s@),
        (forall|i: int| 0 <= i < s@.len() ==> (#[trigger] s@[i] as int) < 128)
            ==> lower@ == s@.map_values(|c: char| ascii_lower(c)),
{
    s.to_lowercase()
}

/// What `str::to_uppercase` makes of a text.
pub uninterp spec fn uppercase(s: Seq<char>) -> Seq<char>;

/// The capital of an ASCII letter; any other character as it is.
pub open spec fn ascii_upper(c: char) -> char {
    if 'a' <= c && c <= 'z' {
        ((c as int) - 32) as char
    } else {
        c
    }
}

/// `str::to_uppercase`. The mapping is that of Unicode and goes by the name
/// `uppercase`; on ASCII text it replaces the letters a to z and nothing else.
#[verifier::external_body]
pub(crate) fn to_uppercase(s: &str) -> (upper: String)
    ensures
        upper@ == uppercase(s@),
        (forall|i: int| 0 <= i < s@.len() ==> (#[trigger] s@[i] as int) < 128)
            ==> upper@ == s@.map_values(|c: char| ascii_upper(c)),
{
    s.to_uppercase()
}

// ---------------------------------------------------------------------------
// Between strings and vectors of characters
// ---------------------------------------------------------------------------

/// The characters of a text.
pub fn chars_of(s: &str) -> (v: Vec<char>)
    ensures
        v@ == s@,
{
    let mut v: Vec<char> = Vec::new();
    for c in it: s.chars()
        invariant
            it.seq() == s@,
            v@ == s@.take(it.index()),
    {
        v.push(c);
        assert(s@.take(it.index() + 1) =~= s@.take(it.index()).push(c));
    }
    assert(s@.take(s@.len() as int) =~= s@);
    v
}

/// The text made of the given characters.
pub fn string_of(v: &[char]) -> (s: String)
    ensures
        s@ == v@,
{
    let mut s = String::new();
    let mut i: usize = 0;
    while i < v.len()
        invariant
            i <= v.len(),
            s@ == v@.take(i as int),
        decreases v.len() - i,
    {
        s.push(v[i]);
        assert(v@.take(i + 1) =~= v@.take(i as int).push(v@[i as int]));
        i += 1;
    }
    assert(v@.take(v@.len() as int) =~= v@);
    s
}

/// Appends the characters of `t` to `out`.
pub fn push_text(out: &mut Vec<char>, t: &str)
    ensures
        final(out)@ == old(out)@ + t@,
{
    for c in it: t.chars()
        invariant
            it.seq() == t@,
            out@ == old(out)@ + t@.take(it.index()),
    {
        out.push(c);
        assert(t@.take(it.index() + 1) =~= t@.take(it.index()).push(c));
    }
    assert(t@.take(t@.len() as int) =~= t@);
}

/// The texts that the strings of a sequence hold.
pub open spec fn texts(v: Seq<String>) -> Seq<Seq<char>> {
    v.map_values(|s: String| s@)
}

/// The text that an optional string holds.
pub open spec fn opt_text(o: Option<String>) -> Option<Seq<char>> {
    match o {
        Some(s) => Some(s@),
        None => None,
    }
}

/// A copy of an optional string.
pub fn clone_opt(o: &Option<String>) -> (r: Option<String>)
    ensures
        opt_text(r) == opt_text(*o),
{
    match o {
        Some(s) => Some(s.clone()),
        None => None,
    }
}

/// The texts that the parts of a list hold.
pub open spec fn part_texts(v: Seq<&str>) -> Seq<Seq<char>> {
    v.map_values(|s: &str| s@)
}

/// Texts one after the other, with a separator between them.
pub open spec fn joined(parts: Seq<Seq<char>>, separator: Seq<char>) -> Seq<char>
    decreases parts.len(),
{
    if parts.len() == 0 {
        Seq::empty()
    } else if parts.len() == 1 {
        parts[0]
    } else {
        joined(parts.drop_last(), separator) + separator + parts.last()
    }
}

/// Joins texts with a separator between them.
pub fn join(parts: &Vec<&str>, separator: &str) -> (s: String)
    ensures
        s@ == joined(part_texts(parts@), separator@),
{
    let ghost all = part_texts(parts@);
    let mut out: Vec<char> = Vec::new();
    let mut i: usize = 0;
    assert(all.take(0) =~= Seq::empty());
    while i < parts.len()
        invariant
            i <= parts.len(),
            all == part_texts(parts@),
            out@ == joined(all.take(i as int), separator@),
        decreases parts.len() - i,
    {
        let ghost next = all.take(i + 1);
        assert(next.drop_last() =~= all.take(i as int));
        assert(next.last() == parts@[i as int]@);
        if i > 0 {
            push_text(&mut out, separator);
        }
        push_text(&mut out, parts[i]);
        assert(out@ =~= joined(next, separator@));
        i += 1;
    }
    assert(all.take(all.len() as int) =~= all);
    string_of(out.as_slice())
}

/// The text of an optional string, or another one in its place.
pub open spec fn text_or(o: Option<Seq<char>>, other: Seq<char>) -> Seq<char> {
    match o {
        Some(t) => t,
        None => other,
    }
}

/// The text of an optional string, or another one in its place.
pub fn str_or<'a>(o: &'a Option<String>, other: &'a str) -> (r: &'a str)
    ensures
        r@ == text_or(opt_text(*o), other@),
{
    match o {
        Some(t) => t.as_str(),
        None => other,
    }
}

/// A copy of the text of an optional string, or of another one in its place.
pub fn owned_or(o: &Option<String>, other: &str) -> (r: String)
    ensures
        r@ == text_or(opt_text(*o), other@),
{
    str_or(o, other).to_owned()
}

// ---------------------------------------------------------------------------
// White space and trimming
// ---------------------------------------------------------------------------

/// The characters with the Unicode property White_Space.
pub open spec fn is_white(c: char) -> bool {
    let n = c as u32;
    ||| 0x09 <= n <= 0x0d
    ||| n == 0x20
    ||| n == 0x85
    ||| n == 0xa0
    ||| n == 0x1680
    ||| 0x2000 <= n <= 0x200a
    ||| n == 0x2028
    ||| n == 0x2029
    ||| n == 0x202f
    ||| n == 0x205f
    ||| n == 0x3000
}

/// Whether a character is white space.
pub fn white(c: char) -> (r: bool)
    ensures
        r == is_white(c),
{
    let n: u32 = c as u32;
    (0x09 <= n && n <= 0x0d) || n == 0x20 || n == 0x85 || n == 0xa0 || n == 0x1680 || (0x2000 <= n
        && n <= 0x200a) || n == 0x2028 || n == 0x2029 || n == 0x202f || n == 0x205f || n == 0x3000
}

/// The text without its leading white space.
pub open spec fn trim_start_of(s: Seq<char>) -> Seq<char>
    decreases s.len(),
{
    if s.len() > 0 && is_white(s[0]) {
        trim_start_of(s.skip(1))
    } else {
        s
    }
}

/// The text without its trailing white space.
pub open spec fn trim_end_of(s: Seq<char>) -> Seq<char>
    decreases s.len(),
{
    if s.len() > 0 && is_white(s.last()) {
        trim_end_of(s.drop_last())
    } else {
        s
    }
}

/// The text without white space at either end.
pub open spec fn trim_of(s: Seq<char>) -> Seq<char> {
    trim_end_of(trim_start_of(s))
}

/// Removes white space at both ends.
pub fn trim_chars(v: &[char]) -> (r: &[char])
    ensures
        r@ == trim_of(v@),
{
    let mut i: usize = 0;
    assert(v@.skip(0) =~= v@);
    while i < v.len() && white(v[i])
        invariant
            i <= v.len(),
            trim_start_of(v@) == trim_start_of(v@.skip(i as int)),
        decreases v.len() - i,
    {
        assert(v@.skip(i as int).skip(1) =~= v@.skip(i + 1));
        i += 1;
    }
    let ghost t = v@.skip(i as int);
    assert(trim_start_of(v@) == t);
    let mut j: usize = v.len();
    assert(t.take((j - i) as int) =~= t);
    while i < j && white(v[j - 1])
        invariant
            i <= j <= v.len(),
            t == v@.skip(i as int),
            trim_end_of(t) == trim_end_of(t.take((j - i) as int)),
        decreases j,
    {
        assert(t.take((j - i) as int).last() == v@[j - 1]);
        assert(t.take((j - i) as int).drop_last() =~= t.take((j - i - 1) as int));
        j -= 1;
    }
    assert(t.take((j - i) as int).len() > 0 ==> t.take((j - i) as int).last() == v@[j - 1]);
    assert(v@.subrange(i as int, j as int) =~= t.take((j - i) as int));
    slice_subrange(v, i, j)
}

/// `str::trim`.
pub fn trim(s: &str) -> (r: String)
    ensures
        r@ == trim_of(s@),
{
    let v = chars_of(s);
    string_of(trim_chars(v.as_slice()))
}

/// The text without its leading occurrences of `c`.
pub open spec fn trim_front_of(s: Seq<char>, c: char) -> Seq<char>
    decreases s.len(),
{
    if s.len() > 0 && s[0] == c {
        trim_front_of(s.skip(1), c)
    } else {
        s
    }
}

/// `str::trim_start_matches` with one character.
pub fn trim_front(s: &str, c: char) -> (r: String)
    ensures
        r@ == trim_front_of(s@, c),
{
    let v = chars_of(s);
    let mut i: usize = 0;
    assert(v@.skip(0) =~= v@);
    while i < v.len() && v[i] == c
        invariant
            i <= v.len(),
            trim_front_of(v@, c) == trim_front_of(v@.skip(i as int), c),
        decreases v.len() - i,
    {
        assert(v@.skip(i as int).skip(1) =~= v@.skip(i + 1));
        i += 1;
    }
    assert(v@.subrange(i as int, v@.len() as int) =~= v@.skip(i as int));
    string_of(slice_subrange(v.as_slice(), i, v.len()))
}

/// The text without its trailing occurrences of `c`.
pub open spec fn trim_back_of(s: Seq<char>, c: char) -> Seq<char>
    decreases s.len(),
{
    if s.len() > 0 && s.last() == c {
        trim_back_of(s.drop_last(), c)
    } else {
        s
    }
}

/// `str::trim_end_matches` with one character.
pub fn trim_back(v: &mut Vec<char>, c: char)
    ensures
        final(v)@ == trim_back_of(old(v)@, c),
{
    while v.len() > 0 && v[v.len() - 1] == c
        invariant
            trim_back_of(old(v)@, c) == trim_back_of(v@, c),
        decreases v.len(),
    {
        assert(v@.last() == c);
        v.pop();
    }
}

// ---------------------------------------------------------------------------
// Splitting and searching
// ---------------------------------------------------------------------------

/// The pieces of a text between the occurrences of `c`; never empty.
pub open spec fn split_of(s: Seq<char>, c: char) -> Seq<Seq<char>>
    decreases s.len(),
{
    if s.len() == 0 {
        seq![s]
    } else {
        let front = split_of(s.drop_last(), c);
        if s.last() == c {
            front.push(Seq::empty())
        } else {
            front.drop_last().push(front.last().push(s.last()))
        }
    }
}

/// A text always has at least one piece.
pub proof fn lemma_split_nonempty(s: Seq<char>, c: char)
    ensures
        split_of(s, c).len() > 0,
    decreases s.len(),
{
    if s.len() > 0 {
        lemma_split_nonempty(s.drop_last(), c);
    }
}

/// `str::split` on one character.
pub fn split(s: &str, c: char) -> (r: Vec<String>)
    ensures
        texts(r@) == split_of(s@, c),
        r@.len() > 0,
{
    let v = chars_of(s);
    let mut r: Vec<String> = Vec::new();
    let mut current = String::new();
    let mut i: usize = 0;
    assert(v@.take(0) =~= Seq::empty());
    assert(texts(r@).push(current@) =~= split_of(v@.take(0), c));
    while i < v.len()
        invariant
            i <= v.len(),
            texts(r@).push(current@) == split_of(v@.take(i as int), c),
        decreases v.len() - i,
    {
        let ghost t = v@.take(i + 1);
        assert(t.drop_last() =~= v@.take(i as int));
        let ghost front = split_of(v@.take(i as int), c);
        assert(front.drop_last() =~= texts(r@));
        let x = v[i];
        if x == c {
            let ghost before = r@;
            r.push(current);
            assert(texts(r@) =~= front);
            current = String::new();
            assert(texts(r@).push(current@) =~= split_of(t, c));
        } else {
            current.push(x);
            assert(texts(r@).push(current@) =~= split_of(t, c));
        }
        i += 1;
    }
    assert(v@.take(v@.len() as int) =~= v@);
    let ghost before = r@;
    r.push(current);
    assert(texts(r@) =~= texts(before).push(current@));
    r
}

/// Whether a text holds a character.
pub fn has_char(v: &[char], c: char) -> (found: bool)
    ensures
        found == v@.contains(c),
{
    let mut i: usize = 0;
    while i < v.len()
        invariant
            i <= v.len(),
            forall|j: int| 0 <= j < i ==> v@[j] != c,
        decreases v.len() - i,
    {
        if v[i] == c {
            return true;
        }
        i += 1;
    }
    false
}

/// Whether `t` stands in `s` at position `i`.
pub open spec fn stands_at(s: Seq<char>, t: Seq<char>, i: int) -> bool {
    0 <= i && i + t.len() <= s.len() && s.subrange(i, i + t.len()) == t
}

/// Whether `t` occurs somewhere in `s`.
pub open spec fn occurs_in(s: Seq<char>, t: Seq<char>) -> bool {
    exists|i: int| stands_at(s, t, i)
}

/// Whether `s` begins with `t`.
pub open spec fn begins_with(s: Seq<char>, t: Seq<char>) -> bool {
    stands_at(s, t, 0)
}

/// Whether `s` ends with `t`.
pub open spec fn finishes_with(s: Seq<char>, t: Seq<char>) -> bool {
    stands_at(s, t, s.len() - t.len())
}

/// Whether `t` stands in `s` at position `i`.
pub fn found_at(s: &[char], t: &[char], i: usize) -> (r: bool)
    ensures
        r == stands_at(s@, t@, i as int),
{
    if i > s.len() || t.len() > s.len() - i {
        return false;
    }
    let mut k: usize = 0;
    while k < t.len()
        invariant
            k <= t.len(),
            i + t.len() <= s.len(),
            forall|j: int| 0 <= j < k ==> s@[i + j] == t@[j],
        decreases t.len() - k,
    {
        if s[i + k] != t[k] {
            assert(s@.subrange(i as int, i + t@.len())[k as int] != t@[k as int]);
            return false;
        }
        k += 1;
    }
    assert(s@.subrange(i as int, i + t@.len()) =~= t@);
    true
}

/// `str::contains`.
pub fn contains_chars(s: &[char], t: &[char]) -> (r: bool)
    ensures
        r == occurs_in(s@, t@),
{
    if t.len() > s.len() {
        return false;
    }
    let mut i: usize = 0;
    let last: usize = s.len() - t.len();
    loop
        invariant
            i <= last,
            last == s.len() - t.len(),
            forall|j: int| 0 <= j < i ==> !stands_at(s@, t@, j),
        decreases last - i,
    {
        if found_at(s, t, i) {
            return true;
        }
        if i == last {
            assert forall|j: int| !stands_at(s@, t@, j) by {}
            return false;
        }
        i += 1;
    }
}

/// `str::contains`.
pub fn contains(s: &str, t: &str) -> (r: bool)
    ensures
        r == occurs_in(s@, t@),
{
    let a = chars_of(s);
    let b = chars_of(t);
    contains_chars(a.as_slice(), b.as_slice())
}

/// `str::starts_with`.
pub fn starts_with(s: &str, t: &str) -> (r: bool)
    ensures
        r == begins_with(s@, t@),
{
    let a = chars_of(s);
    let b = chars_of(t);
    found_at(a.as_slice(), b.as_slice(), 0)
}

/// `str::ends_with`.
pub fn ends_with(s: &str, t: &str) -> (r: bool)
    ensures
        r == finishes_with(s@, t@),
{
    let a = chars_of(s);
    let b = chars_of(t);
    if b.len() > a.len() {
        return false;
    }
    found_at(a.as_slice(), b.as_slice(), a.len() - b.len())
}

/// What follows the prefix `t` of `s`, where `s` begins with it.
pub open spec fn after_prefix(s: Seq<char>, t: Seq<char>) -> Option<Seq<char>> {
    if begins_with(s, t) {
        Some(s.skip(t.len() as int))
    } else {
        None
    }
}

/// `str::strip_prefix`.
pub fn strip_prefix(s: &str, t: &str) -> (r: Option<String>)
    ensures
        opt_text(r) == after_prefix(s@, t@),
{
    let a = chars_of(s);
    let b = chars_of(t);
    if found_at(a.as_slice(), b.as_slice(), 0) {
        assert(a@.subrange(b@.len() as int, a@.len() as int) =~= a@.skip(b@.len() as int));
        Some(string_of(slice_subrange(a.as_slice(), b.len(), a.len())))
    } else {
        None
    }
}

// ---------------------------------------------------------------------------
// Order
// ---------------------------------------------------------------------------

/// The order of texts: character by character, a proper prefix first.
pub open spec fn text_less(a: Seq<char>, b: Seq<char>) -> bool
    decreases a.len(),
{
    if b.len() == 0 {
        false
    } else if a.len() == 0 {
        true
    } else if a[0] != b[0] {
        a[0] < b[0]
    } else {
        text_less(a.skip(1), b.skip(1))
    }
}

/// Whether `a` comes before `b` in the order of texts.
pub fn less_chars(a: &[char], b: &[char]) -> (r: bool)
    ensures
        r == text_less(a@, b@),
{
    let mut i: usize = 0;
    assert(a@.skip(0) =~= a@);
    assert(b@.skip(0) =~= b@);
    while i < a.len() && i < b.len() && a[i] == b[i]
        invariant
            i <= a.len(),
            i <= b.len(),
            text_less(a@, b@) == text_less(a@.skip(i as int), b@.skip(i as int)),
        decreases a.len() - i,
    {
        assert(a@.skip(i as int).skip(1) =~= a@.skip(i + 1));
        assert(b@.skip(i as int).skip(1) =~= b@.skip(i + 1));
        i += 1;
    }
    if i == b.len() {
        false
    } else if i == a.len() {
        true
    } else {
        a[i] < b[i]
    }
}

/// `<` on strings.
pub fn less(a: &str, b: &str) -> (r: bool)
    ensures
        r == text_less(a@, b@),
{
    let x = chars_of(a);
    let y = chars_of(b);
    less_chars(x.as_slice(), y.as_slice())
}

} // verus!
