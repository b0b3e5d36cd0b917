//! Process identifiers: GUIDs and their written forms.

use crate::text::string_of;
use vstd::prelude::*;

verus! {

/// Unique process identifier: the 16 bytes of a Sysmon ProcessGuid, in the
/// order of its written form "817bddf3-3514-65cc-0802-000000001900".
pub type ProcessGuid = [u8; 16];

/// Why a text is no GUID, as `uuid` tells it.
#[verifier::external_type_specification]
#[verifier::external_body]
pub struct ExUuidError(uuid::Error);

// ---------------------------------------------------------------------------
// Written forms
// ---------------------------------------------------------------------------

/// Whether a character is a hexadecimal digit.
pub open spec fn is_hex(c: char) -> bool {
    ('0' <= c && c <= '9') || ('a' <= c && c <= 'f') || ('A' <= c && c <= 'F')
}

/// The value of a hexadecimal digit.
pub open spec fn hex_value(c: char) -> int {
    if '0' <= c && c <= '9' {
        c as int - '0' as int
    } else if 'a' <= c && c <= 'f' {
        c as int - 'a' as int + 10
    } else {
        c as int - 'A' as int + 10
    }
}

/// The digit of a value below sixteen, in lower case.
pub open spec fn hex_char(d: int) -> char {
    if d < 10 {
        ('0' as int + d) as char
    } else {
        ('a' as int + d - 10) as char
    }
}

/// The 16 bytes that 32 hexadecimal digits write.
pub open spec fn simple_form(s: Seq<char>) -> Option<Seq<u8>> {
    if s.len() == 32 && (forall|i: int| 0 <= i < 32 ==> is_hex(#[trigger] s[i])) {
        Some(Seq::new(16, |i: int| (hex_value(s[2 * i]) * 16 + hex_value(s[2 * i + 1])) as u8))
    } else {
        None
    }
}

/// The 36 characters of a hyphenated GUID without its four hyphens.
pub open spec fn without_hyphens(s: Seq<char>) -> Seq<char> {
    s.subrange(0, 8) + s.subrange(9, 13) + s.subrange(14, 18) + s.subrange(19, 23) + s.subrange(
        24,
        36,
    )
}

/// The bytes of a hyphenated GUID: groups of 8, 4, 4, 4 and 12 digits.
pub open spec fn hyphenated_form(s: Seq<char>) -> Option<Seq<u8>> {
    if s.len() == 36 && s[8] == '-' && s[13] == '-' && s[18] == '-' && s[23] == '-' {
        simple_form(without_hyphens(s))
    } else {
        None
    }
}

/// Whether `s` begins with "urn:uuid:", in letters of either case.
pub open spec fn urn_prefix(s: Seq<char>) -> bool {
    s.len() >= 9 && (s[0] == 'u' || s[0] == 'U') && (s[1] == 'r' || s[1] == 'R') && (s[2] == 'n'
        || s[2] == 'N') && s[3] == ':' && (s[4] == 'u' || s[4] == 'U') && (s[5] == 'u' || s[5]
        == 'U') && (s[6] == 'i' || s[6] == 'I') && (s[7] == 'd' || s[7] == 'D') && s[8] == ':'
}

/// The bytes of a written GUID: 32 digits, or a hyphenated GUID, plain, in
/// braces or as a URN.
pub open spec fn guid_of(s: Seq<char>) -> Option<Seq<u8>> {
    if s.len() == 32 {
        simple_form(s)
    } else if s.len() == 36 {
        hyphenated_form(s)
    } else if s.len() == 38 && s[0] == '{' && s[37] == '}' {
        hyphenated_form(s.subrange(1, 37))
    } else if s.len() == 45 && urn_prefix(s) {
        hyphenated_form(s.subrange(9, 45))
    } else {
        None
    }
}

/// The 32 digits of a GUID, in lower case.
pub open spec fn digits_text(b: Seq<u8>) -> Seq<char> {
    Seq::new(
        32,
        |i: int|
            if i % 2 == 0 {
                hex_char(b[i / 2] as int / 16)
            } else {
                hex_char(b[i / 2] as int % 16)
            },
    )
}

/// The hyphenated form of a GUID, in lower case.
pub open spec fn hyphenated_text(b: Seq<u8>) -> Seq<char> {
    let d = digits_text(b);
    d.subrange(0, 8) + seq!['-'] + d.subrange(8, 12) + seq!['-'] + d.subrange(12, 16) + seq!['-']
        + d.subrange(16, 20) + seq!['-'] + d.subrange(20, 32)
}

/// The bytes of a GUID that Windows stores with its first three groups
/// little-endian, in the order of the written form.
pub open spec fn reordered(b: Seq<u8>) -> Seq<u8> {
    seq![
        b[3],
        b[2],
        b[1],
        b[0],
        b[5],
        b[4],
        b[7],
        b[6],
        b[8],
        b[9],
        b[10],
        b[11],
        b[12],
        b[13],
        b[14],
        b[15],
    ]
}

// ---------------------------------------------------------------------------
// Reading and writing
// ---------------------------------------------------------------------------

/// Why a text that is none of the forms of `guid_of` is no GUID.
pub uninterp spec fn uuid_error(s: Seq<char>) -> uuid::Error;

/// `uuid::Uuid::parse_str` reads the forms of `guid_of` and no others. The error
/// that it gives for any other text depends on the text alone and goes by the
/// name `uuid_error`.
#[verifier::external_body]
pub(crate) fn parse_uuid(s: &str) -> (r: Result<ProcessGuid, uuid::Error>)
    ensures
        match r {
            Ok(g) => guid_of(s@) == Some(g@),
            Err(e) => guid_of(s@) is None && e == uuid_error(s@),
        },
{
    uuid::Uuid::parse_str(s).map(|u| *u.as_bytes())
}

/// `uuid::Uuid::from_bytes_le` takes the bytes as Windows stores them, and the
/// `Display` of a `Uuid` writes the hyphenated form in lower case.
#[verifier::external_body]
pub(crate) fn stored_guid_text(bytes: [u8; 16]) -> (s: String)
    ensures
        s@ == hyphenated_text(reordered(bytes@)),
{
    uuid::Uuid::from_bytes_le(bytes).to_string()
}

/// Whether two process identifiers are the same.
pub fn guid_eq(a: &ProcessGuid, b: &ProcessGuid) -> (same: bool)
    ensures
        same == (*a == *b),
{
    let mut i: usize = 0;
    while i < 16
        invariant
            i <= 16,
            forall|j: int| 0 <= j < i ==> a@[j] == b@[j],
        decreases 16 - i,
    {
        if a[i] != b[i] {
            return false;
        }
        i += 1;
    }
    assert(*a =~= *b);
    true
}

/// Whether two optional process identifiers are the same.
pub fn opt_guid_eq(a: &Option<ProcessGuid>, b: &Option<ProcessGuid>) -> (same: bool)
    ensures
        same == (*a == *b),
{
    match (a, b) {
        (Some(x), Some(y)) => guid_eq(x, y),
        (None, None) => true,
        _ => false,
    }
}

/// Whether a list of process identifiers holds `g`.
pub fn has_guid(list: &Vec<ProcessGuid>, g: &ProcessGuid) -> (found: bool)
    ensures
        found == list@.contains(*g),
{
    let mut i: usize = 0;
    while i < list.len()
        invariant
            i <= list.len(),
            forall|j: int| 0 <= j < i ==> list@[j] != *g,
        decreases list.len() - i,
    {
        if guid_eq(&list[i], g) {
            return true;
        }
        i += 1;
    }
    false
}

/// The lower-case character of a hexadecimal digit.
fn hex_digit(d: u8) -> (c: char)
    requires
        d < 16,
    ensures
        c == hex_char(d as int),
{
    if d < 10 {
        (48u8 + d) as char
    } else {
        (87u8 + d) as char
    }
}

/// The 32 digits of a GUID, in lower case.
pub fn guid_hex(guid: &ProcessGuid) -> (s: String)
    ensures
        s@ == digits_text(guid@),
{
    let mut out: Vec<char> = Vec::new();
    let mut i: usize = 0;
    while i < 16
        invariant
            i <= 16,
            out@.len() == 2 * i,
            forall|k: int| 0 <= k < 2 * i ==> out@[k] == digits_text(guid@)[k],
        decreases 16 - i,
    {
        let b: u8 = guid[i];
        out.push(hex_digit(b / 16));
        out.push(hex_digit(b % 16));
        i += 1;
    }
    assert(out@ =~= digits_text(guid@));
    string_of(out.as_slice())
}

/// The bytes of a GUID in lower-case hexadecimal, each without leading zero.
pub open spec fn bytes_text(b: Seq<u8>) -> Seq<char>
    decreases b.len(),
{
    if b.len() == 0 {
        Seq::empty()
    } else {
        let front = bytes_text(b.drop_last());
        let n = b.last() as int;
        if n < 16 {
            front.push(hex_char(n))
        } else {
            front.push(hex_char(n / 16)).push(hex_char(n % 16))
        }
    }
}

/// The bytes of a GUID in lower-case hexadecimal, each without leading zero.
pub fn guid_bytes(guid: &ProcessGuid) -> (s: String)
    ensures
        s@ == bytes_text(guid@),
{
    let mut out: Vec<char> = Vec::new();
    let mut i: usize = 0;
    assert(guid@.take(0) =~= Seq::empty());
    while i < 16
        invariant
            i <= 16,
            out@ == bytes_text(guid@.take(i as int)),
        decreases 16 - i,
    {
        assert(guid@.take(i + 1).drop_last() =~= guid@.take(i as int));
        assert(guid@.take(i + 1).last() == guid@[i as int]);
        let b: u8 = guid[i];
        if b >= 16 {
            out.push(hex_digit(b / 16));
        }
        out.push(hex_digit(b % 16));
        i += 1;
    }
    assert(guid@.take(16) =~= guid@);
    string_of(out.as_slice())
}

// ---------------------------------------------------------------------------
// Laws
// ---------------------------------------------------------------------------

/// The lower-case digit of a value writes that value.
proof fn lemma_hex_char(d: int)
    requires
        0 <= d < 16,
    ensures
        is_hex(hex_char(d)),
        hex_value(hex_char(d)) == d,
{
}

/// A GUID survives being written in hyphenated form and read again.
pub proof fn law_hyphenated_reads_back(b: Seq<u8>)
    requires
        b.len() == 16,
    ensures
        guid_of(hyphenated_text(b)) == Some(b),
{
    let d = digits_text(b);
    let t = hyphenated_text(b);
    assert(t.len() == 36);
    assert(without_hyphens(t) =~= d);
    assert forall|i: int| 0 <= i < 32 implies is_hex(#[trigger] d[i]) by {
        lemma_hex_char(b[i / 2] as int / 16);
        lemma_hex_char(b[i / 2] as int % 16);
    }
    let read = simple_form(d)->Some_0;
    assert forall|i: int| 0 <= i < 16 implies #[trigger] read[i] == b[i] by {
        lemma_hex_char(b[i] as int / 16);
        lemma_hex_char(b[i] as int % 16);
        assert((2 * i) / 2 == i && (2 * i + 1) / 2 == i);
        assert(d[2 * i] == hex_char(b[i] as int / 16));
        assert(d[2 * i + 1] == hex_char(b[i] as int % 16));
    }
    assert(read =~= b);
}

/// Braces round a hyphenated GUID do not change what it reads as.
pub proof fn law_braces_are_optional(s: Seq<char>)
    requires
        s.len() == 36,
    ensures
        guid_of(seq!['{'] + s + seq!['}']) == guid_of(s),
{
    let t = seq!['{'] + s + seq!['}'];
    assert(t.subrange(1, 37) =~= s);
}

} // verus!
