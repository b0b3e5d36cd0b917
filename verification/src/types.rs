//! Shared types: timestamps, MITRE references and reading errors.

use crate::guid::{guid_eq, guid_of, parse_uuid, uuid_error, ProcessGuid};
use crate::text::{
    after_prefix, begins_with, opt_text, same_text, split, split_of, strip_prefix, texts, trim, trim_of,
};
use vstd::prelude::*;

verus! {

// ---------------------------------------------------------------------------
// Timestamps
// ---------------------------------------------------------------------------

/// A UTC instant: seconds since 1970 and nanoseconds within the second. In a
/// leap second the nanoseconds go on past a thousand million.
#[derive(Debug, Clone, Copy, PartialEq, Eq, Hash, Structural)]
pub struct Timestamp {
    pub secs: i64,
    pub nanos: u32,
}

impl Timestamp {
    /// Whether `self` is earlier than `other`.
    pub open spec fn earlier(self, other: Timestamp) -> bool {
        self.secs < other.secs || (self.secs == other.secs && self.nanos < other.nanos)
    }

    /// Whether `self` is earlier than `other`.
    pub fn before(&self, other: &Timestamp) -> (r: bool)
        ensures
            r == self.earlier(*other),
    {
        self.secs < other.secs || (self.secs == other.secs && self.nanos < other.nanos)
    }
}

// ---------------------------------------------------------------------------
// Errors
// ---------------------------------------------------------------------------

/// Why a text is no JSON of the expected shape, as `serde_json` tells it.
#[verifier::external_type_specification]
#[verifier::external_body]
pub struct ExJsonError(serde_json::Error);

/// Errors produced while reading a log.
#[allow(inconsistent_fields)]
pub enum ParseError {
    /// The record on a line could not be read.
    TopLevelDeserialize { line: u64, source: serde_json::Error },
    /// The payload of a record could not be read.
    PayloadDeserialize { line: u64, source: serde_json::Error },
    /// A record lacks a field that it needs.
    MissingField { line: u64, field: String },
    /// A field that should hold a GUID holds something else.
    InvalidGuid { line: u64, guid: String, source: uuid::Error },
    /// A timestamp is in none of the known forms.
    InvalidTimestamp { line: u64, value: String, source: String },
    /// A row of a CSV file could not be read.
    CsvRowError { line: u64, message: String },
}

/// What an error reports.
#[allow(inconsistent_fields)]
pub enum Complaint {
    TopLevelDeserialize { line: u64, source: serde_json::Error },
    PayloadDeserialize { line: u64, source: serde_json::Error },
    MissingField { line: u64, field: Seq<char> },
    InvalidGuid { line: u64, guid: Seq<char>, source: uuid::Error },
    InvalidTimestamp { line: u64, value: Seq<char>, source: Seq<char> },
    CsvRowError { line: u64, message: Seq<char> },
}

impl ParseError {
    /// What the error reports.
    pub open spec fn view(&self) -> Complaint {
        match self {
            ParseError::TopLevelDeserialize { line, source } => Complaint::TopLevelDeserialize {
                line: *line,
                source: *source,
            },
            ParseError::PayloadDeserialize { line, source } => Complaint::PayloadDeserialize {
                line: *line,
                source: *source,
            },
            ParseError::MissingField { line, field } => Complaint::MissingField {
                line: *line,
                field: field@,
            },
            ParseError::InvalidGuid { line, guid, source } => Complaint::InvalidGuid {
                line: *line,
                guid: guid@,
                source: *source,
            },
            ParseError::InvalidTimestamp { line, value, source } => Complaint::InvalidTimestamp {
                line: *line,
                value: value@,
                source: source@,
            },
            ParseError::CsvRowError { line, message } => Complaint::CsvRowError {
                line: *line,
                message: message@,
            },
        }
    }
}

/// What a list of errors reports.
pub open spec fn complaints(errors: Seq<ParseError>) -> Seq<Complaint> {
    errors.map_values(|e: ParseError| e@)
}

/// Whether errors were only added: those of before stand first, as they were.
pub open spec fn only_added(before: Seq<ParseError>, after: Seq<ParseError>) -> bool {
    before.len() <= after.len() && forall|i: int|
        0 <= i < before.len() ==> after[i] == #[trigger] before[i]
}

// ---------------------------------------------------------------------------
// GUIDs
// ---------------------------------------------------------------------------

/// Reads a Sysmon GUID ("817bddf3-3514-65cc-0802-000000001900") into 16 bytes.
pub fn parse_guid(s: &str) -> (r: Result<ProcessGuid, uuid::Error>)
    ensures
        match r {
            Ok(g) => guid_of(s@) == Some(g@),
            Err(e) => guid_of(s@) is None && e == uuid_error(s@),
        },
{
    parse_uuid(s)
}

/// What a GUID field says: nothing where it is blank, a dash or the all-zeros
/// GUID, with which Sysmon marks a missing parent; where it is no GUID, the error
/// of reading it without the white space around it.
pub open spec fn guid_field(s: Seq<char>) -> Result<Option<Seq<u8>>, uuid::Error> {
    let t = trim_of(s);
    if t.len() == 0 || t == "-"@ {
        Ok(None)
    } else {
        match guid_of(t) {
            Some(b) => if b == Seq::new(16, |i: int| 0u8) {
                Ok(None)
            } else {
                Ok(Some(b))
            },
            None => Err(uuid_error(t)),
        }
    }
}

/// Whether a GUID field gives the GUID with the given bytes.
pub open spec fn is_field_value(s: Seq<char>, g: Seq<u8>) -> bool {
    guid_field(s) == Ok::<Option<Seq<u8>>, uuid::Error>(Some(g))
}

/// Whether a GUID field is not readable, for the given reason.
pub open spec fn is_field_error(s: Seq<char>, e: uuid::Error) -> bool {
    guid_field(s) == Err::<Option<Seq<u8>>, uuid::Error>(e)
}

/// The bytes of an optional GUID.
pub open spec fn opt_bytes(g: Option<ProcessGuid>) -> Option<Seq<u8>> {
    match g {
        Some(b) => Some(b@),
        None => None,
    }
}

/// Reads a Sysmon GUID field; empty and missing values are no error.
pub fn parse_guid_opt(s: &str) -> (r: Result<Option<ProcessGuid>, uuid::Error>)
    ensures
        match r {
            Ok(g) => guid_field(s@) == Ok::<Option<Seq<u8>>, uuid::Error>(opt_bytes(g)),
            Err(e) => guid_field(s@) == Err::<Option<Seq<u8>>, uuid::Error>(e),
        },
{
    let trimmed = trim(s);
    if trimmed.as_str().is_empty() || same_text(trimmed.as_str(), "-") {
        return Ok(None);
    }
    match parse_guid(trimmed.as_str()) {
        Err(e) => Err(e),
        Ok(guid) => {
            let zero: ProcessGuid = [0u8; 16];
            assert(zero@ =~= Seq::new(16, |i: int| 0u8));
            if guid_eq(&guid, &zero) {
                Ok(None)
            } else {
                assert(guid@ != zero@) by {
                    if guid@ == zero@ {
                        assert(guid =~= zero);
                    }
                }
                Ok(Some(guid))
            }
        },
    }
}

/// A GUID field reads as the text in it without the white space around it, apart
/// from the values that say nothing; it never gives the all-zeros GUID.
pub proof fn law_guid_field_reads_the_trimmed_text(s: Seq<char>)
    ensures
        ({
            let t = trim_of(s);
            let zero = Seq::new(16, |i: int| 0u8);
            &&& guid_field(s) == Ok::<Option<Seq<u8>>, uuid::Error>(None) <==> t.len() == 0 || t
                == "-"@ || guid_of(t) == Some(zero)
            &&& forall|g: Seq<u8>| #[trigger]
                is_field_value(s, g) <==> guid_of(t) == Some(g) && g != zero
            &&& forall|e: uuid::Error| #[trigger]
                is_field_error(s, e) <==> t.len() > 0 && t != "-"@ && guid_of(t) is None && e
                    == uuid_error(t)
        }),
{
    reveal_strlit("-");
}

// ---------------------------------------------------------------------------
// MITRE ATT&CK
// ---------------------------------------------------------------------------

/// A MITRE ATT&CK technique named in the Sysmon RuleName field.
#[derive(Debug, Clone, PartialEq, Eq)]
pub struct MitreTechnique<S = String> {
    /// e.g. "T1189"
    pub id: S,
    /// e.g. "Drive-by Compromise"
    pub name: S,
}

impl MitreTechnique {
    /// The technique, as text.
    pub open spec fn view(&self) -> MitreTechnique<Seq<char>> {
        MitreTechnique { id: self.id@, name: self.name@ }
    }
}

/// The technique of an optional reference, as text.
pub open spec fn opt_mitre(m: Option<MitreTechnique>) -> Option<MitreTechnique<Seq<char>>> {
    match m {
        Some(t) => Some(t@),
        None => None,
    }
}

/// The value that the parts of a rule name give for `key`: what follows the key
/// in the last part that begins with it, without white space around.
pub open spec fn rule_value(parts: Seq<Seq<char>>, key: Seq<char>) -> Option<Seq<char>>
    decreases parts.len(),
{
    if parts.len() == 0 {
        None
    } else {
        match after_prefix(trim_of(parts.last()), key) {
            Some(v) => Some(trim_of(v)),
            None => rule_value(parts.drop_last(), key),
        }
    }
}

/// The technique that a rule name refers to: "technique_id=..." and
/// "technique_name=..." among its comma-separated parts, in any order.
pub open spec fn mitre_of(rule_name: Seq<char>) -> Option<MitreTechnique<Seq<char>>> {
    let parts = split_of(rule_name, ',');
    match (rule_value(parts, "technique_id="@), rule_value(parts, "technique_name="@)) {
        (Some(id), Some(name)) => Some(MitreTechnique { id, name }),
        _ => None,
    }
}

/// No text begins with both keys.
proof fn lemma_keys_differ(s: Seq<char>)
    ensures
        !(after_prefix(s, "technique_id="@) is Some && after_prefix(s, "technique_name="@) is Some),
{
    reveal_strlit("technique_id=");
    reveal_strlit("technique_name=");
    let a = "technique_id="@;
    let b = "technique_name="@;
    if begins_with(s, a) && begins_with(s, b) {
        assert(s.subrange(0, a.len() as int)[10] == a[10]);
        assert(s.subrange(0, b.len() as int)[10] == b[10]);
    }
}

/// Reads a MITRE technique reference from a rule name of the form
/// `technique_id=T1189,technique_name=Drive-by Compromise`.
pub fn parse_mitre_rule_name(rule_name: &str) -> (r: Option<MitreTechnique>)
    ensures
        opt_mitre(r) == mitre_of(rule_name@),
{
    let parts = split(rule_name, ',');
    let ghost all = texts(parts@);
    let mut id: Option<String> = None;
    let mut name: Option<String> = None;
    let mut i: usize = 0;
    while i < parts.len()
        invariant
            i <= parts.len(),
            all == texts(parts@),
            opt_text(id) == rule_value(all.take(i as int), "technique_id="@),
            opt_text(name) == rule_value(all.take(i as int), "technique_name="@),
        decreases parts.len() - i,
    {
        let part = trim(parts[i].as_str());
        proof {
            assert(all.take(i + 1).drop_last() =~= all.take(i as int));
            assert(all.take(i + 1).last() == parts@[i as int]@);
            lemma_keys_differ(part@);
        }
        match strip_prefix(part.as_str(), "technique_id=") {
            Some(v) => {
                id = Some(trim(v.as_str()));
            },
            None => match strip_prefix(part.as_str(), "technique_name=") {
                Some(v) => {
                    name = Some(trim(v.as_str()));
                },
                None => {},
            },
        }
        i += 1;
    }
    assert(all.take(all.len() as int) =~= all);
    match (id, name) {
        (Some(id), Some(name)) => Some(MitreTechnique { id, name }),
        _ => None,
    }
}

} // verus!
