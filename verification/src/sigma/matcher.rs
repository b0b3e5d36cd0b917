//! Evaluation of Sigma rules against events.

use crate::event::{DetailText, EventDetail, EventText, SysmonEvent};
use crate::event_store::{positions, EventStore, Group};
use crate::guid::ProcessGuid;
use crate::interner::{resolve, SharedRodeo};
use crate::numbers::{bool_text, bool_word, decimal, decimal_text};
use crate::parser::{all_held, text_field};
use crate::process_tree::resolve_opt;
use crate::sigma::condition::{conditions, lemma_parts, Condition, ConditionExpr};
use crate::sigma::rule::{
    selections_text, MatchText, Modifier, SigmaFieldMatch, SigmaLevel, SigmaRule, SigmaSelection,
};
use crate::sigma::{category_events, category_to_event_ids};
use crate::text::{
    begins_with, chars_of, clone_opt, contains, ends_with, finishes_with, lowercase, occurs_in,
    opt_text, same_text, starts_with, string_of, to_lowercase,
};
use crate::textmap::TextMap;
use crate::types::Timestamp;
use vstd::prelude::*;

verus! {

// ---------------------------------------------------------------------------
// Fields
// ---------------------------------------------------------------------------

/// A number as text, where there is one.
pub open spec fn number_word(n: Option<u16>) -> Option<Seq<char>> {
    match n {
        Some(n) => Some(decimal(n as nat)),
        None => None,
    }
}

/// A truth value as text, where there is one.
pub open spec fn truth_word(b: Option<bool>) -> Option<Seq<char>> {
    match b {
        Some(b) => Some(bool_word(b)),
        None => None,
    }
}

/// The field of a detail payload that a rule names, where the payload has it.
pub open spec fn detail_field(d: DetailText, field: Seq<char>) -> Option<Seq<char>> {
    match d {
        EventDetail::ProcessCreate {
            command_line,
            current_directory,
            hashes,
            parent_image,
            parent_command_line,
            parent_user,
            integrity_level,
            file_version,
            description,
            product,
            company,
            original_file_name,
            ..
        } => {
            if field == "CommandLine"@ {
                command_line
            } else if field == "CurrentDirectory"@ {
                current_directory
            } else if field == "Hashes"@ {
                hashes
            } else if field == "ParentImage"@ {
                parent_image
            } else if field == "ParentCommandLine"@ {
                parent_command_line
            } else if field == "ParentUser"@ {
                parent_user
            } else if field == "IntegrityLevel"@ {
                integrity_level
            } else if field == "FileVersion"@ {
                file_version
            } else if field == "Description"@ {
                description
            } else if field == "Product"@ {
                product
            } else if field == "Company"@ {
                company
            } else if field == "OriginalFileName"@ {
                original_file_name
            } else {
                None
            }
        },
        EventDetail::NetworkConnect {
            protocol,
            source_ip,
            source_hostname,
            destination_ip,
            destination_hostname,
            source_port,
            destination_port,
            initiated,
        } => {
            if field == "Protocol"@ {
                protocol
            } else if field == "SourceIp"@ {
                source_ip
            } else if field == "SourceHostname"@ {
                source_hostname
            } else if field == "DestinationIp"@ {
                destination_ip
            } else if field == "DestinationHostname"@ {
                destination_hostname
            } else if field == "SourcePort"@ {
                number_word(source_port)
            } else if field == "DestinationPort"@ {
                number_word(destination_port)
            } else if field == "Initiated"@ {
                truth_word(initiated)
            } else {
                None
            }
        },
        EventDetail::ProcessAccess {
            source_image,
            target_image,
            granted_access,
            call_trace,
            ..
        } => {
            if field == "SourceImage"@ {
                source_image
            } else if field == "TargetImage"@ {
                target_image
            } else if field == "GrantedAccess"@ {
                granted_access
            } else if field == "CallTrace"@ {
                call_trace
            } else {
                None
            }
        },
        EventDetail::CreateRemoteThread {
            source_image,
            target_image,
            start_address,
            start_module,
            start_function,
            ..
        } => {
            if field == "SourceImage"@ {
                source_image
            } else if field == "TargetImage"@ {
                target_image
            } else if field == "StartAddress"@ {
                start_address
            } else if field == "StartModule"@ {
                start_module
            } else if field == "StartFunction"@ {
                start_function
            } else {
                None
            }
        },
        EventDetail::FileCreate { target_filename, .. } => {
            if field == "TargetFilename"@ {
                target_filename
            } else {
                None
            }
        },
        EventDetail::FileCreateStreamHash { target_filename, .. } => {
            if field == "TargetFilename"@ {
                target_filename
            } else {
                None
            }
        },
        EventDetail::FileCreateTime { target_filename, .. } => {
            if field == "TargetFilename"@ {
                target_filename
            } else {
                None
            }
        },
        EventDetail::FileDeleteEvent { target_filename, hashes, is_executable } => {
            if field == "TargetFilename"@ {
                target_filename
            } else if field == "Hashes"@ {
                hashes
            } else if field == "IsExecutable"@ {
                truth_word(is_executable)
            } else {
                None
            }
        },
        EventDetail::RegistryEvent { event_type, target_object, details, new_name } => {
            if field == "EventType"@ {
                event_type
            } else if field == "TargetObject"@ {
                target_object
            } else if field == "Details"@ {
                details
            } else if field == "NewName"@ {
                new_name
            } else {
                None
            }
        },
        EventDetail::DnsQuery { query_name, query_status, query_results } => {
            if field == "QueryName"@ {
                query_name
            } else if field == "QueryStatus"@ {
                query_status
            } else if field == "QueryResults"@ {
                query_results
            } else {
                None
            }
        },
        EventDetail::PipeEvent { pipe_name, event_type } => {
            if field == "PipeName"@ {
                pipe_name
            } else if field == "EventType"@ {
                Some(event_type)
            } else {
                None
            }
        },
        EventDetail::DriverLoad { image_loaded, hashes, signature, signature_status } => {
            if field == "ImageLoaded"@ {
                image_loaded
            } else if field == "Hashes"@ {
                hashes
            } else if field == "Signature"@ {
                signature
            } else if field == "SignatureStatus"@ {
                signature_status
            } else {
                None
            }
        },
        EventDetail::ImageLoad { image_loaded, hashes, signature, signature_status, .. } => {
            if field == "ImageLoaded"@ {
                image_loaded
            } else if field == "Hashes"@ {
                hashes
            } else if field == "Signature"@ {
                signature
            } else if field == "SignatureStatus"@ {
                signature_status
            } else {
                None
            }
        },
        EventDetail::ProcessTampering { tampering_type } => {
            if field == "Type"@ {
                tampering_type
            } else {
                None
            }
        },
        EventDetail::ClipboardChange { session, client_info, hashes } => {
            if field == "Session"@ {
                session
            } else if field == "ClientInfo"@ {
                client_info
            } else if field == "Hashes"@ {
                hashes
            } else {
                None
            }
        },
        EventDetail::RawAccessRead { device } => {
            if field == "Device"@ {
                device
            } else {
                None
            }
        },
        EventDetail::WmiActivity { event_type, operation, name, query, .. } => {
            if field == "EventType"@ {
                Some(event_type)
            } else if field == "Operation"@ {
                operation
            } else if field == "Name"@ {
                name
            } else if field == "Query"@ {
                query
            } else {
                None
            }
        },
        EventDetail::Generic { fields } => text_field(fields, field),
        _ => None,
    }
}

/// The field of an event that a rule names: one that all events have, or one of
/// the detail payload.
pub open spec fn field_value(e: EventText, field: Seq<char>) -> Option<Seq<char>> {
    if field == "Image"@ {
        e.image
    } else if field == "User"@ {
        e.user
    } else if field == "Computer"@ {
        Some(e.computer)
    } else if field == "RuleName"@ {
        e.rule_name
    } else {
        detail_field(e.detail, field)
    }
}

fn number_text(n: &Option<u16>) -> (r: Option<String>)
    ensures
        opt_text(r) == number_word(*n),
{
    match n {
        Some(v) => Some(decimal_text(*v as u64)),
        None => None,
    }
}

fn truth_text(b: &Option<bool>) -> (r: Option<String>)
    ensures
        opt_text(r) == truth_word(*b),
{
    match b {
        Some(v) => Some(bool_text(*v)),
        None => None,
    }
}

/// The field of a detail payload that a rule names.
fn get_detail_field(detail: &EventDetail, field: &str) -> (r: Option<String>)
    ensures
        opt_text(r) == detail_field(detail@, field@),
{
    match detail {
        EventDetail::ProcessCreate {
            command_line,
            current_directory,
            hashes,
            parent_image,
            parent_command_line,
            parent_user,
            integrity_level,
            file_version,
            description,
            product,
            company,
            original_file_name,
            ..
        } => {
            if same_text(field, "CommandLine") {
                clone_opt(command_line)
            } else if same_text(field, "CurrentDirectory") {
                clone_opt(current_directory)
            } else if same_text(field, "Hashes") {
                clone_opt(hashes)
            } else if same_text(field, "ParentImage") {
                clone_opt(parent_image)
            } else if same_text(field, "ParentCommandLine") {
                clone_opt(parent_command_line)
            } else if same_text(field, "ParentUser") {
                clone_opt(parent_user)
            } else if same_text(field, "IntegrityLevel") {
                clone_opt(integrity_level)
            } else if same_text(field, "FileVersion") {
                clone_opt(file_version)
            } else if same_text(field, "Description") {
                clone_opt(description)
            } else if same_text(field, "Product") {
                clone_opt(product)
            } else if same_text(field, "Company") {
                clone_opt(company)
            } else if same_text(field, "OriginalFileName") {
                clone_opt(original_file_name)
            } else {
                None
            }
        },
        EventDetail::NetworkConnect {
            protocol,
            source_ip,
            source_hostname,
            destination_ip,
            destination_hostname,
            source_port,
            destination_port,
            initiated,
        } => {
            if same_text(field, "Protocol") {
                clone_opt(protocol)
            } else if same_text(field, "SourceIp") {
                clone_opt(source_ip)
            } else if same_text(field, "SourceHostname") {
                clone_opt(source_hostname)
            } else if same_text(field, "DestinationIp") {
                clone_opt(destination_ip)
            } else if same_text(field, "DestinationHostname") {
                clone_opt(destination_hostname)
            } else if same_text(field, "SourcePort") {
                number_text(source_port)
            } else if same_text(field, "DestinationPort") {
                number_text(destination_port)
            } else if same_text(field, "Initiated") {
                truth_text(initiated)
            } else {
                None
            }
        },
        EventDetail::ProcessAccess {
            source_image,
            target_image,
            granted_access,
            call_trace,
            ..
        } => {
            if same_text(field, "SourceImage") {
                clone_opt(source_image)
            } else if same_text(field, "TargetImage") {
                clone_opt(target_image)
            } else if same_text(field, "GrantedAccess") {
                clone_opt(granted_access)
            } else if same_text(field, "CallTrace") {
                clone_opt(call_trace)
            } else {
                None
            }
        },
        EventDetail::CreateRemoteThread {
            source_image,
            target_image,
            start_address,
            start_module,
            start_function,
            ..
        } => {
            if same_text(field, "SourceImage") {
                clone_opt(source_image)
            } else if same_text(field, "TargetImage") {
                clone_opt(target_image)
            } else if same_text(field, "StartAddress") {
                clone_opt(start_address)
            } else if same_text(field, "StartModule") {
                clone_opt(start_module)
            } else if same_text(field, "StartFunction") {
                clone_opt(start_function)
            } else {
                None
            }
        },
        EventDetail::FileCreate { target_filename, .. } => {
            if same_text(field, "TargetFilename") {
                clone_opt(target_filename)
            } else {
                None
            }
        },
        EventDetail::FileCreateStreamHash { target_filename, .. } => {
            if same_text(field, "TargetFilename") {
                clone_opt(target_filename)
            } else {
                None
            }
        },
        EventDetail::FileCreateTime { target_filename, .. } => {
            if same_text(field, "TargetFilename") {
                clone_opt(target_filename)
            } else {
                None
            }
        },
        EventDetail::FileDeleteEvent { target_filename, hashes, is_executable } => {
            if same_text(field, "TargetFilename") {
                clone_opt(target_filename)
            } else if same_text(field, "Hashes") {
                clone_opt(hashes)
            } else if same_text(field, "IsExecutable") {
                truth_text(is_executable)
            } else {
                None
            }
        },
        EventDetail::RegistryEvent { event_type, target_object, details, new_name } => {
            if same_text(field, "EventType") {
                clone_opt(event_type)
            } else if same_text(field, "TargetObject") {
                clone_opt(target_object)
            } else if same_text(field, "Details") {
                clone_opt(details)
            } else if same_text(field, "NewName") {
                clone_opt(new_name)
            } else {
                None
            }
        },
        EventDetail::DnsQuery { query_name, query_status, query_results } => {
            if same_text(field, "QueryName") {
                clone_opt(query_name)
            } else if same_text(field, "QueryStatus") {
                clone_opt(query_status)
            } else if same_text(field, "QueryResults") {
                clone_opt(query_results)
            } else {
                None
            }
        },
        EventDetail::PipeEvent { pipe_name, event_type } => {
            if same_text(field, "PipeName") {
                clone_opt(pipe_name)
            } else if same_text(field, "EventType") {
                Some(event_type.clone())
            } else {
                None
            }
        },
        EventDetail::DriverLoad { image_loaded, hashes, signature, signature_status } => {
            if same_text(field, "ImageLoaded") {
                clone_opt(image_loaded)
            } else if same_text(field, "Hashes") {
                clone_opt(hashes)
            } else if same_text(field, "Signature") {
                clone_opt(signature)
            } else if same_text(field, "SignatureStatus") {
                clone_opt(signature_status)
            } else {
                None
            }
        },
        EventDetail::ImageLoad { image_loaded, hashes, signature, signature_status, .. } => {
            if same_text(field, "ImageLoaded") {
                clone_opt(image_loaded)
            } else if same_text(field, "Hashes") {
                clone_opt(hashes)
            } else if same_text(field, "Signature") {
                clone_opt(signature)
            } else if same_text(field, "SignatureStatus") {
                clone_opt(signature_status)
            } else {
                None
            }
        },
        EventDetail::ProcessTampering { tampering_type } => {
            if same_text(field, "Type") {
                clone_opt(tampering_type)
            } else {
                None
            }
        },
        EventDetail::ClipboardChange { session, client_info, hashes } => {
            if same_text(field, "Session") {
                clone_opt(session)
            } else if same_text(field, "ClientInfo") {
                clone_opt(client_info)
            } else if same_text(field, "Hashes") {
                clone_opt(hashes)
            } else {
                None
            }
        },
        EventDetail::RawAccessRead { device } => {
            if same_text(field, "Device") {
                clone_opt(device)
            } else {
                None
            }
        },
        EventDetail::WmiActivity { event_type, operation, name, query, .. } => {
            if same_text(field, "EventType") {
                Some(event_type.clone())
            } else if same_text(field, "Operation") {
                clone_opt(operation)
            } else if same_text(field, "Name") {
                clone_opt(name)
            } else if same_text(field, "Query") {
                clone_opt(query)
            } else {
                None
            }
        },
        EventDetail::Generic { fields } => match fields.get(field) {
            Some(s) => Some(s.clone()),
            None => None,
        },
        _ => None,
    }
}

/// The field of an event that a rule names.
pub fn get_field_value(event: &SysmonEvent, field: &str, rodeo: &SharedRodeo) -> (r: Option<String>)
    requires
        event.held_by(*rodeo),
    ensures
        opt_text(r) == field_value(event.resolved(*rodeo), field@),
{
    if same_text(field, "Image") {
        resolve_opt(rodeo, &event.image)
    } else if same_text(field, "User") {
        resolve_opt(rodeo, &event.user)
    } else if same_text(field, "Computer") {
        Some(resolve(rodeo, &event.computer).to_owned())
    } else if same_text(field, "RuleName") {
        clone_opt(&event.rule_name)
    } else {
        get_detail_field(&event.detail, field)
    }
}

// ---------------------------------------------------------------------------
// Values
// ---------------------------------------------------------------------------

/// Whether a regular expression finds a match in a text; none where it is not
/// valid.
pub uninterp spec fn regex_match(pattern: Seq<char>, text: Seq<char>) -> Option<bool>;

/// `regex::Regex::new` and `Regex::is_match`.
#[verifier::external_body]
pub(crate) fn regex_find(pattern: &str, text: &str) -> (r: Option<bool>)
    ensures
        r == regex_match(pattern@, text@),
{
    regex::Regex::new(pattern).ok().map(|re| re.is_match(text))
}

/// Whether a value satisfies a pattern under modifiers, given what a regular
/// expression finds: the first of `re`, `contains`, `startswith` and `endswith`
/// that is there decides, and without any of them the two must be equal. Letters
/// of either case count as the same, except for regular expressions.
pub open spec fn satisfies(
    modifiers: Seq<Modifier>,
    value: Seq<char>,
    pattern: Seq<char>,
    found: Option<bool>,
) -> bool {
    let v = lowercase(value);
    let p = lowercase(pattern);
    if modifiers.contains(Modifier::Re) {
        found == Some(true)
    } else if modifiers.contains(Modifier::Contains) {
        occurs_in(v, p)
    } else if modifiers.contains(Modifier::StartsWith) {
        begins_with(v, p)
    } else if modifiers.contains(Modifier::EndsWith) {
        finishes_with(v, p)
    } else {
        v == p
    }
}

/// Whether a value satisfies a pattern under modifiers.
pub open spec fn value_matches(
    modifiers: Seq<Modifier>,
    value: Seq<char>,
    pattern: Seq<char>,
) -> bool {
    satisfies(modifiers, value, pattern, regex_match(pattern, value))
}

/// Whether an event satisfies a field match: all of its values under the modifier
/// `all`, else one of them. A match without values is always satisfied, and an
/// event without the field satisfies no other.
pub open spec fn field_matches(m: MatchText, e: EventText) -> bool {
    if m.values.len() == 0 {
        true
    } else {
        match field_value(e, m.field) {
            None => false,
            Some(v) => if m.modifiers.contains(Modifier::All) {
                forall|i: int|
                    0 <= i < m.values.len() ==> value_matches(
                        m.modifiers,
                        v,
                        #[trigger] m.values[i],
                    )
            } else {
                exists|i: int|
                    0 <= i < m.values.len() && value_matches(m.modifiers, v, #[trigger] m.values[i])
            },
        }
    }
}

/// Whether an event satisfies a selection: all of its matches.
pub open spec fn selection_holds(s: Seq<MatchText>, e: EventText) -> bool {
    forall|i: int| 0 <= i < s.len() ==> field_matches(#[trigger] s[i], e)
}

/// Whether modifiers hold one.
fn has_modifier(modifiers: &Vec<Modifier>, m: Modifier) -> (r: bool)
    ensures
        r == modifiers@.contains(m),
{
    let mut i: usize = 0;
    while i < modifiers.len()
        invariant
            i <= modifiers.len(),
            forall|j: int| 0 <= j < i ==> modifiers@[j] != m,
        decreases modifiers.len() - i,
    {
        if modifiers[i] == m {
            return true;
        }
        i += 1;
    }
    false
}

/// Whether a value satisfies a pattern under modifiers, given what a regular
/// expression finds.
pub fn satisfied(
    modifiers: &Vec<Modifier>,
    value: &str,
    pattern: &str,
    found: Option<bool>,
) -> (r: bool)
    ensures
        r == satisfies(modifiers@, value@, pattern@, found),
{
    let v = to_lowercase(value);
    let p = to_lowercase(pattern);
    if has_modifier(modifiers, Modifier::Re) {
        match found {
            Some(b) => b,
            None => false,
        }
    } else if has_modifier(modifiers, Modifier::Contains) {
        contains(v.as_str(), p.as_str())
    } else if has_modifier(modifiers, Modifier::StartsWith) {
        starts_with(v.as_str(), p.as_str())
    } else if has_modifier(modifiers, Modifier::EndsWith) {
        ends_with(v.as_str(), p.as_str())
    } else {
        same_text(v.as_str(), p.as_str())
    }
}

/// Whether a value satisfies a pattern under modifiers.
pub fn apply_modifiers(modifiers: &Vec<Modifier>, value: &str, pattern: &str) -> (r: bool)
    ensures
        r == value_matches(modifiers@, value@, pattern@),
{
    let found: Option<bool> = if has_modifier(modifiers, Modifier::Re) {
        regex_find(pattern, value)
    } else {
        None
    };
    satisfied(modifiers, value, pattern, found)
}

/// Whether an event satisfies a field match.
pub fn field_match(fm: &SigmaFieldMatch, event: &SysmonEvent, rodeo: &SharedRodeo) -> (r: bool)
    requires
        event.held_by(*rodeo),
    ensures
        r == field_matches(fm@, event.resolved(*rodeo)),
{
    let ghost m = fm@;
    if fm.values.len() == 0 {
        return true;
    }
    let value = match get_field_value(event, fm.field.as_str(), rodeo) {
        Some(v) => v,
        None => {
            return false;
        },
    };
    let all = has_modifier(&fm.modifiers, Modifier::All);
    let mut i: usize = 0;
    while i < fm.values.len()
        invariant
            i <= fm.values.len(),
            m == fm@,
            m.values.len() > 0,
            all == m.modifiers.contains(Modifier::All),
            field_value(event.resolved(*rodeo), m.field) == Some(value@),
            all ==> forall|j: int|
                0 <= j < i ==> value_matches(m.modifiers, value@, #[trigger] m.values[j]),
            !all ==> forall|j: int|
                0 <= j < i ==> !value_matches(m.modifiers, value@, #[trigger] m.values[j]),
        decreases fm.values.len() - i,
    {
        let ok = apply_modifiers(&fm.modifiers, value.as_str(), fm.values[i].as_str());
        assert(m.values[i as int] == fm.values@[i as int]@);
        assert(ok == value_matches(m.modifiers, value@, m.values[i as int]));
        if all && !ok {
            return false;
        }
        if !all && ok {
            return true;
        }
        i += 1;
    }
    all
}

/// Whether an event satisfies a selection.
pub fn selection_matches(sel: &SigmaSelection, event: &SysmonEvent, rodeo: &SharedRodeo) -> (r: bool)
    requires
        event.held_by(*rodeo),
    ensures
        r == selection_holds(sel@, event.resolved(*rodeo)),
{
    let ghost s = sel@;
    let mut i: usize = 0;
    while i < sel.fields.len()
        invariant
            i <= sel.fields.len(),
            s == sel@,
            event.held_by(*rodeo),
            forall|j: int|
                0 <= j < i ==> field_matches(#[trigger] s[j], event.resolved(*rodeo)),
        decreases sel.fields.len() - i,
    {
        assert(s[i as int] == sel.fields@[i as int]@);
        if !field_match(&sel.fields[i], event, rodeo) {
            return false;
        }
        i += 1;
    }
    true
}

// ---------------------------------------------------------------------------
// Name patterns
// ---------------------------------------------------------------------------

/// Whether a character has a meaning in regular expressions.
pub open spec fn is_meta(c: char) -> bool {
    c == '\\' || c == '.' || c == '+' || c == '*' || c == '?' || c == '(' || c == ')' || c == '|'
        || c == '[' || c == ']' || c == '{' || c == '}' || c == '^' || c == '$' || c == '#' || c
        == '&' || c == '-' || c == '~'
}

/// A text with a backslash before each character that has a meaning in regular
/// expressions.
pub open spec fn escaped(s: Seq<char>) -> Seq<char>
    decreases s.len(),
{
    if s.len() == 0 {
        s
    } else if is_meta(s.last()) {
        escaped(s.drop_last()).push('\\').push(s.last())
    } else {
        escaped(s.drop_last()).push(s.last())
    }
}

/// `regex::escape` puts a backslash before each character that has a meaning in
/// regular expressions.
#[verifier::external_body]
pub(crate) fn regex_escape(s: &str) -> (r: String)
    ensures
        r@ == escaped(s@),
{
    regex::escape(s)
}

/// A text with each escaped star replaced by the expression for any text.
pub open spec fn stars_expanded(s: Seq<char>) -> Seq<char>
    decreases s.len(),
{
    if s.len() == 0 {
        s
    } else if s.len() > 1 && s[0] == '\\' && s[1] == '*' {
        seq!['.', '*'] + stars_expanded(s.skip(2))
    } else {
        seq![s[0]] + stars_expanded(s.skip(1))
    }
}

/// The regular expression of a name pattern, in which a star stands for any
/// text.
pub open spec fn name_pattern(p: Seq<char>) -> Seq<char> {
    seq!['^'] + stars_expanded(escaped(p)) + seq!['$']
}

/// Whether a name fits a pattern.
pub open spec fn name_fits(p: Seq<char>, name: Seq<char>) -> bool {
    regex_match(name_pattern(p), name) == Some(true)
}

/// The regular expression of a name pattern.
pub fn glob_to_regex(pattern: &str) -> (r: String)
    ensures
        r@ == name_pattern(pattern@),
{
    let e = regex_escape(pattern);
    let v = chars_of(e.as_str());
    let mut out: Vec<char> = Vec::new();
    out.push('^');
    let ghost head = out@;
    let mut i: usize = 0;
    assert(v@.skip(0) =~= v@);
    assert(head + stars_expanded(v@.skip(0)) =~= head + stars_expanded(v@));
    while i < v.len()
        invariant
            i <= v.len(),
            out@ + stars_expanded(v@.skip(i as int)) == head + stars_expanded(v@),
        decreases v.len() - i,
    {
        let ghost rest = v@.skip(i as int);
        assert(rest.skip(1) =~= v@.skip(i + 1));
        if v[i] == '\\' && i + 1 < v.len() && v[i + 1] == '*' {
            assert(rest.skip(2) =~= v@.skip(i + 2));
            out.push('.');
            out.push('*');
            i += 2;
        } else {
            out.push(v[i]);
            i += 1;
        }
        assert(out@ + stars_expanded(v@.skip(i as int)) =~= head + stars_expanded(v@));
    }
    assert(stars_expanded(v@.skip(i as int)) =~= Seq::empty());
    assert(out@ =~= head + stars_expanded(v@));
    out.push('$');
    assert(out@ =~= name_pattern(pattern@));
    string_of(out.as_slice())
}

// ---------------------------------------------------------------------------
// Conditions
// ---------------------------------------------------------------------------

/// Whether a condition holds, given which selections do.
pub open spec fn holds(c: Condition, results: Map<Seq<char>, bool>) -> bool
    decreases c,
{
    match c {
        Condition::Named(name) => results.contains_key(name) && results[name],
        Condition::Not(d) => !holds(*d, results),
        Condition::And(parts) => all_hold(parts, results),
        Condition::Or(parts) => any_holds(parts, results),
        Condition::OneOf(p) => exists|name: Seq<char>| #[trigger]
            results.contains_key(name) && results[name] && name_fits(p, name),
        Condition::AllOf(p) => {
            &&& exists|name: Seq<char>| #[trigger] results.contains_key(name) && name_fits(p, name)
            &&& forall|name: Seq<char>| #[trigger]
                results.contains_key(name) && name_fits(p, name) ==> results[name]
        },
    }
}

/// Whether all of some conditions hold.
pub open spec fn all_hold(parts: Seq<Condition>, results: Map<Seq<char>, bool>) -> bool
    decreases parts,
{
    if parts.len() == 0 {
        true
    } else {
        all_hold(parts.drop_last(), results) && holds(parts.last(), results)
    }
}

/// Whether one of some conditions holds.
pub open spec fn any_holds(parts: Seq<Condition>, results: Map<Seq<char>, bool>) -> bool
    decreases parts,
{
    if parts.len() == 0 {
        false
    } else {
        any_holds(parts.drop_last(), results) || holds(parts.last(), results)
    }
}

/// Whether one of the selections whose names fit matches.
pub fn one_selected(fits: &Vec<bool>, matched: &Vec<bool>) -> (r: bool)
    requires
        fits@.len() == matched@.len(),
    ensures
        r == exists|i: int| 0 <= i < fits@.len() && #[trigger] fits@[i] && matched@[i],
{
    let mut i: usize = 0;
    while i < fits.len()
        invariant
            i <= fits@.len(),
            fits@.len() == matched@.len(),
            forall|j: int| 0 <= j < i ==> !(#[trigger] fits@[j] && matched@[j]),
        decreases fits.len() - i,
    {
        if fits[i] && matched[i] {
            return true;
        }
        i += 1;
    }
    false
}

/// Whether there are selections whose names fit and all of them match.
pub fn all_selected(fits: &Vec<bool>, matched: &Vec<bool>) -> (r: bool)
    requires
        fits@.len() == matched@.len(),
    ensures
        r == ((exists|i: int| 0 <= i < fits@.len() && #[trigger] fits@[i]) && (forall|i: int|
            0 <= i < fits@.len() && #[trigger] fits@[i] ==> matched@[i])),
{
    let mut some: bool = false;
    let mut i: usize = 0;
    while i < fits.len()
        invariant
            i <= fits@.len(),
            fits@.len() == matched@.len(),
            some == exists|j: int| 0 <= j < i && #[trigger] fits@[j],
            forall|j: int| 0 <= j < i && #[trigger] fits@[j] ==> matched@[j],
        decreases fits.len() - i,
    {
        if fits[i] {
            if !matched[i] {
                return false;
            }
            some = true;
        }
        i += 1;
    }
    some
}

/// For each selection, whether its name fits a pattern and whether it matches.
fn fitting(results: &TextMap<bool>, pattern: &str) -> (r: (Vec<bool>, Vec<bool>))
    ensures
        r.0@.len() == r.1@.len(),
        r.0@.len() == results.names().len(),
        forall|i: int|
            0 <= i < r.0@.len() ==> (#[trigger] r.0@[i]) == name_fits(
                pattern@,
                results.names()[i],
            ) && r.1@[i] == results@[results.names()[i]] && results@.contains_key(
                results.names()[i],
            ),
        forall|name: Seq<char>| #[trigger]
            results@.contains_key(name) ==> results.names().contains(name),
{
    let re = glob_to_regex(pattern);
    let n: usize = results.len();
    let mut fits: Vec<bool> = Vec::new();
    let mut matched: Vec<bool> = Vec::new();
    let mut i: usize = 0;
    while i < n
        invariant
            i <= n,
            n == results.names().len(),
            n == results@.dom().len(),
            re@ == name_pattern(pattern@),
            fits@.len() == i,
            matched@.len() == i,
            forall|j: int|
                0 <= j < i ==> (#[trigger] fits@[j]) == name_fits(pattern@, results.names()[j])
                    && matched@[j] == results@[results.names()[j]] && results@.contains_key(
                    results.names()[j],
                ),
        decreases n - i,
    {
        let fit = match regex_find(re.as_str(), results.name_at(i)) {
            Some(b) => b,
            None => false,
        };
        fits.push(fit);
        matched.push(*results.value_at(i));
        i += 1;
    }
    (fits, matched)
}

/// Whether a condition holds, given which selections do.
pub fn eval_condition(expr: &ConditionExpr, results: &TextMap<bool>) -> (r: bool)
    ensures
        r == holds(expr@, results@),
    decreases expr,
{
    match expr {
        ConditionExpr::Named(name) => match results.get(name.as_str()) {
            Some(b) => *b,
            None => false,
        },
        ConditionExpr::Not(inner) => !eval_condition(inner, results),
        ConditionExpr::And(parts) => {
            proof {
                lemma_parts(*parts);
            }
            let ghost c = conditions(parts@);
            let mut i: usize = 0;
            assert(c.take(0) =~= Seq::empty());
            while i < parts.len()
                invariant
                    i <= parts.len(),
                    *expr == ConditionExpr::And(*parts),
                    expr@ == Condition::And(c),
                    c == conditions(parts@),
                    all_hold(c.take(i as int), results@),
                decreases parts.len() - i,
            {
                assert(c.take(i + 1).drop_last() =~= c.take(i as int));
                assert(c.take(i + 1).last() == parts@[i as int]@);
                if !eval_condition(&parts[i], results) {
                    proof {
                        lemma_not_all(c, results@, i + 1);
                    }
                    return false;
                }
                i += 1;
            }
            assert(c.take(c.len() as int) =~= c);
            true
        },
        ConditionExpr::Or(parts) => {
            proof {
                lemma_parts(*parts);
            }
            let ghost c = conditions(parts@);
            let mut i: usize = 0;
            assert(c.take(0) =~= Seq::empty());
            while i < parts.len()
                invariant
                    i <= parts.len(),
                    *expr == ConditionExpr::Or(*parts),
                    expr@ == Condition::Or(c),
                    c == conditions(parts@),
                    !any_holds(c.take(i as int), results@),
                decreases parts.len() - i,
            {
                assert(c.take(i + 1).drop_last() =~= c.take(i as int));
                assert(c.take(i + 1).last() == parts@[i as int]@);
                if eval_condition(&parts[i], results) {
                    proof {
                        lemma_some(c, results@, i + 1);
                    }
                    return true;
                }
                i += 1;
            }
            assert(c.take(c.len() as int) =~= c);
            false
        },
        ConditionExpr::OneOf(pattern) => {
            let (fits, matched) = fitting(results, pattern.as_str());
            let r = one_selected(&fits, &matched);
            proof {
                if holds(expr@, results@) {
                    let name = choose|name: Seq<char>| #[trigger]
                        results@.contains_key(name) && results@[name] && name_fits(pattern@, name);
                    assert(results.names().contains(name));
                    let i = choose|i: int|
                        0 <= i < results.names().len() && results.names()[i] == name;
                    assert(fits@[i] && matched@[i]);
                }
                if r {
                    let i = choose|i: int|
                        0 <= i < fits@.len() && #[trigger] fits@[i] && matched@[i];
                    assert(results@.contains_key(results.names()[i]));
                }
            }
            r
        },
        ConditionExpr::AllOf(pattern) => {
            let (fits, matched) = fitting(results, pattern.as_str());
            let r = all_selected(&fits, &matched);
            proof {
                if r {
                    let i = choose|i: int| 0 <= i < fits@.len() && #[trigger] fits@[i];
                    assert(results@.contains_key(results.names()[i]) && name_fits(
                        pattern@,
                        results.names()[i],
                    ));
                    assert forall|name: Seq<char>| #[trigger]
                        results@.contains_key(name) && name_fits(
                            pattern@,
                            name,
                        ) implies results@[name] by {
                        assert(results.names().contains(name));
                        let j = choose|j: int|
                            0 <= j < results.names().len() && results.names()[j] == name;
                        assert(fits@[j]);
                    }
                }
                if holds(expr@, results@) {
                    let name = choose|name: Seq<char>| #[trigger]
                        results@.contains_key(name) && name_fits(pattern@, name);
                    assert(results.names().contains(name));
                    let j = choose|j: int|
                        0 <= j < results.names().len() && results.names()[j] == name;
                    assert(fits@[j]);
                    assert forall|i: int| 0 <= i < fits@.len() && #[trigger] fits@[i] implies matched@[i] by {
                        assert(results@.contains_key(results.names()[i]));
                    }
                }
            }
            r
        },
    }
}

/// A conjunction with a part that does not hold does not hold.
proof fn lemma_not_all(c: Seq<Condition>, results: Map<Seq<char>, bool>, n: int)
    requires
        0 <= n <= c.len(),
        !all_hold(c.take(n), results),
    ensures
        !all_hold(c, results),
    decreases c.len() - n,
{
    if n < c.len() {
        assert(c.take(n + 1).drop_last() =~= c.take(n));
        lemma_not_all(c, results, n + 1);
    } else {
        assert(c.take(n) =~= c);
    }
}

/// A disjunction with a part that holds does hold.
proof fn lemma_some(c: Seq<Condition>, results: Map<Seq<char>, bool>, n: int)
    requires
        0 <= n <= c.len(),
        any_holds(c.take(n), results),
    ensures
        any_holds(c, results),
    decreases c.len() - n,
{
    if n < c.len() {
        assert(c.take(n + 1).drop_last() =~= c.take(n));
        lemma_some(c, results, n + 1);
    } else {
        assert(c.take(n) =~= c);
    }
}

// ---------------------------------------------------------------------------
// Rules
// ---------------------------------------------------------------------------

/// Which selections an event satisfies.
pub open spec fn selection_results(
    selections: Map<Seq<char>, Seq<MatchText>>,
    e: EventText,
) -> Map<Seq<char>, bool> {
    selections.map_values(|s: Seq<MatchText>| selection_holds(s, e))
}

/// Whether an event matches a rule: the condition holds of its selections.
pub open spec fn rule_matches(rule: SigmaRule, e: EventText) -> bool {
    holds(
        rule.detection.condition@,
        selection_results(selections_text(rule.detection.selections), e),
    )
}

/// Whether an event matches a rule.
pub fn matches_rule(rule: &SigmaRule, event: &SysmonEvent, rodeo: &SharedRodeo) -> (r: bool)
    requires
        event.held_by(*rodeo),
    ensures
        r == rule_matches(*rule, event.resolved(*rodeo)),
{
    let ghost e = event.resolved(*rodeo);
    let ghost want = selection_results(selections_text(rule.detection.selections), e);
    let selections = &rule.detection.selections;
    let n: usize = selections.len();
    let ghost names = selections.names();
    let mut results: TextMap<bool> = TextMap::new();
    let mut i: usize = 0;
    while i < n
        invariant
            i <= n,
            n == names.len(),
            n == selections@.dom().len(),
            names == selections.names(),
            event.held_by(*rodeo),
            e == event.resolved(*rodeo),
            *selections == rule.detection.selections,
            want == selection_results(selections_text(rule.detection.selections), e),
            forall|j: int| 0 <= j < n ==> selections@.contains_key(#[trigger] names[j]),
            forall|k: Seq<char>| #[trigger]
                results@.contains_key(k) <==> exists|j: int| 0 <= j < i && #[trigger] names[j] == k,
            forall|k: Seq<char>| #[trigger]
                results@.contains_key(k) ==> want.contains_key(k) && results@[k] == want[k],
        decreases n - i,
    {
        let ghost before = results@;
        let name = selections.name_at(i).to_owned();
        let ghost key = name@;
        let matched = selection_matches(selections.value_at(i), event, rodeo);
        results.insert(name, matched);
        assert(key == names[i as int]);
        assert forall|k: Seq<char>| #[trigger] results@.contains_key(k) implies exists|j: int|
            0 <= j < i + 1 && #[trigger] names[j] == k by {
            if k == key {
                assert(names[i as int] == k);
            } else {
                assert(before.contains_key(k));
                let j = choose|j: int| 0 <= j < i && #[trigger] names[j] == k;
                assert(names[j] == k);
            }
        }
        i += 1;
    }
    assert forall|k: Seq<char>| #[trigger] want.contains_key(k) implies results@.contains_key(k) by {
        assert(selections@.contains_key(k));
        assert(names.contains(k));
        let j = choose|j: int| 0 <= j < names.len() && names[j] == k;
        assert(names[j] == k);
    }
    assert(results@ =~= want);
    eval_condition(&rule.detection.condition, &results)
}

/// An event that matches a rule.
pub struct SigmaMatch<S = String> {
    pub rule_title: S,
    pub rule_id: Option<S>,
    pub level: SigmaLevel,
    pub event_index: usize,
    pub event_id: u16,
    pub process_guid: Option<ProcessGuid>,
    pub timestamp: Timestamp,
}

impl SigmaMatch {
    /// The match as text.
    pub open spec fn view(&self) -> SigmaMatch<Seq<char>> {
        SigmaMatch {
            rule_title: self.rule_title@,
            rule_id: opt_text(self.rule_id),
            level: self.level,
            event_index: self.event_index,
            event_id: self.event_id,
            process_guid: self.process_guid,
            timestamp: self.timestamp,
        }
    }
}

/// Matches as text.
pub open spec fn matches_text(v: Seq<SigmaMatch>) -> Seq<SigmaMatch<Seq<char>>> {
    v.map_values(|m: SigmaMatch| m@)
}

/// The match of a rule with the event at a position.
pub open spec fn match_at(rule: SigmaRule, events: Seq<SysmonEvent>, at: usize) -> SigmaMatch<
    Seq<char>,
> {
    SigmaMatch {
        rule_title: rule.title@,
        rule_id: opt_text(rule.id),
        level: rule.level,
        event_index: at,
        event_id: events[at as int].event_id,
        process_guid: events[at as int].process_guid,
        timestamp: events[at as int].time_created,
    }
}

/// The matches of a rule among the events at given positions, in their order.
pub open spec fn matches_among(
    rule: SigmaRule,
    events: Seq<SysmonEvent>,
    at: Seq<usize>,
    r: SharedRodeo,
) -> Seq<SigmaMatch<Seq<char>>>
    decreases at.len(),
{
    if at.len() == 0 {
        Seq::empty()
    } else {
        let front = matches_among(rule, events, at.drop_last(), r);
        if rule_matches(rule, events[at.last() as int].resolved(r)) {
            front.push(match_at(rule, events, at.last()))
        } else {
            front
        }
    }
}

/// The matches of a rule among the events of given types, type by type.
pub open spec fn matches_of_types(
    rule: SigmaRule,
    events: Seq<SysmonEvent>,
    ids: Seq<u16>,
    r: SharedRodeo,
) -> Seq<SigmaMatch<Seq<char>>>
    decreases ids.len(),
{
    if ids.len() == 0 {
        Seq::empty()
    } else {
        matches_of_types(rule, events, ids.drop_last(), r) + matches_among(
            rule,
            events,
            positions(events, Group::Type(ids.last())),
            r,
        )
    }
}

/// The matches of rules among events, rule by rule: each rule looks at the event
/// types of its log source category.
pub open spec fn matches_of_rules(
    rules: Seq<SigmaRule>,
    events: Seq<SysmonEvent>,
    r: SharedRodeo,
) -> Seq<SigmaMatch<Seq<char>>>
    decreases rules.len(),
{
    if rules.len() == 0 {
        Seq::empty()
    } else {
        matches_of_rules(rules.drop_last(), events, r) + matches_of_types(
            rules.last(),
            events,
            category_events(opt_text(rules.last().logsource.category)),
            r,
        )
    }
}

/// Adds the matches of a rule among the events of a type.
fn add_matches(
    rule: &SigmaRule,
    event_id: u16,
    store: &EventStore,
    rodeo: &SharedRodeo,
    results: &mut Vec<SigmaMatch>,
)
    requires
        store.wf(),
        all_held(store.events@, *rodeo),
    ensures
        matches_text(final(results)@) == matches_text(old(results)@) + matches_among(
            *rule,
            store.events@,
            positions(store.events@, Group::Type(event_id)),
            *rodeo,
        ),
{
    let ghost start = matches_text(results@);
    let ghost p = positions(store.events@, Group::Type(event_id));
    let total: usize = store.events.len();
    proof {
        crate::event_store::law_positions_are_exact(store.events@, Group::Type(event_id));
        assert(p.take(0) =~= Seq::empty());
        assert(start + Seq::<SigmaMatch<Seq<char>>>::empty() =~= start);
    }
    let found = store.events_for_type(event_id);
    let mut i: usize = 0;
    while i < found.len()
        invariant
            i <= found.len(),
            found@ == p,
            all_held(store.events@, *rodeo),
            forall|k: int| 0 <= k < p.len() ==> (#[trigger] p[k]) < store.events@.len(),
            matches_text(results@) == start + matches_among(
                *rule,
                store.events@,
                p.take(i as int),
                *rodeo,
            ),
        decreases found.len() - i,
    {
        let at: usize = found[i];
        assert(p[i as int] < store.events@.len());
        assert(p.take(i + 1).drop_last() =~= p.take(i as int));
        assert(p.take(i + 1).last() == at);
        let event = &store.events[at];
        assert(store.events@[at as int].held_by(*rodeo));
        if matches_rule(rule, event, rodeo) {
            let ghost before = results@;
            let m = SigmaMatch {
                rule_title: rule.title.clone(),
                rule_id: clone_opt(&rule.id),
                level: rule.level,
                event_index: at,
                event_id: event.event_id,
                process_guid: event.process_guid,
                timestamp: event.time_created,
            };
            let ghost text = m@;
            results.push(m);
            assert(matches_text(results@) =~= matches_text(before).push(text));
            assert(text == match_at(*rule, store.events@, at));
            assert(matches_text(results@) =~= start + matches_among(
                *rule,
                store.events@,
                p.take(i + 1),
                *rodeo,
            ));
        }
        i += 1;
    }
    assert(p.take(p.len() as int) =~= p);
}

/// Evaluates all rules against all events of a store and returns every match.
pub fn evaluate_rules(rules: &[SigmaRule], event_store: &EventStore, rodeo: &SharedRodeo) -> (r: Vec<
    SigmaMatch,
>)
    requires
        event_store.wf(),
        all_held(event_store.events@, *rodeo),
    ensures
        matches_text(r@) == matches_of_rules(rules@, event_store.events@, *rodeo),
{
    let ghost events = event_store.events@;
    let mut results: Vec<SigmaMatch> = Vec::new();
    let mut i: usize = 0;
    assert(rules@.take(0) =~= Seq::empty());
    assert(matches_text(results@) =~= Seq::empty());
    while i < rules.len()
        invariant
            i <= rules.len(),
            event_store.wf(),
            events == event_store.events@,
            all_held(events, *rodeo),
            matches_text(results@) == matches_of_rules(rules@.take(i as int), events, *rodeo),
        decreases rules.len() - i,
    {
        let rule = &rules[i];
        assert(rules@.take(i + 1).drop_last() =~= rules@.take(i as int));
        assert(rules@.take(i + 1).last() == *rule);
        let ids = match &rule.logsource.category {
            Some(c) => category_to_event_ids(Some(c.as_str())),
            None => category_to_event_ids(None),
        };
        assert(ids@ == category_events(opt_text(rule.logsource.category)));
        let ghost start = matches_text(results@);
        let mut k: usize = 0;
        assert(ids@.take(0) =~= Seq::empty());
        assert(start + matches_of_types(*rule, events, ids@.take(0), *rodeo) =~= start);
        while k < ids.len()
            invariant
                k <= ids.len(),
                event_store.wf(),
                events == event_store.events@,
                all_held(events, *rodeo),
                matches_text(results@) == start + matches_of_types(
                    *rule,
                    events,
                    ids@.take(k as int),
                    *rodeo,
                ),
            decreases ids.len() - k,
        {
            assert(ids@.take(k + 1).drop_last() =~= ids@.take(k as int));
            assert(ids@.take(k + 1).last() == ids@[k as int]);
            let ghost done = matches_of_types(*rule, events, ids@.take(k as int), *rodeo);
            add_matches(rule, ids[k], event_store, rodeo, &mut results);
            k += 1;
            assert(matches_text(results@) =~= start + matches_of_types(
                *rule,
                events,
                ids@.take(k as int),
                *rodeo,
            ));
        }
        assert(ids@.take(ids@.len() as int) =~= ids@);
        i += 1;
    }
    assert(rules@.take(rules@.len() as int) =~= rules@);
    results
}

// ---------------------------------------------------------------------------
// Laws
// ---------------------------------------------------------------------------

/// Whether two field matches without regular expressions, and what two events hold
/// in the field, have the same lower-case forms.
pub open spec fn same_in_lower_case(
    m: MatchText,
    other: MatchText,
    value: Option<Seq<char>>,
    other_value: Option<Seq<char>>,
) -> bool {
    &&& !m.modifiers.contains(Modifier::Re)
    &&& other.modifiers == m.modifiers
    &&& other.values.len() == m.values.len()
    &&& forall|i: int|
        0 <= i < m.values.len() ==> lowercase(#[trigger] m.values[i]) == lowercase(other.values[i])
    &&& match (value, other_value) {
        (Some(v), Some(w)) => lowercase(v) == lowercase(w),
        (None, None) => true,
        _ => false,
    }
}

/// Outside regular expressions the case of letters does not matter, neither in
/// the event nor in the rule: only lower-case forms count.
pub proof fn law_case_does_not_matter(m: MatchText, other: MatchText, e: EventText, f: EventText)
    requires
        same_in_lower_case(m, other, field_value(e, m.field), field_value(f, other.field)),
    ensures
        field_matches(m, e) == field_matches(other, f),
{
    if m.values.len() > 0 && field_value(e, m.field) is Some {
        let v = field_value(e, m.field)->Some_0;
        let w = field_value(f, other.field)->Some_0;
        assert forall|i: int| 0 <= i < m.values.len() implies value_matches(
            m.modifiers,
            v,
            #[trigger] m.values[i],
        ) == value_matches(other.modifiers, w, other.values[i]) by {}
        if field_matches(other, f) && !m.modifiers.contains(Modifier::All) {
            let i = choose|i: int|
                0 <= i < other.values.len() && value_matches(
                    other.modifiers,
                    w,
                    #[trigger] other.values[i],
                );
            assert(value_matches(m.modifiers, v, m.values[i]));
        }
        if field_matches(m, e) && !m.modifiers.contains(Modifier::All) {
            let i = choose|i: int|
                0 <= i < m.values.len() && value_matches(m.modifiers, v, #[trigger] m.values[i]);
            assert(value_matches(other.modifiers, w, other.values[i]));
        }
        if field_matches(m, e) && m.modifiers.contains(Modifier::All) {
            assert forall|i: int| 0 <= i < other.values.len() implies value_matches(
                other.modifiers,
                w,
                #[trigger] other.values[i],
            ) by {
                assert(value_matches(m.modifiers, v, m.values[i]));
            }
        }
    }
}

/// The field match with one of its values alone.
pub open spec fn with_value(m: MatchText, i: int) -> MatchText {
    MatchText { values: seq![m.values[i]], ..m }
}

/// The values of a field match are tried one by one: under the modifier `all` each
/// of them alone has to match, else one of them. Without values there is nothing
/// to match, and without the field nothing that does.
pub proof fn law_values_are_tried_one_by_one(m: MatchText, e: EventText)
    ensures
        m.values.len() == 0 ==> field_matches(m, e),
        m.values.len() > 0 && field_value(e, m.field) is None ==> !field_matches(m, e),
        m.values.len() > 0 && m.modifiers.contains(Modifier::All) ==> (field_matches(m, e)
            <==> forall|i: int|
            0 <= i < m.values.len() ==> field_matches(#[trigger] with_value(m, i), e)),
        m.values.len() > 0 && !m.modifiers.contains(Modifier::All) ==> (field_matches(m, e)
            <==> exists|i: int|
            0 <= i < m.values.len() && field_matches(#[trigger] with_value(m, i), e)),
{
    if m.values.len() > 0 && field_value(e, m.field) is Some {
        let v = field_value(e, m.field)->Some_0;
        assert forall|i: int| 0 <= i < m.values.len() implies field_matches(
            #[trigger] with_value(m, i),
            e,
        ) == value_matches(m.modifiers, v, m.values[i]) by {
            let one = with_value(m, i);
            assert(one.values[0] == m.values[i]);
            if value_matches(m.modifiers, v, m.values[i]) {
                assert(value_matches(one.modifiers, v, one.values[0]));
            }
        }
        if m.modifiers.contains(Modifier::All) {
            if forall|i: int|
                0 <= i < m.values.len() ==> field_matches(#[trigger] with_value(m, i), e) {
                assert forall|i: int| 0 <= i < m.values.len() implies value_matches(
                    m.modifiers,
                    v,
                    #[trigger] m.values[i],
                ) by {
                    assert(field_matches(with_value(m, i), e));
                }
            }
        } else if field_matches(m, e) {
            let i = choose|i: int|
                0 <= i < m.values.len() && value_matches(m.modifiers, v, #[trigger] m.values[i]);
            assert(field_matches(with_value(m, i), e));
        }
    } else if m.values.len() > 0 {
        assert(!field_matches(with_value(m, 0), e));
    }
}

/// What is among the matches of positions: the matching ones of them.
proof fn lemma_among(
    rule: SigmaRule,
    events: Seq<SysmonEvent>,
    at: Seq<usize>,
    r: SharedRodeo,
    m: SigmaMatch<Seq<char>>,
)
    ensures
        matches_among(rule, events, at, r).contains(m) <==> exists|k: int|
            0 <= k < at.len() && rule_matches(
                rule,
                events[(#[trigger] at[k]) as int].resolved(r),
            ) && m == match_at(rule, events, at[k]),
    decreases at.len(),
{
    if at.len() > 0 {
        let f = at.drop_last();
        lemma_among(rule, events, f, r, m);
        let front = matches_among(rule, events, f, r);
        let all = matches_among(rule, events, at, r);
        if all.contains(m) {
            let i = choose|i: int| 0 <= i < all.len() && all[i] == m;
            if i < front.len() {
                assert(front[i] == m);
                assert(front.contains(m));
                let k = choose|k: int|
                    0 <= k < f.len() && rule_matches(
                        rule,
                        events[(#[trigger] f[k]) as int].resolved(r),
                    ) && m == match_at(rule, events, f[k]);
                assert(at[k] == f[k]);
            } else {
                assert(at[at.len() - 1] == at.last());
            }
        }
        if exists|k: int|
            0 <= k < at.len() && rule_matches(
                rule,
                events[(#[trigger] at[k]) as int].resolved(r),
            ) && m == match_at(rule, events, at[k]) {
            let k = choose|k: int|
                0 <= k < at.len() && rule_matches(
                    rule,
                    events[(#[trigger] at[k]) as int].resolved(r),
                ) && m == match_at(rule, events, at[k]);
            if k < f.len() {
                assert(f[k] == at[k]);
                assert(front.contains(m));
                let i = choose|i: int| 0 <= i < front.len() && front[i] == m;
                assert(all[i] == m);
            } else {
                assert(all[all.len() - 1] == m);
            }
        }
    }
}

/// What is among the matches of event types: those of one of them.
proof fn lemma_of_types(
    rule: SigmaRule,
    events: Seq<SysmonEvent>,
    ids: Seq<u16>,
    r: SharedRodeo,
    m: SigmaMatch<Seq<char>>,
)
    ensures
        matches_of_types(rule, events, ids, r).contains(m) <==> exists|k: int|
            0 <= k < ids.len() && matches_among(
                rule,
                events,
                positions(events, Group::Type(#[trigger] ids[k])),
                r,
            ).contains(m),
    decreases ids.len(),
{
    if ids.len() > 0 {
        let f = ids.drop_last();
        lemma_of_types(rule, events, f, r, m);
        let front = matches_of_types(rule, events, f, r);
        let last = matches_among(rule, events, positions(events, Group::Type(ids.last())), r);
        let all = matches_of_types(rule, events, ids, r);
        if all.contains(m) {
            let i = choose|i: int| 0 <= i < all.len() && all[i] == m;
            if i < front.len() {
                assert(front[i] == m);
                assert(front.contains(m));
                let k = choose|k: int|
                    0 <= k < f.len() && matches_among(
                        rule,
                        events,
                        positions(events, Group::Type(#[trigger] f[k])),
                        r,
                    ).contains(m);
                assert(ids[k] == f[k]);
            } else {
                assert(last[i - front.len()] == m);
                assert(ids[ids.len() - 1] == ids.last());
            }
        }
        if exists|k: int|
            0 <= k < ids.len() && matches_among(
                rule,
                events,
                positions(events, Group::Type(#[trigger] ids[k])),
                r,
            ).contains(m) {
            let k = choose|k: int|
                0 <= k < ids.len() && matches_among(
                    rule,
                    events,
                    positions(events, Group::Type(#[trigger] ids[k])),
                    r,
                ).contains(m);
            if k < f.len() {
                assert(f[k] == ids[k]);
                assert(front.contains(m));
                let i = choose|i: int| 0 <= i < front.len() && front[i] == m;
                assert(all[i] == m);
            } else {
                let i = choose|i: int| 0 <= i < last.len() && last[i] == m;
                assert(all[front.len() + i] == m);
            }
        }
    }
}

/// Whether a rule looks at an event and matches it.
pub open spec fn hits(rule: SigmaRule, e: SysmonEvent, r: SharedRodeo) -> bool {
    category_events(opt_text(rule.logsource.category)).contains(e.event_id) && rule_matches(
        rule,
        e.resolved(r),
    )
}

/// What is among the matches of one rule.
proof fn lemma_of_rule(
    rule: SigmaRule,
    events: Seq<SysmonEvent>,
    r: SharedRodeo,
    m: SigmaMatch<Seq<char>>,
)
    requires
        events.len() <= usize::MAX,
    ensures
        matches_of_types(
            rule,
            events,
            category_events(opt_text(rule.logsource.category)),
            r,
        ).contains(m) <==> exists|i: int|
            0 <= i < events.len() && hits(rule, #[trigger] events[i], r) && m == match_at(
                rule,
                events,
                i as usize,
            ),
{
    let ids = category_events(opt_text(rule.logsource.category));
    lemma_of_types(rule, events, ids, r, m);
    if exists|k: int|
        0 <= k < ids.len() && matches_among(
            rule,
            events,
            positions(events, Group::Type(#[trigger] ids[k])),
            r,
        ).contains(m) {
        let k = choose|k: int|
            0 <= k < ids.len() && matches_among(
                rule,
                events,
                positions(events, Group::Type(#[trigger] ids[k])),
                r,
            ).contains(m);
        let at = positions(events, Group::Type(ids[k]));
        lemma_among(rule, events, at, r, m);
        crate::event_store::law_positions_are_exact(events, Group::Type(ids[k]));
        let j = choose|j: int|
            0 <= j < at.len() && rule_matches(rule, events[(#[trigger] at[j]) as int].resolved(r))
                && m == match_at(rule, events, at[j]);
        let i = at[j] as int;
        assert(crate::event_store::belongs(events[i], Group::Type(ids[k])));
        assert(hits(rule, events[i], r));
        assert(m == match_at(rule, events, i as usize));
    }
    if exists|i: int|
        0 <= i < events.len() && hits(rule, #[trigger] events[i], r) && m == match_at(
            rule,
            events,
            i as usize,
        ) {
        let i = choose|i: int|
            0 <= i < events.len() && hits(rule, #[trigger] events[i], r) && m == match_at(
                rule,
                events,
                i as usize,
            );
        let k = choose|k: int| 0 <= k < ids.len() && ids[k] == events[i].event_id;
        let at = positions(events, Group::Type(ids[k]));
        crate::event_store::law_positions_are_exact(events, Group::Type(ids[k]));
        assert(crate::event_store::belongs(events[i], Group::Type(ids[k])));
        assert(at.contains(i as usize));
        let j = choose|j: int| 0 <= j < at.len() && at[j] == i as usize;
        assert(rule_matches(rule, events[at[j] as int].resolved(r)));
        lemma_among(rule, events, at, r, m);
    }
}

/// The matches of rules are exactly those of each rule with the events of its
/// category that match it: none is missed, and none is made up.
#[verifier::spinoff_prover]
#[verifier::rlimit(40)]
pub proof fn law_matches_are_exact(
    rules: Seq<SigmaRule>,
    events: Seq<SysmonEvent>,
    r: SharedRodeo,
    m: SigmaMatch<Seq<char>>,
)
    requires
        events.len() <= usize::MAX,
    ensures
        matches_of_rules(rules, events, r).contains(m) <==> exists|k: int, i: int|
            0 <= k < rules.len() && 0 <= i < events.len() && hits(
                #[trigger] rules[k],
                #[trigger] events[i],
                r,
            ) && m == match_at(rules[k], events, i as usize),
    decreases rules.len(),
{
    if rules.len() > 0 {
        let f = rules.drop_last();
        law_matches_are_exact(f, events, r, m);
        let front = matches_of_rules(f, events, r);
        let last = matches_of_types(
            rules.last(),
            events,
            category_events(opt_text(rules.last().logsource.category)),
            r,
        );
        lemma_of_rule(rules.last(), events, r, m);
        let all = matches_of_rules(rules, events, r);
        if all.contains(m) {
            let j = choose|j: int| 0 <= j < all.len() && all[j] == m;
            if j < front.len() {
                assert(front[j] == m);
                assert(front.contains(m));
                let (k, i) = choose|k: int, i: int|
                    0 <= k < f.len() && 0 <= i < events.len() && hits(
                        #[trigger] f[k],
                        #[trigger] events[i],
                        r,
                    ) && m == match_at(f[k], events, i as usize);
                assert(rules[k] == f[k]);
                assert(hits(rules[k], events[i], r));
            } else {
                assert(last[j - front.len()] == m);
                assert(last.contains(m));
                let i = choose|i: int|
                    0 <= i < events.len() && hits(rules.last(), #[trigger] events[i], r) && m
                        == match_at(rules.last(), events, i as usize);
                assert(hits(rules[rules.len() - 1], events[i], r));
            }
        }
        if exists|k: int, i: int|
            0 <= k < rules.len() && 0 <= i < events.len() && hits(
                #[trigger] rules[k],
                #[trigger] events[i],
                r,
            ) && m == match_at(rules[k], events, i as usize) {
            let (k, i) = choose|k: int, i: int|
                0 <= k < rules.len() && 0 <= i < events.len() && hits(
                    #[trigger] rules[k],
                    #[trigger] events[i],
                    r,
                ) && m == match_at(rules[k], events, i as usize);
            if k < f.len() {
                assert(f[k] == rules[k]);
                assert(hits(f[k], events[i], r));
                assert(front.contains(m));
                let j = choose|j: int| 0 <= j < front.len() && front[j] == m;
                assert(all[j] == m);
            } else {
                assert(last.contains(m));
                let j = choose|j: int| 0 <= j < last.len() && last[j] == m;
                assert(all[front.len() + j] == m);
            }
        }
    }
}

/// The matches among ascending positions ascend and stand at those positions.
proof fn lemma_among_ascends(
    rule: SigmaRule,
    events: Seq<SysmonEvent>,
    at: Seq<usize>,
    r: SharedRodeo,
)
    requires
        forall|i: int, j: int| 0 <= i < j < at.len() ==> at[i] < at[j],
    ensures
        forall|i: int, j: int|
            0 <= i < j < matches_among(rule, events, at, r).len() ==> (#[trigger] matches_among(
                rule,
                events,
                at,
                r,
            )[i]).event_index < (#[trigger] matches_among(rule, events, at, r)[j]).event_index,
        forall|i: int|
            0 <= i < matches_among(rule, events, at, r).len() ==> at.contains(
                (#[trigger] matches_among(rule, events, at, r)[i]).event_index,
            ),
    decreases at.len(),
{
    if at.len() > 0 {
        let f = at.drop_last();
        let front = matches_among(rule, events, f, r);
        let all = matches_among(rule, events, at, r);
        lemma_among_ascends(rule, events, f, r);
        assert forall|i: int| 0 <= i < all.len() implies at.contains(
            (#[trigger] all[i]).event_index,
        ) by {
            if i < front.len() {
                assert(f.contains(front[i].event_index));
                let k = choose|k: int| 0 <= k < f.len() && f[k] == front[i].event_index;
                assert(at[k] == f[k]);
            } else {
                assert(at[at.len() - 1] == at.last());
            }
        }
        assert forall|i: int, j: int| 0 <= i < j < all.len() implies (#[trigger] all[i]).event_index
            < (#[trigger] all[j]).event_index by {
            assert(f.contains(front[i].event_index));
            let k = choose|k: int| 0 <= k < f.len() && f[k] == front[i].event_index;
            if j == front.len() {
                assert(at[k] < at[at.len() - 1]);
            } else {
                assert(front[i].event_index < front[j].event_index);
            }
        }
    }
}

/// The matches among events of different types stand at different positions.
proof fn lemma_types_once(rule: SigmaRule, events: Seq<SysmonEvent>, ids: Seq<u16>, r: SharedRodeo)
    requires
        ids.no_duplicates(),
        events.len() <= usize::MAX,
    ensures
        forall|i: int, j: int|
            0 <= i < j < matches_of_types(rule, events, ids, r).len() ==> (
            #[trigger] matches_of_types(rule, events, ids, r)[i]).event_index != (
            #[trigger] matches_of_types(rule, events, ids, r)[j]).event_index,
        forall|i: int|
            0 <= i < matches_of_types(rule, events, ids, r).len() ==> ids.contains(
                events[(#[trigger] matches_of_types(rule, events, ids, r)[i]).event_index as int].event_id,
            ),
    decreases ids.len(),
{
    if ids.len() > 0 {
        let f = ids.drop_last();
        let g = Group::Type(ids.last());
        let at = positions(events, g);
        let front = matches_of_types(rule, events, f, r);
        let last = matches_among(rule, events, at, r);
        let all = matches_of_types(rule, events, ids, r);
        lemma_types_once(rule, events, f, r);
        crate::event_store::law_positions_are_exact(events, g);
        lemma_among_ascends(rule, events, at, r);
        assert forall|i: int| 0 <= i < last.len() implies events[(
        #[trigger] last[i]).event_index as int].event_id == ids.last() by {
            let k = choose|k: int| 0 <= k < at.len() && at[k] == last[i].event_index;
            assert(crate::event_store::belongs(events[at[k] as int], g));
        }
        assert forall|i: int| 0 <= i < front.len() implies ids.contains(
            events[(#[trigger] front[i]).event_index as int].event_id,
        ) && events[front[i].event_index as int].event_id != ids.last() by {
            let id = events[front[i].event_index as int].event_id;
            assert(f.contains(id));
            let k = choose|k: int| 0 <= k < f.len() && f[k] == id;
            assert(ids[k] == id);
            assert(ids[k] != ids[ids.len() - 1]);
        }
        assert forall|i: int| 0 <= i < all.len() implies ids.contains(
            events[(#[trigger] all[i]).event_index as int].event_id,
        ) by {
            if i < front.len() {
                assert(all[i] == front[i]);
            } else {
                assert(all[i] == last[i - front.len()]);
                assert(ids[ids.len() - 1] == ids.last());
            }
        }
        assert forall|i: int, j: int| 0 <= i < j < all.len() implies (#[trigger] all[i]).event_index
            != (#[trigger] all[j]).event_index by {
            if j < front.len() {
                assert(all[i] == front[i] && all[j] == front[j]);
            } else if i < front.len() {
                assert(all[i] == front[i] && all[j] == last[j - front.len()]);
            } else {
                assert(all[i] == last[i - front.len()] && all[j] == last[j - front.len()]);
            }
        }
    }
}

/// A rule lists an event at most once.
pub proof fn law_an_event_is_listed_once(rule: SigmaRule, events: Seq<SysmonEvent>, r: SharedRodeo)
    requires
        events.len() <= usize::MAX,
    ensures
        forall|i: int, j: int|
            0 <= i < j < matches_of_rules(seq![rule], events, r).len() ==> (
            #[trigger] matches_of_rules(seq![rule], events, r)[i]).event_index != (
            #[trigger] matches_of_rules(seq![rule], events, r)[j]).event_index,
{
    let ids = category_events(opt_text(rule.logsource.category));
    let one = seq![rule];
    assert(ids.no_duplicates());
    lemma_types_once(rule, events, ids, r);
    assert(one.drop_last() =~= Seq::empty());
    assert(matches_of_rules(one.drop_last(), events, r) =~= Seq::empty());
    assert(one.last() == rule);
    assert(matches_of_rules(one, events, r) =~= matches_of_types(rule, events, ids, r));
}

/// The matches of rules are those of each rule, one rule after the other.
pub proof fn law_rules_are_applied_one_by_one(
    a: Seq<SigmaRule>,
    b: Seq<SigmaRule>,
    events: Seq<SysmonEvent>,
    r: SharedRodeo,
)
    ensures
        matches_of_rules(a + b, events, r) == matches_of_rules(a, events, r) + matches_of_rules(
            b,
            events,
            r,
        ),
    decreases b.len(),
{
    if b.len() == 0 {
        assert(a + b =~= a);
        assert(matches_of_rules(a, events, r) + matches_of_rules(b, events, r) =~= matches_of_rules(
            a,
            events,
            r,
        ));
    } else {
        law_rules_are_applied_one_by_one(a, b.drop_last(), events, r);
        assert((a + b).drop_last() =~= a + b.drop_last());
        assert(matches_of_rules(a + b, events, r) =~= matches_of_rules(a, events, r)
            + matches_of_rules(b, events, r));
    }
}

/// A condition that is negated holds exactly where it does not, and a selection
/// without values for its fields is satisfied by every event.
pub proof fn law_negation_and_empty_matches(
    c: Condition,
    results: Map<Seq<char>, bool>,
    m: MatchText,
    e: EventText,
)
    ensures
        holds(Condition::Not(Box::new(c)), results) == !holds(c, results),
        m.values.len() == 0 ==> field_matches(m, e),
{
}

} // verus!
