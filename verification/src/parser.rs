//! From raw records to events: field access, event details, and the records of
//! the text formats.

use crate::clock::{instant_of, read_instant, unknown_form, unknown_form_text};
use crate::event::{DetailText, EventDetail, EventText, SysmonEvent, SysmonEventType};
use crate::guid::ProcessGuid;
use crate::interner::{intern, SharedRodeo};
use crate::numbers::{parse_unsigned, unsigned_of};
use crate::text::{lowercase, opt_text, same_text, to_lowercase, trim, trim_of};
use crate::textmap::{fields_of, FieldMap, TextMap};
use crate::types::{
    complaints, guid_field, mitre_of, only_added, parse_guid_opt, parse_mitre_rule_name, Complaint,
    ParseError, Timestamp,
};
use vstd::prelude::*;

verus! {

// ---------------------------------------------------------------------------
// Fields
// ---------------------------------------------------------------------------

/// The text of a field.
pub open spec fn text_field(f: Map<Seq<char>, Seq<char>>, key: Seq<char>) -> Option<Seq<char>> {
    if f.contains_key(key) {
        Some(f[key])
    } else {
        None
    }
}

/// The number in a field, up to `max`, white space around it left out.
pub open spec fn number_field(f: Map<Seq<char>, Seq<char>>, key: Seq<char>, max: nat) -> Option<
    nat,
> {
    match text_field(f, key) {
        Some(s) => unsigned_of(trim_of(s), max),
        None => None,
    }
}

/// The 32-bit number in a field.
pub open spec fn u32_field(f: Map<Seq<char>, Seq<char>>, key: Seq<char>) -> Option<u32> {
    match number_field(f, key, 0xffff_ffff) {
        Some(n) => Some(n as u32),
        None => None,
    }
}

/// The 16-bit number in a field.
pub open spec fn u16_field(f: Map<Seq<char>, Seq<char>>, key: Seq<char>) -> Option<u16> {
    match number_field(f, key, 0xffff) {
        Some(n) => Some(n as u16),
        None => None,
    }
}

/// The truth value that a word names, in letters of either case.
pub open spec fn truth_of(s: Seq<char>) -> Option<bool> {
    let t = lowercase(trim_of(s));
    if t == "true"@ || t == "1"@ || t == "yes"@ {
        Some(true)
    } else if t == "false"@ || t == "0"@ || t == "no"@ {
        Some(false)
    } else {
        None
    }
}

/// The truth value in a field.
pub open spec fn bool_field(f: Map<Seq<char>, Seq<char>>, key: Seq<char>) -> Option<bool> {
    match text_field(f, key) {
        Some(s) => truth_of(s),
        None => None,
    }
}

/// The GUID with the given bytes.
pub open spec fn guid_from(bytes: Seq<u8>) -> ProcessGuid {
    choose|g: ProcessGuid| g@ == bytes
}

/// A GUID is found again by its bytes.
pub proof fn lemma_guid_from(g: ProcessGuid)
    ensures
        guid_from(g@) == g,
{
    let other = guid_from(g@);
    assert(other =~= g);
}

/// The GUID in a field; none where it is missing, blank or not readable.
pub open spec fn guid_value(f: Map<Seq<char>, Seq<char>>, key: Seq<char>) -> Option<ProcessGuid> {
    match text_field(f, key) {
        Some(s) => match guid_field(s) {
            Ok(Some(bytes)) => Some(guid_from(bytes)),
            _ => None,
        },
        None => None,
    }
}

/// The complaint about a GUID field that is not readable.
pub open spec fn guid_complaint(
    f: Map<Seq<char>, Seq<char>>,
    key: Seq<char>,
    line: u64,
) -> Seq<Complaint> {
    match text_field(f, key) {
        Some(s) => match guid_field(s) {
            Err(source) => seq![Complaint::InvalidGuid { line, guid: s, source }],
            Ok(_) => Seq::empty(),
        },
        None => Seq::empty(),
    }
}

/// The text of a field.
fn field<'a>(fields: &'a FieldMap, key: &str) -> (r: Option<&'a String>)
    ensures
        text_field(fields_of(*fields), key@) == (match r {
            Some(s) => Some(s@),
            None => None,
        }),
{
    fields.get(key)
}

/// A copy of the text of a field.
fn get_owned(fields: &FieldMap, key: &str) -> (r: Option<String>)
    ensures
        opt_text(r) == text_field(fields_of(*fields), key@),
{
    match field(fields, key) {
        Some(s) => Some(s.clone()),
        None => None,
    }
}

/// The number in a field, up to `max`.
fn get_number(fields: &FieldMap, key: &str, max: u64) -> (r: Option<u64>)
    ensures
        match r {
            Some(n) => number_field(fields_of(*fields), key@, max as nat) == Some(n as nat),
            None => number_field(fields_of(*fields), key@, max as nat) is None,
        },
{
    match field(fields, key) {
        Some(s) => {
            let t = trim(s.as_str());
            parse_unsigned(t.as_str(), max)
        },
        None => None,
    }
}

/// The 32-bit number in a field.
fn get_u32(fields: &FieldMap, key: &str) -> (r: Option<u32>)
    ensures
        r == u32_field(fields_of(*fields), key@),
{
    match get_number(fields, key, 0xffff_ffff) {
        Some(n) => Some(n as u32),
        None => None,
    }
}

/// The 16-bit number in a field.
fn get_u16(fields: &FieldMap, key: &str) -> (r: Option<u16>)
    ensures
        r == u16_field(fields_of(*fields), key@),
{
    match get_number(fields, key, 0xffff) {
        Some(n) => Some(n as u16),
        None => None,
    }
}

/// The truth value in a field.
fn get_bool(fields: &FieldMap, key: &str) -> (r: Option<bool>)
    ensures
        r == bool_field(fields_of(*fields), key@),
{
    match field(fields, key) {
        Some(s) => {
            let t = trim(s.as_str());
            let word = to_lowercase(t.as_str());
            let w = word.as_str();
            if same_text(w, "true") || same_text(w, "1") || same_text(w, "yes") {
                Some(true)
            } else if same_text(w, "false") || same_text(w, "0") || same_text(w, "no") {
                Some(false)
            } else {
                None
            }
        },
        None => None,
    }
}

/// Appending an error appends its complaint.
proof fn lemma_complaints_push(errors: Seq<ParseError>, e: ParseError)
    ensures
        complaints(errors.push(e)) == complaints(errors).push(e@),
{
    assert(complaints(errors.push(e)) =~= complaints(errors).push(e@));
}

/// The GUID in a field; one that is not readable is reported.
fn get_guid(fields: &FieldMap, key: &str, line: u64, errors: &mut Vec<ParseError>) -> (r: Option<
    ProcessGuid,
>)
    ensures
        r == guid_value(fields_of(*fields), key@),
        complaints(final(errors)@) == complaints(old(errors)@) + guid_complaint(
            fields_of(*fields),
            key@,
            line,
        ),
        only_added(old(errors)@, final(errors)@),
{
    match field(fields, key) {
        None => None,
        Some(s) => match parse_guid_opt(s.as_str()) {
            Ok(g) => {
                proof {
                    if let Some(b) = g {
                        lemma_guid_from(b);
                    }
                }
                g
            },
            Err(e) => {
                let error = ParseError::InvalidGuid { line, guid: s.clone(), source: e };
                proof {
                    lemma_complaints_push(errors@, error);
                }
                errors.push(error);
                assert(complaints(errors@) =~= complaints(old(errors)@) + guid_complaint(
                    fields_of(*fields),
                    key@,
                    line,
                ));
                None
            },
        },
    }
}

/// A copy of a field map.
fn copy_fields(fields: &FieldMap) -> (r: FieldMap)
    ensures
        fields_of(r) == fields_of(*fields),
{
    let n: usize = fields.len();
    let mut r: FieldMap = TextMap::new();
    let ghost names = fields.names();
    let mut i: usize = 0;
    while i < n
        invariant
            i <= n,
            n == names.len(),
            n == fields@.dom().len(),
            names == fields.names(),
            names.no_duplicates(),
            forall|j: int| 0 <= j < n ==> fields@.contains_key(#[trigger] names[j]),
            forall|k: Seq<char>| #[trigger]
                fields_of(r).contains_key(k) <==> exists|j: int|
                    0 <= j < i && #[trigger] names[j] == k,
            forall|k: Seq<char>| #[trigger]
                fields_of(r).contains_key(k) ==> fields_of(r)[k] == fields_of(*fields)[k],
        decreases n - i,
    {
        let ghost before = fields_of(r);
        let name = fields.name_at(i).to_owned();
        let value = fields.value_at(i).clone();
        let ghost key = name@;
        r.insert(name, value);
        assert(fields_of(r) =~= before.insert(key, value@));
        assert(key == names[i as int]);
        assert forall|k: Seq<char>| #[trigger] fields_of(r).contains_key(k) implies exists|j: int|
            0 <= j < i + 1 && #[trigger] names[j] == k by {
            if k == key {
                assert(names[i as int] == k);
            } else {
                assert(before.contains_key(k));
                let j = choose|j: int| 0 <= j < i && #[trigger] names[j] == k;
                assert(names[j] == k);
            }
        }
        i += 1;
    }
    assert forall|k: Seq<char>| #[trigger] fields_of(*fields).contains_key(k) implies fields_of(
        r,
    ).contains_key(k) by {
        assert(fields@.contains_key(k));
        assert(names.contains(k));
        let j = choose|j: int| 0 <= j < names.len() && names[j] == k;
        assert(names[j] == k);
    }
    assert(fields_of(r) =~= fields_of(*fields));
    r
}

// ---------------------------------------------------------------------------
// Details
// ---------------------------------------------------------------------------

/// The complaints about the GUIDs of an event's details.
pub open spec fn detail_complaints(
    event_id: u16,
    f: Map<Seq<char>, Seq<char>>,
    line: u64,
) -> Seq<Complaint> {
    if event_id == 1 {
        guid_complaint(f, "ParentProcessGuid"@, line)
    } else if event_id == 8 || event_id == 10 {
        guid_complaint(f, "SourceProcessGuid"@, line) + guid_complaint(
            f,
            "TargetProcessGuid"@,
            line,
        )
    } else {
        Seq::empty()
    }
}

/// The detail payload of an event with the given number and fields.
pub open spec fn detail_of(event_id: u16, f: Map<Seq<char>, Seq<char>>) -> DetailText {
    match event_id {
        1 => EventDetail::ProcessCreate {
            command_line: text_field(f, "CommandLine"@),
            current_directory: text_field(f, "CurrentDirectory"@),
            hashes: text_field(f, "Hashes"@),
            parent_process_guid: guid_value(f, "ParentProcessGuid"@),
            parent_process_id: u32_field(f, "ParentProcessId"@),
            parent_image: text_field(f, "ParentImage"@),
            parent_command_line: text_field(f, "ParentCommandLine"@),
            parent_user: text_field(f, "ParentUser"@),
            logon_guid: text_field(f, "LogonGuid"@),
            logon_id: text_field(f, "LogonId"@),
            terminal_session_id: u32_field(f, "TerminalSessionId"@),
            integrity_level: text_field(f, "IntegrityLevel"@),
            file_version: text_field(f, "FileVersion"@),
            description: text_field(f, "Description"@),
            product: text_field(f, "Product"@),
            company: text_field(f, "Company"@),
            original_file_name: text_field(f, "OriginalFileName"@),
        },
        2 => EventDetail::FileCreateTime {
            target_filename: text_field(f, "TargetFilename"@),
            creation_utc_time: text_field(f, "CreationUtcTime"@),
            previous_creation_utc_time: text_field(f, "PreviousCreationUtcTime"@),
        },
        3 => EventDetail::NetworkConnect {
            protocol: text_field(f, "Protocol"@),
            initiated: bool_field(f, "Initiated"@),
            source_ip: text_field(f, "SourceIp"@),
            source_port: u16_field(f, "SourcePort"@),
            source_hostname: text_field(f, "SourceHostname"@),
            destination_ip: text_field(f, "DestinationIp"@),
            destination_port: u16_field(f, "DestinationPort"@),
            destination_hostname: text_field(f, "DestinationHostname"@),
        },
        5 => EventDetail::ProcessTerminate,
        6 => EventDetail::DriverLoad {
            image_loaded: text_field(f, "ImageLoaded"@),
            hashes: text_field(f, "Hashes"@),
            signature: text_field(f, "Signature"@),
            signature_status: text_field(f, "SignatureStatus"@),
        },
        7 => EventDetail::ImageLoad {
            image_loaded: text_field(f, "ImageLoaded"@),
            hashes: text_field(f, "Hashes"@),
            signature: text_field(f, "Signature"@),
            signature_status: text_field(f, "SignatureStatus"@),
            signed: bool_field(f, "Signed"@),
        },
        8 => EventDetail::CreateRemoteThread {
            source_process_guid: guid_value(f, "SourceProcessGuid"@),
            source_process_id: u32_field(f, "SourceProcessId"@),
            source_image: text_field(f, "SourceImage"@),
            target_process_guid: guid_value(f, "TargetProcessGuid"@),
            target_process_id: u32_field(f, "TargetProcessId"@),
            target_image: text_field(f, "TargetImage"@),
            start_address: text_field(f, "StartAddress"@),
            start_module: text_field(f, "StartModule"@),
            start_function: text_field(f, "StartFunction"@),
        },
        9 => EventDetail::RawAccessRead {
            device: text_field(f, "Device"@),
        },
        10 => EventDetail::ProcessAccess {
            source_process_guid: guid_value(f, "SourceProcessGuid"@),
            source_process_id: u32_field(f, "SourceProcessId"@),
            source_image: text_field(f, "SourceImage"@),
            target_process_guid: guid_value(f, "TargetProcessGuid"@),
            target_process_id: u32_field(f, "TargetProcessId"@),
            target_image: text_field(f, "TargetImage"@),
            granted_access: text_field(f, "GrantedAccess"@),
            call_trace: text_field(f, "CallTrace"@),
        },
        11 => EventDetail::FileCreate {
            target_filename: text_field(f, "TargetFilename"@),
            creation_utc_time: text_field(f, "CreationUtcTime"@),
        },
        12 => EventDetail::RegistryEvent {
            event_type: text_field(f, "EventType"@),
            target_object: text_field(f, "TargetObject"@),
            details: None,
            new_name: None,
        },
        13 => EventDetail::RegistryEvent {
            event_type: text_field(f, "EventType"@),
            target_object: text_field(f, "TargetObject"@),
            details: text_field(f, "Details"@),
            new_name: None,
        },
        14 => EventDetail::RegistryEvent {
            event_type: text_field(f, "EventType"@),
            target_object: text_field(f, "TargetObject"@),
            details: None,
            new_name: text_field(f, "NewName"@),
        },
        15 => EventDetail::FileCreateStreamHash {
            target_filename: text_field(f, "TargetFilename"@),
            hash: text_field(f, "Hash"@),
            contents: text_field(f, "Contents"@),
        },
        16 => EventDetail::SysmonConfigChange {
            configuration: text_field(f, "Configuration"@),
            configuration_file_hash: text_field(f, "ConfigurationFileHash"@),
        },
        17 => EventDetail::PipeEvent {
            event_type: "CreatePipe"@,
            pipe_name: text_field(f, "PipeName"@),
        },
        18 => EventDetail::PipeEvent {
            event_type: "ConnectPipe"@,
            pipe_name: text_field(f, "PipeName"@),
        },
        19 => EventDetail::WmiActivity {
            event_type: "WmiFilter"@,
            operation: text_field(f, "Operation"@),
            user: text_field(f, "User"@),
            event_namespace: text_field(f, "EventNamespace"@),
            name: text_field(f, "Name"@),
            query: text_field(f, "Query"@),
            destination: text_field(f, "Destination"@),
            consumer_type: text_field(f, "Type"@),
            filter_name: text_field(f, "FilterName"@),
        },
        20 => EventDetail::WmiActivity {
            event_type: "WmiConsumer"@,
            operation: text_field(f, "Operation"@),
            user: text_field(f, "User"@),
            event_namespace: text_field(f, "EventNamespace"@),
            name: text_field(f, "Name"@),
            query: text_field(f, "Query"@),
            destination: text_field(f, "Destination"@),
            consumer_type: text_field(f, "Type"@),
            filter_name: text_field(f, "FilterName"@),
        },
        21 => EventDetail::WmiActivity {
            event_type: "WmiBinding"@,
            operation: text_field(f, "Operation"@),
            user: text_field(f, "User"@),
            event_namespace: text_field(f, "EventNamespace"@),
            name: text_field(f, "Name"@),
            query: text_field(f, "Query"@),
            destination: text_field(f, "Destination"@),
            consumer_type: text_field(f, "Type"@),
            filter_name: text_field(f, "FilterName"@),
        },
        22 => EventDetail::DnsQuery {
            query_name: text_field(f, "QueryName"@),
            query_status: text_field(f, "QueryStatus"@),
            query_results: text_field(f, "QueryResults"@),
        },
        23 | 26 | 27 | 28 | 29 => EventDetail::FileDeleteEvent {
            target_filename: text_field(f, "TargetFilename"@),
            hashes: text_field(f, "Hashes"@),
            is_executable: bool_field(f, "IsExecutable"@),
        },
        24 => EventDetail::ClipboardChange {
            session: text_field(f, "Session"@),
            client_info: text_field(f, "ClientInfo"@),
            hashes: text_field(f, "Hashes"@),
        },
        25 => EventDetail::ProcessTampering {
            tampering_type: text_field(f, "Type"@),
        },
        _ => EventDetail::Generic { fields: f },
    }
}

/// The detail payload of an event with the given number and fields.
pub fn build_detail(
    event_id: u16,
    fields: &FieldMap,
    line: u64,
    errors: &mut Vec<ParseError>,
) -> (d: EventDetail)
    ensures
        d@ == detail_of(event_id, fields_of(*fields)),
        complaints(final(errors)@) == complaints(old(errors)@) + detail_complaints(
            event_id,
            fields_of(*fields),
            line,
        ),
        only_added(old(errors)@, final(errors)@),
{
    match event_id {
        1 => EventDetail::ProcessCreate {
            command_line: get_owned(fields, "CommandLine"),
            current_directory: get_owned(fields, "CurrentDirectory"),
            hashes: get_owned(fields, "Hashes"),
            parent_process_guid: get_guid(fields, "ParentProcessGuid", line, errors),
            parent_process_id: get_u32(fields, "ParentProcessId"),
            parent_image: get_owned(fields, "ParentImage"),
            parent_command_line: get_owned(fields, "ParentCommandLine"),
            parent_user: get_owned(fields, "ParentUser"),
            logon_guid: get_owned(fields, "LogonGuid"),
            logon_id: get_owned(fields, "LogonId"),
            terminal_session_id: get_u32(fields, "TerminalSessionId"),
            integrity_level: get_owned(fields, "IntegrityLevel"),
            file_version: get_owned(fields, "FileVersion"),
            description: get_owned(fields, "Description"),
            product: get_owned(fields, "Product"),
            company: get_owned(fields, "Company"),
            original_file_name: get_owned(fields, "OriginalFileName"),
        },
        2 => EventDetail::FileCreateTime {
            target_filename: get_owned(fields, "TargetFilename"),
            creation_utc_time: get_owned(fields, "CreationUtcTime"),
            previous_creation_utc_time: get_owned(fields, "PreviousCreationUtcTime"),
        },
        3 => EventDetail::NetworkConnect {
            protocol: get_owned(fields, "Protocol"),
            initiated: get_bool(fields, "Initiated"),
            source_ip: get_owned(fields, "SourceIp"),
            source_port: get_u16(fields, "SourcePort"),
            source_hostname: get_owned(fields, "SourceHostname"),
            destination_ip: get_owned(fields, "DestinationIp"),
            destination_port: get_u16(fields, "DestinationPort"),
            destination_hostname: get_owned(fields, "DestinationHostname"),
        },
        5 => EventDetail::ProcessTerminate,
        6 => EventDetail::DriverLoad {
            image_loaded: get_owned(fields, "ImageLoaded"),
            hashes: get_owned(fields, "Hashes"),
            signature: get_owned(fields, "Signature"),
            signature_status: get_owned(fields, "SignatureStatus"),
        },
        7 => EventDetail::ImageLoad {
            image_loaded: get_owned(fields, "ImageLoaded"),
            hashes: get_owned(fields, "Hashes"),
            signature: get_owned(fields, "Signature"),
            signature_status: get_owned(fields, "SignatureStatus"),
            signed: get_bool(fields, "Signed"),
        },
        8 => EventDetail::CreateRemoteThread {
            source_process_guid: get_guid(fields, "SourceProcessGuid", line, errors),
            source_process_id: get_u32(fields, "SourceProcessId"),
            source_image: get_owned(fields, "SourceImage"),
            target_process_guid: get_guid(fields, "TargetProcessGuid", line, errors),
            target_process_id: get_u32(fields, "TargetProcessId"),
            target_image: get_owned(fields, "TargetImage"),
            start_address: get_owned(fields, "StartAddress"),
            start_module: get_owned(fields, "StartModule"),
            start_function: get_owned(fields, "StartFunction"),
        },
        9 => EventDetail::RawAccessRead {
            device: get_owned(fields, "Device"),
        },
        10 => EventDetail::ProcessAccess {
            source_process_guid: get_guid(fields, "SourceProcessGuid", line, errors),
            source_process_id: get_u32(fields, "SourceProcessId"),
            source_image: get_owned(fields, "SourceImage"),
            target_process_guid: get_guid(fields, "TargetProcessGuid", line, errors),
            target_process_id: get_u32(fields, "TargetProcessId"),
            target_image: get_owned(fields, "TargetImage"),
            granted_access: get_owned(fields, "GrantedAccess"),
            call_trace: get_owned(fields, "CallTrace"),
        },
        11 => EventDetail::FileCreate {
            target_filename: get_owned(fields, "TargetFilename"),
            creation_utc_time: get_owned(fields, "CreationUtcTime"),
        },
        12 => EventDetail::RegistryEvent {
            event_type: get_owned(fields, "EventType"),
            target_object: get_owned(fields, "TargetObject"),
            details: None,
            new_name: None,
        },
        13 => EventDetail::RegistryEvent {
            event_type: get_owned(fields, "EventType"),
            target_object: get_owned(fields, "TargetObject"),
            details: get_owned(fields, "Details"),
            new_name: None,
        },
        14 => EventDetail::RegistryEvent {
            event_type: get_owned(fields, "EventType"),
            target_object: get_owned(fields, "TargetObject"),
            details: None,
            new_name: get_owned(fields, "NewName"),
        },
        15 => EventDetail::FileCreateStreamHash {
            target_filename: get_owned(fields, "TargetFilename"),
            hash: get_owned(fields, "Hash"),
            contents: get_owned(fields, "Contents"),
        },
        16 => EventDetail::SysmonConfigChange {
            configuration: get_owned(fields, "Configuration"),
            configuration_file_hash: get_owned(fields, "ConfigurationFileHash"),
        },
        17 => EventDetail::PipeEvent {
            event_type: "CreatePipe".to_owned(),
            pipe_name: get_owned(fields, "PipeName"),
        },
        18 => EventDetail::PipeEvent {
            event_type: "ConnectPipe".to_owned(),
            pipe_name: get_owned(fields, "PipeName"),
        },
        19 => EventDetail::WmiActivity {
            event_type: "WmiFilter".to_owned(),
            operation: get_owned(fields, "Operation"),
            user: get_owned(fields, "User"),
            event_namespace: get_owned(fields, "EventNamespace"),
            name: get_owned(fields, "Name"),
            query: get_owned(fields, "Query"),
            destination: get_owned(fields, "Destination"),
            consumer_type: get_owned(fields, "Type"),
            filter_name: get_owned(fields, "FilterName"),
        },
        20 => EventDetail::WmiActivity {
            event_type: "WmiConsumer".to_owned(),
            operation: get_owned(fields, "Operation"),
            user: get_owned(fields, "User"),
            event_namespace: get_owned(fields, "EventNamespace"),
            name: get_owned(fields, "Name"),
            query: get_owned(fields, "Query"),
            destination: get_owned(fields, "Destination"),
            consumer_type: get_owned(fields, "Type"),
            filter_name: get_owned(fields, "FilterName"),
        },
        21 => EventDetail::WmiActivity {
            event_type: "WmiBinding".to_owned(),
            operation: get_owned(fields, "Operation"),
            user: get_owned(fields, "User"),
            event_namespace: get_owned(fields, "EventNamespace"),
            name: get_owned(fields, "Name"),
            query: get_owned(fields, "Query"),
            destination: get_owned(fields, "Destination"),
            consumer_type: get_owned(fields, "Type"),
            filter_name: get_owned(fields, "FilterName"),
        },
        22 => EventDetail::DnsQuery {
            query_name: get_owned(fields, "QueryName"),
            query_status: get_owned(fields, "QueryStatus"),
            query_results: get_owned(fields, "QueryResults"),
        },
        23 | 26 | 27 | 28 | 29 => EventDetail::FileDeleteEvent {
            target_filename: get_owned(fields, "TargetFilename"),
            hashes: get_owned(fields, "Hashes"),
            is_executable: get_bool(fields, "IsExecutable"),
        },
        24 => EventDetail::ClipboardChange {
            session: get_owned(fields, "Session"),
            client_info: get_owned(fields, "ClientInfo"),
            hashes: get_owned(fields, "Hashes"),
        },
        25 => EventDetail::ProcessTampering {
            tampering_type: get_owned(fields, "Type"),
        },
        _ => EventDetail::Generic { fields: copy_fields(fields) },
    }
}

// ---------------------------------------------------------------------------
// Events
// ---------------------------------------------------------------------------

/// One record of an exported log: the number, time, record number, payload and
/// computer of an event, and what else the export knows of it.
pub struct RawEvtxRecord<S = String> {
    pub event_id: u16,
    pub time_created: S,
    pub record_number: u64,
    pub payload: S,
    pub computer: S,
    pub user_name: Option<S>,
    pub map_description: Option<S>,
    pub executable_info: Option<S>,
    pub payload_data1: Option<S>,
    pub payload_data2: Option<S>,
    pub payload_data3: Option<S>,
    pub payload_data4: Option<S>,
    pub payload_data5: Option<S>,
    pub payload_data6: Option<S>,
}

/// A record as text.
pub type RecordText = RawEvtxRecord<Seq<char>>;

impl RawEvtxRecord {
    /// The record as text.
    pub open spec fn view(&self) -> RecordText {
        RawEvtxRecord {
            event_id: self.event_id,
            time_created: self.time_created@,
            record_number: self.record_number,
            payload: self.payload@,
            computer: self.computer@,
            user_name: opt_text(self.user_name),
            map_description: opt_text(self.map_description),
            executable_info: opt_text(self.executable_info),
            payload_data1: opt_text(self.payload_data1),
            payload_data2: opt_text(self.payload_data2),
            payload_data3: opt_text(self.payload_data3),
            payload_data4: opt_text(self.payload_data4),
            payload_data5: opt_text(self.payload_data5),
            payload_data6: opt_text(self.payload_data6),
        }
    }
}

/// The event that a record and the fields of its payload make; none where the
/// time of the record is not readable.
pub open spec fn event_of(raw: RecordText, f: Map<Seq<char>, Seq<char>>) -> Option<EventText> {
    match instant_of(trim_of(raw.time_created)) {
        None => None,
        Some(time) => Some(
            SysmonEvent {
                event_id: raw.event_id,
                event_type: SysmonEventType::of_number(raw.event_id),
                time_created: time,
                record_number: raw.record_number,
                computer: raw.computer,
                process_guid: guid_value(f, "ProcessGuid"@),
                process_id: u32_field(f, "ProcessId"@),
                image: text_field(f, "Image"@),
                user: match raw.user_name {
                    Some(u) => Some(u),
                    None => text_field(f, "User"@),
                },
                rule_name: text_field(f, "RuleName"@),
                mitre_technique: match text_field(f, "RuleName"@) {
                    Some(r) => mitre_of(r),
                    None => None,
                },
                detail: detail_of(raw.event_id, f),
            },
        ),
    }
}

/// A record makes the same event whatever else the export knows of it, and in
/// whatever form its time is written.
pub proof fn law_records_agree(a: RecordText, b: RecordText, f: Map<Seq<char>, Seq<char>>)
    requires
        a.event_id == b.event_id,
        a.record_number == b.record_number,
        a.computer == b.computer,
        a.user_name == b.user_name,
        instant_of(trim_of(a.time_created)) == instant_of(trim_of(b.time_created)),
    ensures
        event_of(a, f) == event_of(b, f),
{
}

/// What is wrong with a record: its time, or its GUIDs.
pub open spec fn event_complaints(
    raw: RecordText,
    f: Map<Seq<char>, Seq<char>>,
    line: u64,
) -> Seq<Complaint> {
    let time = trim_of(raw.time_created);
    if instant_of(time) is None {
        seq![Complaint::InvalidTimestamp { line, value: time, source: unknown_form() }]
    } else {
        guid_complaint(f, "ProcessGuid"@, line) + detail_complaints(raw.event_id, f, line)
    }
}

/// Reads the time of a record; one that is not readable is reported.
fn parse_timestamp(s: &str, line: u64, errors: &mut Vec<ParseError>) -> (r: Option<Timestamp>)
    ensures
        r == instant_of(trim_of(s@)),
        complaints(final(errors)@) == (if r is Some {
            complaints(old(errors)@)
        } else {
            complaints(old(errors)@).push(
                Complaint::InvalidTimestamp { line, value: trim_of(s@), source: unknown_form() },
            )
        }),
        only_added(old(errors)@, final(errors)@),
{
    let t = trim(s);
    match read_instant(t.as_str()) {
        Some(time) => Some(time),
        None => {
            let source = unknown_form_text();
            let error = ParseError::InvalidTimestamp { line, value: t, source };
            proof {
                lemma_complaints_push(errors@, error);
            }
            errors.push(error);
            None
        },
    }
}

/// Builds an event from a raw record and the fields of its payload.
///
/// `computer`, `image` and `user` are interned into `rodeo`.
pub fn extract_event(
    raw: RawEvtxRecord,
    fields: &FieldMap,
    line: u64,
    errors: &mut Vec<ParseError>,
    rodeo: &SharedRodeo,
) -> (r: Option<SysmonEvent>)
    ensures
        match r {
            Some(e) => e.held_by(*rodeo) && event_of(raw@, fields_of(*fields)) == Some(
                e.resolved(*rodeo),
            ),
            None => event_of(raw@, fields_of(*fields)) is None,
        },
        complaints(final(errors)@) == complaints(old(errors)@) + event_complaints(
            raw@,
            fields_of(*fields),
            line,
        ),
        only_added(old(errors)@, final(errors)@),
{
    let event_type = SysmonEventType::from_event_id(raw.event_id);
    let time_created = match parse_timestamp(raw.time_created.as_str(), line, errors) {
        Some(t) => t,
        None => {
            assert(complaints(errors@) =~= complaints(old(errors)@) + event_complaints(
                raw@,
                fields_of(*fields),
                line,
            ));
            return None;
        },
    };
    let process_guid = get_guid(fields, "ProcessGuid", line, errors);
    let process_id = get_u32(fields, "ProcessId");
    let image = match field(fields, "Image") {
        Some(s) => Some(intern(rodeo, s.as_str())),
        None => None,
    };
    let user = match &raw.user_name {
        Some(s) => Some(intern(rodeo, s.as_str())),
        None => match field(fields, "User") {
            Some(s) => Some(intern(rodeo, s.as_str())),
            None => None,
        },
    };
    let computer = intern(rodeo, raw.computer.as_str());
    let rule_name = get_owned(fields, "RuleName");
    let mitre_technique = match &rule_name {
        Some(s) => parse_mitre_rule_name(s.as_str()),
        None => None,
    };
    let detail = build_detail(raw.event_id, fields, line, errors);
    assert(complaints(errors@) =~= complaints(old(errors)@) + event_complaints(
        raw@,
        fields_of(*fields),
        line,
    ));
    Some(
        SysmonEvent {
            event_id: raw.event_id,
            event_type,
            time_created,
            record_number: raw.record_number,
            computer,
            process_guid,
            process_id,
            image,
            user,
            rule_name,
            mitre_technique,
            detail,
        },
    )
}

// ---------------------------------------------------------------------------
// Batches
// ---------------------------------------------------------------------------

/// The number of events that are handed on together.
pub const BATCH_SIZE: usize = 500;

/// The events of a list, as text.
pub open spec fn events_text(v: Seq<SysmonEvent>, r: SharedRodeo) -> Seq<EventText> {
    v.map_values(|e: SysmonEvent| e.resolved(r))
}

/// Whether the interner holds the keys of all events of a list.
pub open spec fn all_held(v: Seq<SysmonEvent>, r: SharedRodeo) -> bool {
    forall|i: int| 0 <= i < v.len() ==> (#[trigger] v[i]).held_by(r)
}

/// A list with one event where there is one.
pub open spec fn at_most_one(e: Option<EventText>) -> Seq<EventText> {
    match e {
        Some(e) => seq![e],
        None => Seq::empty(),
    }
}

/// Takes the batch out once it is full, leaving an empty one.
pub fn take_full(batch: &mut Vec<SysmonEvent>) -> (full: Option<Vec<SysmonEvent>>)
    ensures
        match full {
            Some(f) => old(batch)@.len() >= BATCH_SIZE && f@ == old(batch)@
                && final(batch)@.len() == 0,
            None => old(batch)@.len() < BATCH_SIZE && final(batch)@ == old(batch)@,
        },
{
    if batch.len() < BATCH_SIZE {
        return None;
    }
    let mut full: Vec<SysmonEvent> = Vec::new();
    std::mem::swap(batch, &mut full);
    Some(full)
}

/// Adds the event of a record to the batch, and its complaints to the errors.
pub fn add_record(
    raw: RawEvtxRecord,
    fields: &FieldMap,
    line: u64,
    batch: &mut Vec<SysmonEvent>,
    errors: &mut Vec<ParseError>,
    rodeo: &SharedRodeo,
)
    requires
        all_held(old(batch)@, *rodeo),
    ensures
        all_held(final(batch)@, *rodeo),
        events_text(final(batch)@, *rodeo) == events_text(old(batch)@, *rodeo) + at_most_one(
            event_of(raw@, fields_of(*fields)),
        ),
        complaints(final(errors)@) == complaints(old(errors)@) + event_complaints(
            raw@,
            fields_of(*fields),
            line,
        ),
        only_added(old(errors)@, final(errors)@),
{
    let ghost want = event_of(raw@, fields_of(*fields));
    match extract_event(raw, fields, line, errors, rodeo) {
        Some(event) => {
            batch.push(event);
        },
        None => {},
    }
    assert(events_text(batch@, *rodeo) =~= events_text(old(batch)@, *rodeo) + at_most_one(want));
}

} // verus!
