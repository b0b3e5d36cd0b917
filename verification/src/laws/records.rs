//! Laws of records: what a log says in a field is what the event holds and what
//! rules see.

use crate::clock::instant_of;
use crate::event::{EventDetail, EventText};
use crate::guid::{hyphenated_text, law_hyphenated_reads_back, ProcessGuid};
use crate::laws::texts::{law_decimal_reads_back, law_trimmed_texts_stay};
use crate::numbers::decimal;
use crate::parser::{
    event_of, guid_value, lemma_guid_from, truth_of, u16_field, u32_field, RecordText,
};
use crate::sigma::category_events;
use crate::sigma::matcher::field_value;
use crate::text::{lowercase, trim_of};
use vstd::prelude::*;

verus! {

/// The fields of a record, by their names.
pub type Fields = Map<Seq<char>, Seq<char>>;

/// Whether a rule sees a field of an event as the log has it: the same text under
/// the same name, and nothing where the log has nothing.
pub open spec fn tells(e: EventText, f: Fields, name: Seq<char>) -> bool {
    field_value(e, name) == if f.contains_key(name) {
        Some(f[name])
    } else {
        None
    }
}

/// The names of fields differ in length or in their first letters.
proof fn lemma_names()
    ensures
        "Image"@.len() == 5 && "Image"@[0] == 'I' && "Image"@[1] == 'm',
        "User"@.len() == 4 && "User"@[0] == 'U' && "User"@[1] == 's',
        "Computer"@.len() == 8 && "Computer"@[0] == 'C' && "Computer"@[1] == 'o',
        "RuleName"@.len() == 8 && "RuleName"@[0] == 'R' && "RuleName"@[1] == 'u',
        "SourcePort"@.len() == 10 && "SourcePort"@[0] == 'S' && "SourcePort"@[1] == 'o',
        "DestinationPort"@.len() == 15 && "DestinationPort"@[0] == 'D' && "DestinationPort"@[1] == 'e',
        "Initiated"@.len() == 9 && "Initiated"@[0] == 'I' && "Initiated"@[1] == 'n',
        "IsExecutable"@.len() == 12 && "IsExecutable"@[0] == 'I' && "IsExecutable"@[1] == 's',
        "CommandLine"@.len() == 11 && "CommandLine"@[0] == 'C' && "CommandLine"@[1] == 'o',
        "CurrentDirectory"@.len() == 16 && "CurrentDirectory"@[0] == 'C' && "CurrentDirectory"@[1] == 'u',
        "Hashes"@.len() == 6 && "Hashes"@[0] == 'H' && "Hashes"@[1] == 'a',
        "ParentImage"@.len() == 11 && "ParentImage"@[0] == 'P' && "ParentImage"@[1] == 'a',
        "ParentCommandLine"@.len() == 17 && "ParentCommandLine"@[0] == 'P' && "ParentCommandLine"@[1] == 'a',
        "ParentUser"@.len() == 10 && "ParentUser"@[0] == 'P' && "ParentUser"@[1] == 'a',
        "IntegrityLevel"@.len() == 14 && "IntegrityLevel"@[0] == 'I' && "IntegrityLevel"@[1] == 'n',
        "FileVersion"@.len() == 11 && "FileVersion"@[0] == 'F' && "FileVersion"@[1] == 'i',
        "Description"@.len() == 11 && "Description"@[0] == 'D' && "Description"@[1] == 'e',
        "Product"@.len() == 7 && "Product"@[0] == 'P' && "Product"@[1] == 'r',
        "Company"@.len() == 7 && "Company"@[0] == 'C' && "Company"@[1] == 'o',
        "OriginalFileName"@.len() == 16 && "OriginalFileName"@[0] == 'O' && "OriginalFileName"@[1] == 'r',
        "TargetFilename"@.len() == 14 && "TargetFilename"@[0] == 'T' && "TargetFilename"@[1] == 'a',
        "Protocol"@.len() == 8 && "Protocol"@[0] == 'P' && "Protocol"@[1] == 'r',
        "SourceIp"@.len() == 8 && "SourceIp"@[0] == 'S' && "SourceIp"@[1] == 'o',
        "SourceHostname"@.len() == 14 && "SourceHostname"@[0] == 'S' && "SourceHostname"@[1] == 'o',
        "DestinationIp"@.len() == 13 && "DestinationIp"@[0] == 'D' && "DestinationIp"@[1] == 'e',
        "DestinationHostname"@.len() == 19 && "DestinationHostname"@[0] == 'D' && "DestinationHostname"@[1] == 'e',
        "ImageLoaded"@.len() == 11 && "ImageLoaded"@[0] == 'I' && "ImageLoaded"@[1] == 'm',
        "Signature"@.len() == 9 && "Signature"@[0] == 'S' && "Signature"@[1] == 'i',
        "SignatureStatus"@.len() == 15 && "SignatureStatus"@[0] == 'S' && "SignatureStatus"@[1] == 'i',
        "SourceImage"@.len() == 11 && "SourceImage"@[0] == 'S' && "SourceImage"@[1] == 'o',
        "TargetImage"@.len() == 11 && "TargetImage"@[0] == 'T' && "TargetImage"@[1] == 'a',
        "StartAddress"@.len() == 12 && "StartAddress"@[0] == 'S' && "StartAddress"@[1] == 't',
        "StartModule"@.len() == 11 && "StartModule"@[0] == 'S' && "StartModule"@[1] == 't',
        "StartFunction"@.len() == 13 && "StartFunction"@[0] == 'S' && "StartFunction"@[1] == 't',
        "Device"@.len() == 6 && "Device"@[0] == 'D' && "Device"@[1] == 'e',
        "GrantedAccess"@.len() == 13 && "GrantedAccess"@[0] == 'G' && "GrantedAccess"@[1] == 'r',
        "CallTrace"@.len() == 9 && "CallTrace"@[0] == 'C' && "CallTrace"@[1] == 'a',
        "EventType"@.len() == 9 && "EventType"@[0] == 'E' && "EventType"@[1] == 'v',
        "TargetObject"@.len() == 12 && "TargetObject"@[0] == 'T' && "TargetObject"@[1] == 'a',
        "Details"@.len() == 7 && "Details"@[0] == 'D' && "Details"@[1] == 'e',
        "NewName"@.len() == 7 && "NewName"@[0] == 'N' && "NewName"@[1] == 'e',
        "PipeName"@.len() == 8 && "PipeName"@[0] == 'P' && "PipeName"@[1] == 'i',
        "Operation"@.len() == 9 && "Operation"@[0] == 'O' && "Operation"@[1] == 'p',
        "Name"@.len() == 4 && "Name"@[0] == 'N' && "Name"@[1] == 'a',
        "Query"@.len() == 5 && "Query"@[0] == 'Q' && "Query"@[1] == 'u',
        "QueryName"@.len() == 9 && "QueryName"@[0] == 'Q' && "QueryName"@[1] == 'u',
        "QueryStatus"@.len() == 11 && "QueryStatus"@[0] == 'Q' && "QueryStatus"@[1] == 'u',
        "QueryResults"@.len() == 12 && "QueryResults"@[0] == 'Q' && "QueryResults"@[1] == 'u',
        "Session"@.len() == 7 && "Session"@[0] == 'S' && "Session"@[1] == 'e',
        "ClientInfo"@.len() == 10 && "ClientInfo"@[0] == 'C' && "ClientInfo"@[1] == 'l',
        "Type"@.len() == 4 && "Type"@[0] == 'T' && "Type"@[1] == 'y',
{
    reveal_strlit("Image");
    reveal_strlit("User");
    reveal_strlit("Computer");
    reveal_strlit("RuleName");
    reveal_strlit("SourcePort");
    reveal_strlit("DestinationPort");
    reveal_strlit("Initiated");
    reveal_strlit("IsExecutable");
    reveal_strlit("CommandLine");
    reveal_strlit("CurrentDirectory");
    reveal_strlit("Hashes");
    reveal_strlit("ParentImage");
    reveal_strlit("ParentCommandLine");
    reveal_strlit("ParentUser");
    reveal_strlit("IntegrityLevel");
    reveal_strlit("FileVersion");
    reveal_strlit("Description");
    reveal_strlit("Product");
    reveal_strlit("Company");
    reveal_strlit("OriginalFileName");
    reveal_strlit("TargetFilename");
    reveal_strlit("Protocol");
    reveal_strlit("SourceIp");
    reveal_strlit("SourceHostname");
    reveal_strlit("DestinationIp");
    reveal_strlit("DestinationHostname");
    reveal_strlit("ImageLoaded");
    reveal_strlit("Signature");
    reveal_strlit("SignatureStatus");
    reveal_strlit("SourceImage");
    reveal_strlit("TargetImage");
    reveal_strlit("StartAddress");
    reveal_strlit("StartModule");
    reveal_strlit("StartFunction");
    reveal_strlit("Device");
    reveal_strlit("GrantedAccess");
    reveal_strlit("CallTrace");
    reveal_strlit("EventType");
    reveal_strlit("TargetObject");
    reveal_strlit("Details");
    reveal_strlit("NewName");
    reveal_strlit("PipeName");
    reveal_strlit("Operation");
    reveal_strlit("Name");
    reveal_strlit("Query");
    reveal_strlit("QueryName");
    reveal_strlit("QueryStatus");
    reveal_strlit("QueryResults");
    reveal_strlit("Session");
    reveal_strlit("ClientInfo");
    reveal_strlit("Type");
}

/// What a log says of an event in a field of text, a rule on that field sees, under
/// the name that the log gives it.
pub proof fn law_rules_see_what_the_log_says(raw: RecordText, f: Fields, e: EventText)
    requires
        event_of(raw, f) == Some(e),
    ensures
        tells(e, f, "Image"@),
        tells(e, f, "RuleName"@),
        field_value(e, "Computer"@) == Some(raw.computer),
        raw.user_name is None ==> tells(e, f, "User"@),
        raw.user_name is Some ==> field_value(e, "User"@) == raw.user_name,
        raw.event_id == 1 ==> {
            &&& tells(e, f, "CommandLine"@)
            &&& tells(e, f, "CurrentDirectory"@)
            &&& tells(e, f, "Hashes"@)
            &&& tells(e, f, "ParentImage"@)
            &&& tells(e, f, "ParentCommandLine"@)
            &&& tells(e, f, "ParentUser"@)
            &&& tells(e, f, "IntegrityLevel"@)
            &&& tells(e, f, "FileVersion"@)
            &&& tells(e, f, "Description"@)
            &&& tells(e, f, "Product"@)
            &&& tells(e, f, "Company"@)
            &&& tells(e, f, "OriginalFileName"@)
        },
        raw.event_id == 2 || raw.event_id == 11 || raw.event_id == 15 ==> {
            &&& tells(e, f, "TargetFilename"@)
        },
        raw.event_id == 3 ==> {
            &&& tells(e, f, "Protocol"@)
            &&& tells(e, f, "SourceIp"@)
            &&& tells(e, f, "SourceHostname"@)
            &&& tells(e, f, "DestinationIp"@)
            &&& tells(e, f, "DestinationHostname"@)
        },
        raw.event_id == 6 || raw.event_id == 7 ==> {
            &&& tells(e, f, "ImageLoaded"@)
            &&& tells(e, f, "Hashes"@)
            &&& tells(e, f, "Signature"@)
            &&& tells(e, f, "SignatureStatus"@)
        },
        raw.event_id == 8 ==> {
            &&& tells(e, f, "SourceImage"@)
            &&& tells(e, f, "TargetImage"@)
            &&& tells(e, f, "StartAddress"@)
            &&& tells(e, f, "StartModule"@)
            &&& tells(e, f, "StartFunction"@)
        },
        raw.event_id == 9 ==> {
            &&& tells(e, f, "Device"@)
        },
        raw.event_id == 10 ==> {
            &&& tells(e, f, "SourceImage"@)
            &&& tells(e, f, "TargetImage"@)
            &&& tells(e, f, "GrantedAccess"@)
            &&& tells(e, f, "CallTrace"@)
        },
        raw.event_id == 12 || raw.event_id == 13 || raw.event_id == 14 ==> {
            &&& tells(e, f, "EventType"@)
            &&& tells(e, f, "TargetObject"@)
        },
        raw.event_id == 13 ==> {
            &&& tells(e, f, "Details"@)
        },
        raw.event_id == 14 ==> {
            &&& tells(e, f, "NewName"@)
        },
        raw.event_id == 17 || raw.event_id == 18 ==> {
            &&& tells(e, f, "PipeName"@)
        },
        19 <= raw.event_id <= 21 ==> {
            &&& tells(e, f, "Operation"@)
            &&& tells(e, f, "Name"@)
            &&& tells(e, f, "Query"@)
        },
        raw.event_id == 22 ==> {
            &&& tells(e, f, "QueryName"@)
            &&& tells(e, f, "QueryStatus"@)
            &&& tells(e, f, "QueryResults"@)
        },
        raw.event_id == 23 || 26 <= raw.event_id <= 29 ==> {
            &&& tells(e, f, "TargetFilename"@)
            &&& tells(e, f, "Hashes"@)
        },
        raw.event_id == 24 ==> {
            &&& tells(e, f, "Session"@)
            &&& tells(e, f, "ClientInfo"@)
            &&& tells(e, f, "Hashes"@)
        },
        raw.event_id == 25 ==> {
            &&& tells(e, f, "Type"@)
        },
        raw.event_id == 0 || raw.event_id == 4 || raw.event_id > 29 ==> forall|name: Seq<char>|
            name != "Image"@ && name != "User"@ && name != "Computer"@ && name != "RuleName"@
                ==> #[trigger] tells(e, f, name),
{
    lemma_names();
}

/// What a log has under a name.
pub open spec fn given(f: Fields, name: Seq<char>) -> Option<Seq<char>> {
    if f.contains_key(name) {
        Some(f[name])
    } else {
        None
    }
}

/// An event holds what its record says: its number and that of the record, the
/// time, the computer, the image and the rule name, and the user of the record or
/// else of the fields. There is an event exactly where the time is readable.
pub proof fn law_events_hold_their_records(raw: RecordText, f: Fields)
    ensures
        event_of(raw, f) is Some <==> instant_of(trim_of(raw.time_created)) is Some,
        event_of(raw, f) matches Some(e) ==> {
            &&& e.event_id == raw.event_id
            &&& e.event_type.number() == raw.event_id
            &&& e.record_number == raw.record_number
            &&& Some(e.time_created) == instant_of(trim_of(raw.time_created))
            &&& e.computer == raw.computer
            &&& e.image == given(f, "Image"@)
            &&& e.rule_name == given(f, "RuleName"@)
            &&& raw.user_name is Some ==> e.user == raw.user_name
            &&& raw.user_name is None ==> e.user == given(f, "User"@)
        },
{
    crate::event::law_number_of_type(raw.event_id);
}

/// The details of an event that no rule asks for are those of the log too: each is
/// the text under its own name.
pub proof fn law_details_hold_what_the_log_says(raw: RecordText, f: Fields, e: EventText)
    requires
        event_of(raw, f) == Some(e),
    ensures
        raw.event_id == 1 ==> (e.detail matches EventDetail::ProcessCreate {
            command_line,
            current_directory,
            hashes,
            parent_image,
            parent_command_line,
            parent_user,
            logon_guid,
            logon_id,
            integrity_level,
            file_version,
            description,
            product,
            company,
            original_file_name,
            ..
        } && command_line == given(f, "CommandLine"@) && current_directory == given(
            f,
            "CurrentDirectory"@,
        ) && hashes == given(f, "Hashes"@) && parent_image == given(f, "ParentImage"@)
            && parent_command_line == given(f, "ParentCommandLine"@) && parent_user == given(
            f,
            "ParentUser"@,
        ) && logon_guid == given(f, "LogonGuid"@) && logon_id == given(f, "LogonId"@)
            && integrity_level == given(f, "IntegrityLevel"@) && file_version == given(
            f,
            "FileVersion"@,
        ) && description == given(f, "Description"@) && product == given(f, "Product"@) && company
            == given(f, "Company"@) && original_file_name == given(f, "OriginalFileName"@)),
        raw.event_id == 2 ==> (e.detail matches EventDetail::FileCreateTime {
            creation_utc_time,
            previous_creation_utc_time,
            ..
        } && creation_utc_time == given(f, "CreationUtcTime"@) && previous_creation_utc_time
            == given(f, "PreviousCreationUtcTime"@)),
        raw.event_id == 11 ==> (e.detail matches EventDetail::FileCreate { creation_utc_time, .. }
            && creation_utc_time == given(f, "CreationUtcTime"@)),
        raw.event_id == 15 ==> (e.detail matches EventDetail::FileCreateStreamHash {
            hash,
            contents,
            ..
        } && hash == given(f, "Hash"@) && contents == given(f, "Contents"@)),
        raw.event_id == 16 ==> (e.detail matches EventDetail::SysmonConfigChange {
            configuration,
            configuration_file_hash,
        } && configuration == given(f, "Configuration"@) && configuration_file_hash == given(
            f,
            "ConfigurationFileHash"@,
        )),
        19 <= raw.event_id <= 21 ==> (e.detail matches EventDetail::WmiActivity {
            user,
            event_namespace,
            destination,
            consumer_type,
            filter_name,
            ..
        } && user == given(f, "User"@) && event_namespace == given(f, "EventNamespace"@)
            && destination == given(f, "Destination"@) && consumer_type == given(f, "Type"@)
            && filter_name == given(f, "FilterName"@)),
        raw.event_id == 17 ==> field_value(e, "EventType"@) == Some("CreatePipe"@),
        raw.event_id == 18 ==> field_value(e, "EventType"@) == Some("ConnectPipe"@),
        raw.event_id == 19 ==> field_value(e, "EventType"@) == Some("WmiFilter"@),
        raw.event_id == 20 ==> field_value(e, "EventType"@) == Some("WmiConsumer"@),
        raw.event_id == 21 ==> field_value(e, "EventType"@) == Some("WmiBinding"@),
{
    lemma_names();
}

/// Whether a field of a log holds a number in decimal.
pub open spec fn holds_number(f: Fields, name: Seq<char>, n: nat) -> bool {
    f.contains_key(name) && f[name] == decimal(n)
}

proof fn lemma_u32(f: Fields, name: Seq<char>, n: nat)
    ensures
        holds_number(f, name, n) && n <= 0xffff_ffff ==> u32_field(f, name) == Some(n as u32),
        holds_number(f, name, n) && n > 0xffff_ffff ==> u32_field(f, name) is None,
        !f.contains_key(name) ==> u32_field(f, name) is None,
{
    law_decimal_reads_back(n, 0xffff_ffff);
}

proof fn lemma_u16(f: Fields, name: Seq<char>, n: nat)
    ensures
        holds_number(f, name, n) && n <= 0xffff ==> u16_field(f, name) == Some(n as u16),
        holds_number(f, name, n) && n > 0xffff ==> u16_field(f, name) is None,
        !f.contains_key(name) ==> u16_field(f, name) is None,
{
    law_decimal_reads_back(n, 0xffff);
}

/// A number that a log writes in decimal is the number that the event holds under
/// that name, and rules see ports as the log writes them.
pub proof fn law_events_hold_the_numbers_of_the_log(
    raw: RecordText,
    f: Fields,
    e: EventText,
    n: u32,
)
    requires
        event_of(raw, f) == Some(e),
    ensures
        holds_number(f, "ProcessId"@, n as nat) ==> e.process_id == Some(n),
        !f.contains_key("ProcessId"@) ==> e.process_id is None,
        raw.event_id == 1 ==> (e.detail matches EventDetail::ProcessCreate {
            parent_process_id,
            terminal_session_id,
            ..
        } && (holds_number(f, "ParentProcessId"@, n as nat) ==> parent_process_id == Some(n)) && (
        holds_number(f, "TerminalSessionId"@, n as nat) ==> terminal_session_id == Some(n)) && (
        !f.contains_key("ParentProcessId"@) ==> parent_process_id is None)),
        raw.event_id == 8 ==> (e.detail matches EventDetail::CreateRemoteThread {
            source_process_id,
            target_process_id,
            ..
        } && (holds_number(f, "SourceProcessId"@, n as nat) ==> source_process_id == Some(n)) && (
        holds_number(f, "TargetProcessId"@, n as nat) ==> target_process_id == Some(n))),
        raw.event_id == 10 ==> (e.detail matches EventDetail::ProcessAccess {
            source_process_id,
            target_process_id,
            ..
        } && (holds_number(f, "SourceProcessId"@, n as nat) ==> source_process_id == Some(n)) && (
        holds_number(f, "TargetProcessId"@, n as nat) ==> target_process_id == Some(n))),
        raw.event_id == 3 && n <= 0xffff ==> {
            &&& holds_number(f, "SourcePort"@, n as nat) ==> tells(e, f, "SourcePort"@)
            &&& holds_number(f, "DestinationPort"@, n as nat) ==> tells(e, f, "DestinationPort"@)
            &&& !f.contains_key("SourcePort"@) ==> tells(e, f, "SourcePort"@)
            &&& !f.contains_key("DestinationPort"@) ==> tells(e, f, "DestinationPort"@)
            &&& (e.detail matches EventDetail::NetworkConnect { source_port, destination_port, .. }
                && (holds_number(f, "SourcePort"@, n as nat) ==> source_port == Some(n as u16)) && (
            holds_number(f, "DestinationPort"@, n as nat) ==> destination_port == Some(n as u16)))
        },
{
    lemma_names();
    lemma_u32(f, "ProcessId"@, n as nat);
    lemma_u32(f, "ParentProcessId"@, n as nat);
    lemma_u32(f, "TerminalSessionId"@, n as nat);
    lemma_u32(f, "SourceProcessId"@, n as nat);
    lemma_u32(f, "TargetProcessId"@, n as nat);
    lemma_u16(f, "SourcePort"@, n as nat);
    lemma_u16(f, "DestinationPort"@, n as nat);
}

/// Whether a field of a log holds a GUID in its hyphenated form, and not the one of
/// zeros alone.
pub open spec fn holds_guid(f: Fields, name: Seq<char>, g: ProcessGuid) -> bool {
    &&& f.contains_key(name)
    &&& f[name] == hyphenated_text(g@)
    &&& exists|i: int| 0 <= i < 16 && #[trigger] g@[i] != 0
}

proof fn lemma_guid(f: Fields, name: Seq<char>, g: ProcessGuid)
    ensures
        holds_guid(f, name, g) ==> guid_value(f, name) == Some(g),
        !f.contains_key(name) ==> guid_value(f, name) is None,
{
    if holds_guid(f, name, g) {
        let t = hyphenated_text(g@);
        let d = crate::guid::digits_text(g@);
        assert(t.len() == 36);
        assert(t[0] == d[0]);
        assert(t.last() == d[31]);
        assert(trim_of(t) == t) by {
            assert(d[0] == crate::guid::hex_char(g@[0] as int / 16));
            assert(d[31] == crate::guid::hex_char(g@[15] as int % 16));
            law_trimmed_texts_stay(t);
        }
        reveal_strlit("-");
        assert("-"@.len() == 1);
        law_hyphenated_reads_back(g@);
        let zeros = Seq::new(16, |i: int| 0u8);
        let i = choose|i: int| 0 <= i < 16 && #[trigger] g@[i] != 0;
        assert(zeros[i] == 0);
        assert(g@ != zeros);
        lemma_guid_from(g);
    }
}

/// A GUID that a log writes is the one that the event holds under that name.
pub proof fn law_events_hold_the_guids_of_the_log(
    raw: RecordText,
    f: Fields,
    e: EventText,
    g: ProcessGuid,
)
    requires
        event_of(raw, f) == Some(e),
    ensures
        holds_guid(f, "ProcessGuid"@, g) ==> e.process_guid == Some(g),
        !f.contains_key("ProcessGuid"@) ==> e.process_guid is None,
        raw.event_id == 1 ==> (e.detail matches EventDetail::ProcessCreate {
            parent_process_guid,
            ..
        } && (holds_guid(f, "ParentProcessGuid"@, g) ==> parent_process_guid == Some(g)) && (
        !f.contains_key("ParentProcessGuid"@) ==> parent_process_guid is None)),
        raw.event_id == 8 ==> (e.detail matches EventDetail::CreateRemoteThread {
            source_process_guid,
            target_process_guid,
            ..
        } && (holds_guid(f, "SourceProcessGuid"@, g) ==> source_process_guid == Some(g)) && (
        holds_guid(f, "TargetProcessGuid"@, g) ==> target_process_guid == Some(g))),
        raw.event_id == 10 ==> (e.detail matches EventDetail::ProcessAccess {
            source_process_guid,
            target_process_guid,
            ..
        } && (holds_guid(f, "SourceProcessGuid"@, g) ==> source_process_guid == Some(g)) && (
        holds_guid(f, "TargetProcessGuid"@, g) ==> target_process_guid == Some(g))),
{
    lemma_guid(f, "ProcessGuid"@, g);
    lemma_guid(f, "ParentProcessGuid"@, g);
    lemma_guid(f, "SourceProcessGuid"@, g);
    lemma_guid(f, "TargetProcessGuid"@, g);
}

/// The words for truth values, in letters of either case and with white space
/// around them: "true", "1" and "yes" for one, "false", "0" and "no" for the other.
/// Rules see the plain words.
pub proof fn law_truth_values_are_told_by_words(raw: RecordText, f: Fields, e: EventText)
    requires
        event_of(raw, f) == Some(e),
    ensures
        forall|name: Seq<char>|
            (raw.event_id == 3 && name == "Initiated"@ || (raw.event_id == 23 || 26 <= raw.event_id
                <= 29) && name == "IsExecutable"@) && #[trigger] f.contains_key(name)
                ==> field_value(e, name) == match truth_of(f[name]) {
                Some(true) => Some("true"@),
                Some(false) => Some("false"@),
                None => None,
            },
        raw.event_id == 3 && !f.contains_key("Initiated"@) ==> field_value(e, "Initiated"@) is None,
        forall|s: Seq<char>|
            ({
                let w = lowercase(trim_of(s));
                &&& (w == "true"@ || w == "1"@ || w == "yes"@) ==> #[trigger] truth_of(s) == Some(
                    true,
                )
                &&& (w == "false"@ || w == "0"@ || w == "no"@) ==> truth_of(s) == Some(false)
            }),
        raw.event_id == 7 ==> (e.detail matches EventDetail::ImageLoad { signed, .. } && signed
            == match given(f, "Signed"@) {
            Some(s) => truth_of(s),
            None => None,
        }),
{
    lemma_names();
    reveal_strlit("true");
    reveal_strlit("1");
    reveal_strlit("yes");
    reveal_strlit("false");
    reveal_strlit("0");
    reveal_strlit("no");
    assert("true"@.len() == 4 && "1"@[0] == '1' && "yes"@.len() == 3);
    assert("false"@.len() == 5 && "0"@[0] == '0' && "no"@.len() == 2);
    assert("1"@.len() == 1 && "0"@.len() == 1);
}

/// The events that a rule on a log source category looks at have the details that
/// the category is named after, and for a category of one kind of detail these are
/// all such events.
pub proof fn law_categories_cover_their_kind(raw: RecordText, f: Fields, e: EventText)
    requires
        event_of(raw, f) == Some(e),
    ensures
        ({
            let covers = |c: Seq<char>| category_events(Some(c)).contains(raw.event_id);
            &&& covers("process_creation"@) <==> e.detail is ProcessCreate
            &&& covers("network_connection"@) <==> e.detail is NetworkConnect
            &&& covers("process_termination"@) <==> e.detail is ProcessTerminate
            &&& covers("driver_load"@) <==> e.detail is DriverLoad
            &&& covers("image_load"@) <==> e.detail is ImageLoad
            &&& covers("create_remote_thread"@) <==> e.detail is CreateRemoteThread
            &&& covers("raw_access_thread"@) <==> e.detail is RawAccessRead
            &&& covers("process_access"@) <==> e.detail is ProcessAccess
            &&& covers("file_event"@) <==> e.detail is FileCreate || e.detail is FileDeleteEvent
            &&& covers("file_create"@) <==> e.detail is FileCreate
            &&& covers("file_stream_create"@) <==> e.detail is FileCreateStreamHash
            &&& covers("sysmon_config_change"@) <==> e.detail is SysmonConfigChange
            &&& covers("registry_event"@) <==> e.detail is RegistryEvent
            &&& covers("registry_event"@) <==> covers("registry_add"@) || covers("registry_set"@)
                || covers("registry_rename"@)
            &&& covers("registry_set"@) ==> tells(e, f, "Details"@)
            &&& covers("registry_rename"@) ==> tells(e, f, "NewName"@)
            &&& covers("pipe_created"@) ==> field_value(e, "EventType"@) == Some("CreatePipe"@)
            &&& covers("pipe_connected"@) ==> field_value(e, "EventType"@) == Some("ConnectPipe"@)
            &&& covers("pipe_created"@) || covers("pipe_connected"@) <==> e.detail is PipeEvent
            &&& covers("wmi_event"@) <==> e.detail is WmiActivity
            &&& covers("dns_query"@) <==> e.detail is DnsQuery
            &&& covers("file_delete"@) ==> e.detail is FileDeleteEvent
            &&& covers("file_delete"@) <==> raw.event_id == 23 || raw.event_id == 26
            &&& covers("clipboard_change"@) <==> e.detail is ClipboardChange
            &&& covers("process_tampering"@) <==> e.detail is ProcessTampering
        }),
        category_events(None) == Seq::<u16>::empty(),
{
    lemma_names();
    lemma_categories();
    let id = raw.event_id;
    lemma_one(1u16, id);
    lemma_one(3u16, id);
    lemma_one(5u16, id);
    lemma_one(6u16, id);
    lemma_one(7u16, id);
    lemma_one(8u16, id);
    lemma_one(9u16, id);
    lemma_one(10u16, id);
    lemma_one(11u16, id);
    lemma_one(12u16, id);
    lemma_one(13u16, id);
    lemma_one(14u16, id);
    lemma_one(15u16, id);
    lemma_one(16u16, id);
    lemma_one(17u16, id);
    lemma_one(18u16, id);
    lemma_one(22u16, id);
    lemma_one(24u16, id);
    lemma_one(25u16, id);
    let pair = seq![23u16, 26u16];
    assert(pair.contains(id) <==> id == 23 || id == 26) by {
        assert(pair[0] == 23 && pair[1] == 26);
    }
    let keys = seq![12u16, 13u16, 14u16];
    assert(keys.contains(id) <==> 12 <= id <= 14) by {
        assert(keys[0] == 12 && keys[1] == 13 && keys[2] == 14);
    }
    let wmi = seq![19u16, 20u16, 21u16];
    assert(wmi.contains(id) <==> 19 <= id <= 21) by {
        assert(wmi[0] == 19 && wmi[1] == 20 && wmi[2] == 21);
    }
    let six = seq![11u16, 23u16, 26u16, 27u16, 28u16, 29u16];
    assert(six.contains(id) <==> id == 11 || id == 23 || 26 <= id <= 29) by {
        assert(six[0] == 11 && six[1] == 23 && six[2] == 26 && six[3] == 27 && six[4] == 28
            && six[5] == 29);
    }
}

/// What a list of one number holds.
proof fn lemma_one(a: u16, id: u16)
    ensures
        seq![a].contains(id) <==> id == a,
{
    assert(seq![a][0] == a);
}

/// The names of categories differ.
proof fn lemma_categories()
    ensures
        "process_creation"@.len() == 16 && "process_creation"@[0] == 'p',
        "network_connection"@.len() == 18 && "network_connection"@[0] == 'n',
        "process_termination"@.len() == 19,
        "driver_load"@.len() == 11 && "driver_load"@[0] == 'd',
        "image_load"@.len() == 10 && "image_load"@[0] == 'i',
        "create_remote_thread"@.len() == 20 && "create_remote_thread"@[0] == 'c',
        "raw_access_thread"@.len() == 17 && "raw_access_thread"@[0] == 'r',
        "process_access"@.len() == 14 && "process_access"@[0] == 'p' && "process_access"@[1] == 'r',
        "file_event"@.len() == 10 && "file_event"@[0] == 'f',
        "registry_event"@.len() == 14 && "registry_event"@[0] == 'r',
        "registry_add"@.len() == 12 && "registry_add"@[0] == 'r' && "registry_add"@[9] == 'a',
        "registry_set"@.len() == 12 && "registry_set"@[0] == 'r' && "registry_set"@[9] == 's',
        "registry_rename"@.len() == 15,
        "file_create"@.len() == 11 && "file_create"@[0] == 'f' && "file_create"@[5] == 'c',
        "file_stream_create"@.len() == 18 && "file_stream_create"@[0] == 'f',
        "sysmon_config_change"@.len() == 20 && "sysmon_config_change"@[0] == 's',
        "pipe_created"@.len() == 12 && "pipe_created"@[0] == 'p',
        "pipe_connected"@.len() == 14 && "pipe_connected"@[0] == 'p' && "pipe_connected"@[1] == 'i',
        "wmi_event"@.len() == 9 && "wmi_event"@[0] == 'w',
        "dns_query"@.len() == 9 && "dns_query"@[0] == 'd',
        "file_delete"@.len() == 11 && "file_delete"@[0] == 'f' && "file_delete"@[5] == 'd',
        "clipboard_change"@.len() == 16 && "clipboard_change"@[0] == 'c',
        "process_tampering"@.len() == 17 && "process_tampering"@[0] == 'p',
{
    reveal_strlit("process_creation");
    reveal_strlit("network_connection");
    reveal_strlit("process_termination");
    reveal_strlit("driver_load");
    reveal_strlit("image_load");
    reveal_strlit("create_remote_thread");
    reveal_strlit("raw_access_thread");
    reveal_strlit("process_access");
    reveal_strlit("file_event");
    reveal_strlit("registry_event");
    reveal_strlit("registry_add");
    reveal_strlit("registry_set");
    reveal_strlit("registry_rename");
    reveal_strlit("file_create");
    reveal_strlit("file_stream_create");
    reveal_strlit("sysmon_config_change");
    reveal_strlit("pipe_created");
    reveal_strlit("pipe_connected");
    reveal_strlit("wmi_event");
    reveal_strlit("dns_query");
    reveal_strlit("file_delete");
    reveal_strlit("clipboard_change");
    reveal_strlit("process_tampering");
}

} // verus!
