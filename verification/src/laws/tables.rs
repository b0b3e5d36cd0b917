//! Laws of the tables: what a log says of an event is what its row shows.

use crate::event::SysmonEvent;
use crate::guid::ProcessGuid;
use crate::interner::SharedRodeo;
use crate::laws::matching::lemma_occurs;
use crate::laws::records::{
    holds_guid, holds_number, law_details_hold_what_the_log_says,
    law_events_hold_the_guids_of_the_log, law_events_hold_the_numbers_of_the_log, Fields,
};
use crate::laws::texts::law_texts_are_ordered_by_their_first_difference;
use crate::laws::tree::is_after;
use crate::numbers::decimal;
use crate::panels::detection::{DetectionCategory, DetectionRow};
use crate::panels::drivers::DriverRow;
use crate::panels::files::FileRow;
use crate::panels::injection::InjectionRow;
use crate::panels::network::NetworkRow;
use crate::panels::pipes::PipeRow;
use crate::panels::registry::RegistryRow;
use crate::panels::sigma::{match_row, SigmaRow};
use crate::panels::timeline::{summary, timeline_row, TimelineRow};
use crate::panels::{
    event_rows, in_direction, passes, time_text, within, EventRow, SortKey, SortState,
};
use crate::parser::{event_of, truth_of, RecordText};
use crate::process_tree::TreeText;
use crate::sigma::matcher::SigmaMatch;
use crate::text::{joined, lowercase};
use crate::types::Timestamp;
use vstd::prelude::*;

verus! {

// ---------------------------------------------------------------------------
// Rows
// ---------------------------------------------------------------------------

/// What a log has under a name, or nothing.
pub open spec fn shown_field(f: Fields, name: Seq<char>) -> Seq<char> {
    if f.contains_key(name) {
        f[name]
    } else {
        ""@
    }
}

/// What a log has under a name, or a mark.
pub open spec fn field_or(f: Fields, name: Seq<char>, mark: Seq<char>) -> Seq<char> {
    if f.contains_key(name) {
        f[name]
    } else {
        mark
    }
}

/// Whether an event is the one that a record makes.
pub open spec fn comes_from(e: SysmonEvent, raw: RecordText, f: Fields) -> bool {
    event_of(raw, f) matches Some(t) && e.detail@ == t.detail && e.event_id == t.event_id
        && e.time_created == t.time_created
}

/// Whether a column shows the technique of an event.
pub open spec fn shows_technique(e: SysmonEvent, column: Seq<char>) -> bool {
    match e.mitre_technique {
        Some(m) => column == m.id@,
        None => column.len() == 0,
    }
}

proof fn lemma_empty()
    ensures
        ""@.len() == 0,
{
    reveal_strlit("");
}

/// The rows of the network table are the connections and the queries, and show what
/// the log says of them: where from, where to and which way, or what was asked and
/// answered.
pub proof fn law_network_rows_show_what_the_log_says(
    e: SysmonEvent,
    raw: RecordText,
    f: Fields,
    g: ProcessGuid,
    from: u16,
    to: u16,
)
    requires
        comes_from(e, raw, f),
    ensures
        NetworkRow::row_of(e, g) is Some <==> raw.event_id == 3 || raw.event_id == 22,
        NetworkRow::row_of(e, g) matches Some(row) ==> {
            &&& row.time == e.time_created
            &&& shows_technique(e, row.mitre)
            &&& raw.event_id == 3 ==> {
                &&& row.protocol == shown_field(f, "Protocol"@)
                &&& row.hostname == shown_field(f, "DestinationHostname"@)
                &&& row.extra.len() == 0
                &&& holds_number(f, "SourcePort"@, from as nat) ==> row.source == field_or(
                    f,
                    "SourceIp"@,
                    "-"@,
                ) + ":"@ + f["SourcePort"@]
                &&& holds_number(f, "DestinationPort"@, to as nat) ==> row.destination == field_or(
                    f,
                    "DestinationIp"@,
                    "-"@,
                ) + ":"@ + f["DestinationPort"@]
                &&& !f.contains_key("SourcePort"@) ==> row.source == field_or(f, "SourceIp"@, "-"@)
                    + ":"@
                &&& !f.contains_key("DestinationPort"@) ==> row.destination == field_or(
                    f,
                    "DestinationIp"@,
                    "-"@,
                ) + ":"@
                &&& f.contains_key("Initiated"@) && truth_of(f["Initiated"@]) == Some(true)
                    ==> row.direction == "Outbound"@
                &&& f.contains_key("Initiated"@) && truth_of(f["Initiated"@]) == Some(false)
                    ==> row.direction == "Inbound"@
                &&& !f.contains_key("Initiated"@) ==> row.direction == "?"@
            }
            &&& raw.event_id == 22 ==> {
                &&& row.hostname == shown_field(f, "QueryName"@)
                &&& row.destination == shown_field(f, "QueryResults"@)
                &&& row.extra == shown_field(f, "QueryStatus"@)
                &&& row.direction == "DNS"@ && row.protocol == "DNS"@ && row.source == "-"@
            }
        },
{
    lemma_empty();
    let t = event_of(raw, f)->Some_0;
    law_events_hold_the_numbers_of_the_log(raw, f, t, from as u32);
    law_events_hold_the_numbers_of_the_log(raw, f, t, to as u32);
    if let Some(row) = NetworkRow::row_of(e, g) {
        assert(field_or(f, "SourceIp"@, "-"@) + ":"@ + ""@ =~= field_or(f, "SourceIp"@, "-"@)
            + ":"@);
        assert(field_or(f, "DestinationIp"@, "-"@) + ":"@ + ""@ =~= field_or(
            f,
            "DestinationIp"@,
            "-"@,
        ) + ":"@);
    }
}

/// The rows of the files table are the files that were created, given a stream,
/// deleted or blocked, and name the file and its hashes as the log does.
pub proof fn law_file_rows_show_what_the_log_says(
    e: SysmonEvent,
    raw: RecordText,
    f: Fields,
    g: ProcessGuid,
)
    requires
        comes_from(e, raw, f),
    ensures
        FileRow::row_of(e, g) is Some <==> raw.event_id == 11 || raw.event_id == 15 || raw.event_id
            == 23 || 26 <= raw.event_id <= 29,
        FileRow::row_of(e, g) matches Some(row) ==> {
            &&& row.time == e.time_created
            &&& shows_technique(e, row.mitre)
            &&& row.target_filename == shown_field(f, "TargetFilename"@)
            &&& raw.event_id == 11 ==> row.action == "Create"@ && row.hashes.len() == 0
            &&& raw.event_id == 15 ==> row.action == "ADS Stream"@ && row.hashes == shown_field(
                f,
                "Hash"@,
            )
            &&& raw.event_id >= 23 ==> row.hashes == shown_field(f, "Hashes"@)
            &&& raw.event_id == 23 || raw.event_id == 26 ==> row.action == "Delete"@
            &&& raw.event_id == 27 || raw.event_id == 28 ==> row.action == "Block"@
            &&& raw.event_id == 29 ==> row.action == "Exec"@
        },
{
    lemma_empty();
}

/// The rows of the registry table are the changes to the registry: the key, and
/// its new name or else its new value.
pub proof fn law_registry_rows_show_what_the_log_says(
    e: SysmonEvent,
    raw: RecordText,
    f: Fields,
    g: ProcessGuid,
)
    requires
        comes_from(e, raw, f),
    ensures
        RegistryRow::row_of(e, g) is Some <==> 12 <= raw.event_id <= 14,
        RegistryRow::row_of(e, g) matches Some(row) ==> {
            &&& row.time == e.time_created
            &&& shows_technique(e, row.mitre)
            &&& row.action == shown_field(f, "EventType"@)
            &&& row.target_object == shown_field(f, "TargetObject"@)
            &&& raw.event_id == 12 ==> row.details.len() == 0
            &&& raw.event_id == 13 ==> row.details == shown_field(f, "Details"@)
            &&& raw.event_id == 14 && f.contains_key("NewName"@) ==> row.details == "→ "@
                + f["NewName"@]
        },
{
    lemma_empty();
}

/// The rows of the pipes table are the pipes that were created or connected to.
pub proof fn law_pipe_rows_show_what_the_log_says(
    e: SysmonEvent,
    raw: RecordText,
    f: Fields,
    g: ProcessGuid,
)
    requires
        comes_from(e, raw, f),
    ensures
        PipeRow::row_of(e, g) is Some <==> raw.event_id == 17 || raw.event_id == 18,
        PipeRow::row_of(e, g) matches Some(row) ==> {
            &&& row.time == e.time_created
            &&& shows_technique(e, row.mitre)
            &&& row.pipe_name == shown_field(f, "PipeName"@)
            &&& raw.event_id == 17 ==> row.action == "Create"@
            &&& raw.event_id == 18 ==> row.action == "Connect"@
        },
{
    lemma_empty();
    reveal_strlit("CreatePipe");
    reveal_strlit("ConnectPipe");
    assert("CreatePipe"@.len() == 10 && "ConnectPipe"@.len() == 11);
}

/// The rows of the drivers table are the drivers and images that were loaded, with
/// their signatures.
pub proof fn law_driver_rows_show_what_the_log_says(
    e: SysmonEvent,
    raw: RecordText,
    f: Fields,
    g: ProcessGuid,
)
    requires
        comes_from(e, raw, f),
    ensures
        DriverRow::row_of(e, g) is Some <==> raw.event_id == 6 || raw.event_id == 7,
        DriverRow::row_of(e, g) matches Some(row) ==> {
            &&& row.time == e.time_created
            &&& shows_technique(e, row.mitre)
            &&& row.image_loaded == shown_field(f, "ImageLoaded"@)
            &&& row.signature == shown_field(f, "Signature"@)
            &&& row.signature_status == shown_field(f, "SignatureStatus"@)
            &&& raw.event_id == 6 ==> row.kind == "Driver"@
            &&& raw.event_id == 7 ==> row.kind == "Image"@
        },
{
    lemma_empty();
}

/// The rows of the injection table are what one process did to another: who did it
/// to whom, and which of the two the shown process is.
pub proof fn law_injection_rows_show_what_the_log_says(
    e: SysmonEvent,
    raw: RecordText,
    f: Fields,
    g: ProcessGuid,
)
    requires
        comes_from(e, raw, f),
    ensures
        InjectionRow::row_of(e, g) is Some <==> raw.event_id == 8 || raw.event_id == 10
            || raw.event_id == 25,
        InjectionRow::row_of(e, g) matches Some(row) ==> {
            &&& row.time == e.time_created
            &&& shows_technique(e, row.mitre)
            &&& raw.event_id == 8 ==> row.kind == "RemoteThread"@
            &&& raw.event_id == 10 ==> row.kind == "ProcessAccess"@
            &&& raw.event_id == 25 ==> row.kind == "Tampering"@ && row.role == "-"@
                && row.source.len() == 0 && row.target.len() == 0 && row.details == shown_field(
                f,
                "Type"@,
            )
            &&& raw.event_id == 8 || raw.event_id == 10 ==> {
                &&& row.source == shown_field(f, "SourceImage"@)
                &&& row.target == shown_field(f, "TargetImage"@)
                &&& holds_guid(f, "SourceProcessGuid"@, g) ==> row.role == "Source"@
                &&& holds_guid(f, "TargetProcessGuid"@, g) && !f.contains_key(
                    "SourceProcessGuid"@,
                ) ==> row.role == "Target"@
            }
            &&& raw.event_id == 10 ==> row.details == shown_field(f, "GrantedAccess"@)
            &&& raw.event_id == 8 ==> row.details == if f.contains_key("StartModule"@)
                && f.contains_key("StartFunction"@) {
                f["StartModule"@] + "!"@ + f["StartFunction"@]
            } else if f.contains_key("StartModule"@) {
                f["StartModule"@]
            } else {
                shown_field(f, "StartFunction"@)
            }
        },
{
    lemma_empty();
    let t = event_of(raw, f)->Some_0;
    law_events_hold_the_guids_of_the_log(raw, f, t, g);
}

/// An injection that another process did to the shown one has the shown one as its
/// target.
pub proof fn law_roles_tell_the_two_apart(
    e: SysmonEvent,
    raw: RecordText,
    f: Fields,
    g: ProcessGuid,
    other: ProcessGuid,
)
    requires
        comes_from(e, raw, f),
        raw.event_id == 8 || raw.event_id == 10,
        holds_guid(f, "SourceProcessGuid"@, other),
        other != g,
    ensures
        holds_guid(f, "TargetProcessGuid"@, g) ==> InjectionRow::row_of(e, g)->Some_0.role
            == "Target"@,
        InjectionRow::row_of(e, other)->Some_0.role == "Source"@,
{
    let t = event_of(raw, f)->Some_0;
    law_events_hold_the_guids_of_the_log(raw, f, t, g);
    law_events_hold_the_guids_of_the_log(raw, f, t, other);
}

/// The rows of the detection table are what hides, switches off, persists or spies,
/// each under its heading, with the fields that tell of it.
pub proof fn law_detection_rows_show_what_the_log_says(
    e: SysmonEvent,
    raw: RecordText,
    f: Fields,
    g: ProcessGuid,
)
    requires
        comes_from(e, raw, f),
    ensures
        DetectionRow::row_of(e, g) is Some <==> raw.event_id == 2 || raw.event_id == 4
            || raw.event_id == 9 || raw.event_id == 16 || 19 <= raw.event_id <= 21 || raw.event_id
            == 24,
        DetectionRow::row_of(e, g) matches Some(row) ==> {
            &&& row.time == e.time_created
            &&& shows_technique(e, row.mitre)
            &&& raw.event_id == 2 || raw.event_id == 9 <==> row.category
                == DetectionCategory::AntiForensics
            &&& raw.event_id == 4 || raw.event_id == 16 <==> row.category
                == DetectionCategory::DefenseEvasion
            &&& 19 <= raw.event_id <= 21 <==> row.category == DetectionCategory::WmiPersistence
            &&& raw.event_id == 24 <==> row.category == DetectionCategory::DataAccess
            &&& raw.event_id == 2 ==> {
                &&& row.event_type == "FileCreateTime"@
                &&& row.col_a == shown_field(f, "TargetFilename"@)
                &&& row.col_b == shown_field(f, "CreationUtcTime"@)
                &&& row.col_c == shown_field(f, "PreviousCreationUtcTime"@)
            }
            &&& raw.event_id == 4 ==> {
                &&& row.event_type == "SysmonState"@
                &&& row.col_a == shown_field(f, "State"@)
                &&& row.col_b == shown_field(f, "Version"@)
                &&& row.col_c.len() == 0
            }
            &&& raw.event_id == 9 ==> {
                &&& row.event_type == "RawAccessRead"@
                &&& row.col_a == shown_field(f, "Device"@)
                &&& row.col_b.len() == 0 && row.col_c.len() == 0
            }
            &&& raw.event_id == 16 ==> {
                &&& row.event_type == "ConfigChange"@
                &&& row.col_a == shown_field(f, "Configuration"@)
                &&& row.col_b == shown_field(f, "ConfigurationFileHash"@)
                &&& row.col_c.len() == 0
            }
            &&& 19 <= raw.event_id <= 21 ==> {
                &&& row.col_a == shown_field(f, "Operation"@)
                &&& row.col_b == if f.contains_key("Name"@) {
                    f["Name"@]
                } else {
                    shown_field(f, "Query"@)
                }
                &&& row.col_c == shown_field(f, "Destination"@)
            }
            &&& raw.event_id == 19 ==> row.event_type == "WmiFilter"@
            &&& raw.event_id == 20 ==> row.event_type == "WmiConsumer"@
            &&& raw.event_id == 21 ==> row.event_type == "WmiBinding"@
            &&& raw.event_id == 24 ==> {
                &&& row.event_type == "ClipboardChange"@
                &&& row.col_a == shown_field(f, "Session"@)
                &&& row.col_b == shown_field(f, "ClientInfo"@)
                &&& row.col_c == shown_field(f, "Hashes"@)
            }
        },
{
    lemma_empty();
    law_details_hold_what_the_log_says(raw, f, event_of(raw, f)->Some_0);
}

/// The rows of several events are those of the first ones followed by those of the
/// others, and each event has one row at most.
pub proof fn law_rows_come_in_the_order_of_the_events<R: EventRow>(
    events: Seq<SysmonEvent>,
    a: Seq<usize>,
    b: Seq<usize>,
    p: usize,
    guid: ProcessGuid,
)
    ensures
        event_rows::<R>(events, a + b, guid) == event_rows::<R>(events, a, guid) + event_rows::<R>(
            events,
            b,
            guid,
        ),
        event_rows::<R>(events, seq![p], guid) == match R::row_of(events[p as int], guid) {
            Some(row) => seq![row],
            None => Seq::empty(),
        },
    decreases b.len(),
{
    let one = seq![p];
    assert(one.drop_last() =~= Seq::<usize>::empty());
    reveal_with_fuel(event_rows, 2);
    if b.len() == 0 {
        assert(a + b =~= a);
        assert(event_rows::<R>(events, a, guid) + event_rows::<R>(events, b, guid) =~= event_rows::<
            R,
        >(events, a, guid));
    } else {
        assert((a + b).drop_last() =~= a + b.drop_last());
        assert((a + b).last() == b.last());
        law_rows_come_in_the_order_of_the_events::<R>(events, a, b.drop_last(), p, guid);
        assert(event_rows::<R>(events, a + b, guid) =~= event_rows::<R>(events, a, guid)
            + event_rows::<R>(events, b, guid));
    }
}

// ---------------------------------------------------------------------------
// Columns
// ---------------------------------------------------------------------------

/// A row is written with a tab between its columns, which start with the time.
pub proof fn law_lines_show_the_columns(
    n: NetworkRow<Seq<char>>,
    f: FileRow<Seq<char>>,
    r: RegistryRow<Seq<char>>,
    p: PipeRow<Seq<char>>,
    d: DriverRow<Seq<char>>,
)
    ensures
        n.line() == time_text(n.time) + "\t"@ + n.direction + "\t"@ + n.protocol + "\t"@ + n.source
            + "\t"@ + n.destination + "\t"@ + n.hostname + "\t"@ + n.extra + "\t"@ + n.mitre,
        f.line() == time_text(f.time) + "\t"@ + f.action + "\t"@ + f.target_filename + "\t"@
            + f.hashes + "\t"@ + f.mitre,
        r.line() == time_text(r.time) + "\t"@ + r.action + "\t"@ + r.target_object + "\t"@
            + r.details + "\t"@ + r.mitre,
        p.line() == time_text(p.time) + "\t"@ + p.action + "\t"@ + p.pipe_name + "\t"@ + p.mitre,
        d.line() == time_text(d.time) + "\t"@ + d.kind + "\t"@ + d.image_loaded + "\t"@
            + d.signature + "\t"@ + d.signature_status + "\t"@ + d.mitre,
{
    let t = "\t"@;
    lemma_joined_8(
        seq![
            time_text(n.time),
            n.direction,
            n.protocol,
            n.source,
            n.destination,
            n.hostname,
            n.extra,
            n.mitre,
        ],
        t,
    );
    lemma_joined_5(seq![time_text(f.time), f.action, f.target_filename, f.hashes, f.mitre], t);
    lemma_joined_5(seq![time_text(r.time), r.action, r.target_object, r.details, r.mitre], t);
    lemma_joined_4(seq![time_text(p.time), p.action, p.pipe_name, p.mitre], t);
    lemma_joined_6(
        seq![
            time_text(d.time),
            d.kind,
            d.image_loaded,
            d.signature,
            d.signature_status,
            d.mitre,
        ],
        t,
    );
}

/// The same of the other tables.
pub proof fn law_other_lines_show_the_columns(
    i: InjectionRow<Seq<char>>,
    d: DetectionRow<Seq<char>>,
    s: SigmaRow<Seq<char>>,
    t: TimelineRow<Seq<char>>,
)
    ensures
        i.line() == time_text(i.time) + "\t"@ + i.kind + "\t"@ + i.role + "\t"@ + i.source + "\t"@
            + i.target + "\t"@ + i.details + "\t"@ + i.mitre,
        d.line() == time_text(d.time) + "\t"@ + d.event_type + "\t"@ + d.col_a + "\t"@ + d.col_b
            + "\t"@ + d.col_c + "\t"@ + d.category.shown_as() + "\t"@ + d.mitre,
        s.line() == time_text(s.time) + "\t"@ + s.level.shown_as() + "\t"@ + s.rule_title + "\t"@
            + decimal(s.event_id as nat) + "\t"@ + s.process,
        t.line() == time_text(t.time) + "\t"@ + t.process_name + "\t"@ + t.pid + "\t"@ + decimal(
            t.event_id as nat,
        ) + "\t"@ + t.event_type + "\t"@ + t.detail,
{
    let c = "\t"@;
    lemma_joined_7(
        seq![time_text(i.time), i.kind, i.role, i.source, i.target, i.details, i.mitre],
        c,
    );
    lemma_joined_7(
        seq![
            time_text(d.time),
            d.event_type,
            d.col_a,
            d.col_b,
            d.col_c,
            d.category.shown_as(),
            d.mitre,
        ],
        c,
    );
    lemma_joined_5(
        seq![
            time_text(s.time),
            s.level.shown_as(),
            s.rule_title,
            decimal(s.event_id as nat),
            s.process,
        ],
        c,
    );
    lemma_joined_6(
        seq![
            time_text(t.time),
            t.process_name,
            t.pid,
            decimal(t.event_id as nat),
            t.event_type,
            t.detail,
        ],
        c,
    );
}

proof fn lemma_joined_4(p: Seq<Seq<char>>, c: Seq<char>)
    requires
        p.len() == 4,
    ensures
        joined(p, c) == p[0] + c + p[1] + c + p[2] + c + p[3],
{
    let p3 = p.drop_last();
    let p2 = p3.drop_last();
    let p1 = p2.drop_last();
    assert(p1.len() == 1 && p1[0] == p[0]);
    assert(joined(p1, c) == p[0]);
    assert(joined(p2, c) == p[0] + c + p[1]);
    assert(joined(p3, c) == p[0] + c + p[1] + c + p[2]);
}

proof fn lemma_joined_5(p: Seq<Seq<char>>, c: Seq<char>)
    requires
        p.len() == 5,
    ensures
        joined(p, c) == p[0] + c + p[1] + c + p[2] + c + p[3] + c + p[4],
{
    lemma_joined_4(p.drop_last(), c);
}

proof fn lemma_joined_6(p: Seq<Seq<char>>, c: Seq<char>)
    requires
        p.len() == 6,
    ensures
        joined(p, c) == p[0] + c + p[1] + c + p[2] + c + p[3] + c + p[4] + c + p[5],
{
    lemma_joined_5(p.drop_last(), c);
}

proof fn lemma_joined_7(p: Seq<Seq<char>>, c: Seq<char>)
    requires
        p.len() == 7,
    ensures
        joined(p, c) == p[0] + c + p[1] + c + p[2] + c + p[3] + c + p[4] + c + p[5] + c + p[6],
{
    lemma_joined_6(p.drop_last(), c);
}

proof fn lemma_joined_8(p: Seq<Seq<char>>, c: Seq<char>)
    requires
        p.len() == 8,
    ensures
        joined(p, c) == p[0] + c + p[1] + c + p[2] + c + p[3] + c + p[4] + c + p[5] + c + p[6] + c
            + p[7],
{
    lemma_joined_7(p.drop_last(), c);
}

/// Each column is sorted by what it shows: the first by the time, the others by
/// their text or number; what is no column sorts nothing.
pub proof fn law_columns_sort_by_what_they_show(
    n: NetworkRow<Seq<char>>,
    f: FileRow<Seq<char>>,
    r: RegistryRow<Seq<char>>,
    p: PipeRow<Seq<char>>,
    d: DriverRow<Seq<char>>,
    i: InjectionRow<Seq<char>>,
    x: DetectionRow<Seq<char>>,
    s: SigmaRow<Seq<char>>,
    t: TimelineRow<Seq<char>>,
    c: usize,
)
    ensures
        n.key(0) == SortKey::<Seq<char>>::Time(n.time) && f.key(0) == SortKey::<Seq<char>>::Time(
            f.time,
        ) && r.key(0) == SortKey::<Seq<char>>::Time(r.time) && p.key(0) == SortKey::<
            Seq<char>,
        >::Time(p.time) && d.key(0) == SortKey::<Seq<char>>::Time(d.time) && i.key(0) == SortKey::<
            Seq<char>,
        >::Time(i.time) && x.key(0) == SortKey::<Seq<char>>::Time(x.time) && s.key(0) == SortKey::<
            Seq<char>,
        >::Time(s.time) && t.key(0) == SortKey::<Seq<char>>::Time(t.time),
        1 <= c <= 6 ==> n.key(c) == SortKey::Text(
            seq![n.direction, n.protocol, n.source, n.destination, n.hostname, n.mitre][c - 1],
        ),
        1 <= c <= 4 ==> f.key(c) == SortKey::Text(
            seq![f.action, f.target_filename, f.hashes, f.mitre][c - 1],
        ),
        1 <= c <= 4 ==> r.key(c) == SortKey::Text(
            seq![r.action, r.target_object, r.details, r.mitre][c - 1],
        ),
        1 <= c <= 3 ==> p.key(c) == SortKey::Text(seq![p.action, p.pipe_name, p.mitre][c - 1]),
        1 <= c <= 5 ==> d.key(c) == SortKey::Text(
            seq![d.kind, d.image_loaded, d.signature, d.signature_status, d.mitre][c - 1],
        ),
        1 <= c <= 6 ==> i.key(c) == SortKey::Text(
            seq![i.kind, i.role, i.source, i.target, i.details, i.mitre][c - 1],
        ),
        1 <= c <= 5 ==> x.key(c) == SortKey::Text(
            seq![x.event_type, x.col_a, x.col_b, x.col_c, x.mitre][c - 1],
        ),
        s.key(1) == SortKey::Text(s.level.shown_as()) && s.key(2) == SortKey::Text(s.rule_title)
            && s.key(3) == SortKey::<Seq<char>>::Number(s.event_id) && s.key(4) == SortKey::Text(
            s.process,
        ),
        t.key(1) == SortKey::Text(t.process_name) && t.key(2) == SortKey::Text(t.pid) && t.key(3)
            == SortKey::<Seq<char>>::Number(t.event_id) && t.key(4) == SortKey::Text(t.event_type)
            && t.key(5) == SortKey::Text(t.detail),
        c > 6 ==> n.key(c) is Unsorted && f.key(c) is Unsorted && r.key(c) is Unsorted && p.key(
            c,
        ) is Unsorted && d.key(c) is Unsorted && i.key(c) is Unsorted && x.key(c) is Unsorted
            && s.key(c) is Unsorted && t.key(c) is Unsorted,
{
}

/// Sorting upwards puts earlier times and smaller numbers first, and sorting
/// downwards is sorting upwards the other way round.
pub proof fn law_directions_are_opposite(
    a: SortKey<Seq<char>>,
    b: SortKey<Seq<char>>,
    s: Timestamp,
    t: Timestamp,
    m: u16,
    n: u16,
)
    ensures
        in_direction(a, b, true) == in_direction(b, a, false),
        in_direction(a, a, true),
        in_direction(SortKey::Time(s), SortKey::Time(t), true) <==> !is_after(s, t),
        in_direction(SortKey::Number(m), SortKey::Number(n), true) <==> m <= n,
{
    if let SortKey::Text(x) = a {
        let none = Seq::<char>::empty();
        law_texts_are_ordered_by_their_first_difference(x, none, none);
        assert(x + none =~= x);
    }
}

/// A click on the heading of a column that is sorted turns its direction round, so
/// that a second one undoes it; one on another column sorts that one upwards. The
/// arrow stands at the sorted column alone, and shows the direction.
pub proof fn law_headings_turn_the_order_round(s: SortState, col: usize, other: usize)
    requires
        col != other,
    ensures
        s.column == col ==> s.toggled(col).column == col && s.toggled(col).ascending
            == !s.ascending,
        s.column == col ==> s.toggled(col).toggled(col) == s,
        s.column != col ==> s.toggled(col).column == col && s.toggled(col).ascending,
        s.column == col ==> s.arrow(other).len() == 0,
        s.column == col && s.ascending ==> s.arrow(col) == " ▲"@,
        s.column == col && !s.ascending ==> s.arrow(col) == " ▼"@,
{
    lemma_empty();
}

/// A line passes a filter where the filter stands in it, in letters of either case;
/// without a filter every line does, and without a time range every instant is
/// within. A range holds both its ends.
pub proof fn law_filters_look_for_their_text(
    line: Seq<char>,
    filter: Seq<char>,
    x: Seq<char>,
    y: Seq<char>,
    from: Timestamp,
    to: Timestamp,
    t: Timestamp,
)
    ensures
        lowercase(line) == x + lowercase(filter) + y ==> passes(line, filter),
        passes(line, filter) && filter.len() > 0 ==> exists|a: Seq<char>, b: Seq<char>|
            lowercase(line) == #[trigger] (a + lowercase(filter) + b),
        filter.len() == 0 ==> passes(line, filter),
        within(None, t),
        within(Some((from, to)), t) <==> !is_after(from, t) && !is_after(t, to),
{
    lemma_occurs(lowercase(line), lowercase(filter));
}

// ---------------------------------------------------------------------------
// Matches and the timeline
// ---------------------------------------------------------------------------

/// The row of a match names the rule and the event, and the process by its image
/// name, or else its image, where the tree has it.
pub proof fn law_match_rows_name_rule_and_process(
    m: SigmaMatch<Seq<char>>,
    tree: TreeText,
    i: usize,
    g: ProcessGuid,
)
    ensures
        ({
            let row = match_row(m, tree, i as int);
            &&& row.time == m.timestamp
            &&& row.level == m.level
            &&& row.rule_title == m.rule_title
            &&& row.event_id == m.event_id
            &&& row.match_index == i
            &&& m.process_guid == Some(g) && tree.nodes.contains_key(g) ==> {
                let n = tree.nodes[g];
                &&& n.image_name is Some ==> row.process == n.image_name->Some_0
                &&& n.image_name is None && n.image is Some ==> row.process == n.image->Some_0
            }
            &&& m.process_guid is None ==> row.process == "-"@
            &&& m.process_guid == Some(g) && !tree.nodes.contains_key(g) ==> row.process == "-"@
        }),
{
}

/// A row of the timeline tells when which process did what: the process by what the
/// tree knows of it, or else by what the event says.
pub proof fn law_timeline_rows_tell_who_and_when(
    e: SysmonEvent,
    tree: TreeText,
    r: SharedRodeo,
    g: ProcessGuid,
)
    ensures
        ({
            let row = timeline_row(e, tree, r);
            &&& row.time == e.time_created
            &&& row.event_id == e.event_id
            &&& row.detail == summary(e.detail)
            &&& e.process_guid == Some(g) && tree.nodes.contains_key(g) ==> {
                let n = tree.nodes[g];
                &&& n.image_name is Some ==> row.process_name == n.image_name->Some_0
                &&& n.image_name is None ==> row.process_name == "?"@
                &&& n.pid is Some ==> row.pid == decimal(n.pid->Some_0 as nat)
                &&& n.pid is None ==> row.pid == "?"@
            }
            &&& e.process_guid == Some(g) && !tree.nodes.contains_key(g) ==> {
                &&& e.image is Some ==> row.process_name == crate::interner::text_of(
                    r,
                    e.image->Some_0,
                )
                &&& e.process_id is Some ==> row.pid == decimal(e.process_id->Some_0 as nat)
            }
            &&& e.process_guid is None ==> row.process_name == "?"@ && row.pid == "?"@
        }),
{
}

/// The timeline sums an event up by what the log says of it: a process by its
/// command line, a connection by where it went, a query by what was asked and
/// answered, a file by its name, and so on.
pub proof fn law_summaries_tell_what_the_log_says(
    e: SysmonEvent,
    raw: RecordText,
    f: Fields,
    port: u16,
)
    requires
        comes_from(e, raw, f),
    ensures
        ({
            let s = summary(e.detail);
            let q = "?"@;
            &&& raw.event_id == 1 ==> s == field_or(f, "CommandLine"@, "-"@)
            &&& raw.event_id == 2 || raw.event_id == 11 || raw.event_id == 15 || raw.event_id == 23
                || 26 <= raw.event_id <= 29 ==> s == field_or(f, "TargetFilename"@, "-"@)
            &&& raw.event_id == 3 && holds_number(f, "DestinationPort"@, port as nat) ==> {
                let to = field_or(f, "DestinationIp"@, q) + ":"@ + f["DestinationPort"@];
                let host = shown_field(f, "DestinationHostname"@);
                &&& host.len() == 0 ==> s == shown_field(f, "Protocol"@) + " "@ + to
                &&& host.len() > 0 ==> s == shown_field(f, "Protocol"@) + " "@ + host + " ("@ + to
                    + ")"@
            }
            &&& raw.event_id == 5 ==> s.len() == 0
            &&& raw.event_id == 6 || raw.event_id == 7 ==> {
                let status = shown_field(f, "SignatureStatus"@);
                &&& status.len() == 0 ==> s == field_or(f, "ImageLoaded"@, q)
                &&& status.len() > 0 ==> s == field_or(f, "ImageLoaded"@, q) + " ["@ + status
                    + "]"@
            }
            &&& raw.event_id == 8 ==> s == "-> "@ + field_or(f, "TargetImage"@, q) + " @ "@
                + field_or(f, "StartAddress"@, q)
            &&& raw.event_id == 9 ==> s == field_or(f, "Device"@, q)
            &&& raw.event_id == 10 ==> s == "-> "@ + field_or(f, "TargetImage"@, q) + " access="@
                + field_or(f, "GrantedAccess"@, q)
            &&& raw.event_id == 13 && shown_field(f, "Details"@).len() > 0 ==> s == field_or(
                f,
                "EventType"@,
                q,
            ) + " "@ + field_or(f, "TargetObject"@, q) + " = "@ + f["Details"@]
            &&& raw.event_id == 12 || raw.event_id == 13 && shown_field(f, "Details"@).len() == 0
                ==> s == field_or(f, "EventType"@, q) + " "@ + field_or(f, "TargetObject"@, q)
            &&& raw.event_id == 16 ==> s == field_or(f, "Configuration"@, q)
            &&& raw.event_id == 17 ==> s == "CreatePipe"@ + " "@ + field_or(f, "PipeName"@, q)
            &&& raw.event_id == 18 ==> s == "ConnectPipe"@ + " "@ + field_or(f, "PipeName"@, q)
            &&& raw.event_id == 22 ==> {
                let answer = shown_field(f, "QueryResults"@);
                &&& answer.len() == 0 ==> s == field_or(f, "QueryName"@, q)
                &&& answer.len() > 0 ==> s == field_or(f, "QueryName"@, q) + " -> "@ + answer
            }
            &&& raw.event_id == 24 ==> s == shown_field(f, "Hashes"@)
            &&& raw.event_id == 25 ==> s == field_or(f, "Type"@, q)
            &&& 19 <= raw.event_id <= 21 && shown_field(f, "Operation"@).len() > 0 ==> {
                &&& raw.event_id == 19 ==> s == "WmiFilter"@ + ": "@ + f["Operation"@]
                &&& raw.event_id == 20 ==> s == "WmiConsumer"@ + ": "@ + f["Operation"@]
                &&& raw.event_id == 21 ==> s == "WmiBinding"@ + ": "@ + f["Operation"@]
            }
        }),
{
    lemma_empty();
    let t = event_of(raw, f)->Some_0;
    law_events_hold_the_numbers_of_the_log(raw, f, t, port as u32);
    law_details_hold_what_the_log_says(raw, f, t);
    if raw.event_id == 3 && holds_number(f, "DestinationPort"@, port as nat) {
        let ip = field_or(f, "DestinationIp"@, "?"@);
        let p = f["DestinationPort"@];
        let host = shown_field(f, "DestinationHostname"@);
        let proto = shown_field(f, "Protocol"@);
        assert(proto + " "@ + ip + ":"@ + p =~= proto + " "@ + (ip + ":"@ + p));
        assert(proto + " "@ + host + " ("@ + ip + ":"@ + p + ")"@ =~= proto + " "@ + host + " ("@
            + (ip + ":"@ + p) + ")"@);
    }
}

} // verus!
