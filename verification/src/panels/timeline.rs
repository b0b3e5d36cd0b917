//! The timeline: the events of chosen processes, sorted by time.

use crate::event::{opt_interned, EventDetail, SysmonEvent, SysmonEventType};
use crate::event_store::{
    belongs, law_positions_are_determined, law_positions_are_exact, positions, EventStore, Group,
};
use crate::fxmap::{fx_get, FxHashMap};
use crate::guid::ProcessGuid;
use crate::interner::SharedRodeo;
use crate::numbers::{decimal, decimal_text, pid_or, pid_text, port_or, port_text};
use crate::order::{picked, sorted_order, sorts};
use crate::panels::{
    fmt_time, list_rows, lists, tab_line, tabbed, time_text, Listing, SortKey, SortState, TableRow,
    TimeRange,
};
use crate::parser::all_held;
use crate::process_tree::{resolve_opt, ProcessTree, TreeText};
use crate::text::{joined, owned_or, part_texts, push_text, str_or, string_of, text_or};
use crate::textmap::{fields_of, FieldMap};
use crate::types::Timestamp;
use vstd::prelude::*;

verus! {

// ---------------------------------------------------------------------------
// Rows
// ---------------------------------------------------------------------------

/// A row of the timeline. `S` is how texts are held.
pub struct TimelineRow<S = String> {
    pub time: Timestamp,
    pub process_name: S,
    pub pid: S,
    pub event_id: u16,
    pub event_type: S,
    pub detail: S,
}

impl TimelineRow {
    /// The row as text.
    pub open spec fn view(&self) -> TimelineRow<Seq<char>> {
        TimelineRow {
            time: self.time,
            process_name: self.process_name@,
            pid: self.pid@,
            event_id: self.event_id,
            event_type: self.event_type@,
            detail: self.detail@,
        }
    }
}

impl TimelineRow<Seq<char>> {
    /// The whole row as one line.
    pub open spec fn line(self) -> Seq<char> {
        tabbed(
            seq![
                time_text(self.time),
                self.process_name,
                self.pid,
                decimal(self.event_id as nat),
                self.event_type,
                self.detail,
            ],
        )
    }

    /// What the row is sorted by in a column.
    pub open spec fn key(self, column: usize) -> SortKey<Seq<char>> {
        if column == 0 {
            SortKey::Time(self.time)
        } else if column == 1 {
            SortKey::Text(self.process_name)
        } else if column == 2 {
            SortKey::Text(self.pid)
        } else if column == 3 {
            SortKey::Number(self.event_id)
        } else if column == 4 {
            SortKey::Text(self.event_type)
        } else if column == 5 {
            SortKey::Text(self.detail)
        } else {
            SortKey::Unsorted
        }
    }
}

impl TableRow for TimelineRow {
    open spec fn at(self) -> Timestamp {
        self.time
    }

    open spec fn line(self) -> Seq<char> {
        self@.line()
    }

    open spec fn key(self, column: usize) -> SortKey<Seq<char>> {
        self@.key(column)
    }

    fn row_time(&self) -> (t: Timestamp) {
        self.time
    }

    fn copy_text(&self) -> (s: String) {
        let time = fmt_time(self.time);
        let number = decimal_text(self.event_id as u64);
        let columns: Vec<&str> = vec![
            time.as_str(),
            self.process_name.as_str(),
            self.pid.as_str(),
            number.as_str(),
            self.event_type.as_str(),
            self.detail.as_str(),
        ];
        assert(part_texts(columns@) =~= seq![
            time_text(self.time),
            self.process_name@,
            self.pid@,
            decimal(self.event_id as nat),
            self.event_type@,
            self.detail@,
        ]);
        tab_line(&columns)
    }

    fn sort_key(&self, column: usize) -> (k: SortKey) {
        match column {
            0 => SortKey::Time(self.time),
            1 => SortKey::Text(self.process_name.clone()),
            2 => SortKey::Text(self.pid.clone()),
            3 => SortKey::Number(self.event_id),
            4 => SortKey::Text(self.event_type.clone()),
            5 => SortKey::Text(self.detail.clone()),
            _ => SortKey::Unsorted,
        }
    }
}

// ---------------------------------------------------------------------------
// Summaries
// ---------------------------------------------------------------------------

/// A name with something behind it in brackets, where there is something.
pub open spec fn bracketed(name: Seq<char>, note: Seq<char>) -> Seq<char> {
    if note.len() == 0 {
        name
    } else {
        name + " ["@ + note + "]"@
    }
}

/// The fields of an exotic event, written one by one.
pub open spec fn field_words(m: FieldMap) -> Seq<Seq<char>> {
    Seq::new(m.names().len(), |i: int| m.names()[i] + "="@ + fields_of(m)[m.names()[i]])
}

/// The first three fields of an exotic event.
pub open spec fn fields_summary(m: FieldMap) -> Seq<char> {
    joined(
        field_words(m).take(
            if field_words(m).len() < 3 {
                field_words(m).len() as int
            } else {
                3
            },
        ),
        ", "@,
    )
}

/// What happened, in a few words.
pub open spec fn summary(detail: EventDetail) -> Seq<char> {
    match detail@ {
        EventDetail::ProcessCreate { command_line, .. } => text_or(command_line, "-"@),
        EventDetail::NetworkConnect {
            destination_ip,
            destination_port,
            destination_hostname,
            protocol,
            ..
        } => {
            let ip = text_or(destination_ip, "?"@);
            let port = port_or(destination_port, "?"@);
            let host = text_or(destination_hostname, ""@);
            let proto = text_or(protocol, ""@);
            if host.len() == 0 {
                proto + " "@ + ip + ":"@ + port
            } else {
                proto + " "@ + host + " ("@ + ip + ":"@ + port + ")"@
            }
        },
        EventDetail::DnsQuery { query_name, query_results, .. } => {
            let name = text_or(query_name, "?"@);
            let results = text_or(query_results, ""@);
            if results.len() == 0 {
                name
            } else {
                name + " -> "@ + results
            }
        },
        EventDetail::FileCreate { target_filename, .. } => text_or(target_filename, "-"@),
        EventDetail::RegistryEvent { target_object, details, event_type, .. } => {
            let action = text_or(event_type, "?"@);
            let object = text_or(target_object, "?"@);
            let value = text_or(details, ""@);
            if value.len() == 0 {
                action + " "@ + object
            } else {
                action + " "@ + object + " = "@ + value
            }
        },
        EventDetail::PipeEvent { event_type, pipe_name } => event_type + " "@ + text_or(
            pipe_name,
            "?"@,
        ),
        EventDetail::CreateRemoteThread { target_image, start_address, .. } => "-> "@ + text_or(
            target_image,
            "?"@,
        ) + " @ "@ + text_or(start_address, "?"@),
        EventDetail::ProcessAccess { target_image, granted_access, .. } => "-> "@ + text_or(
            target_image,
            "?"@,
        ) + " access="@ + text_or(granted_access, "?"@),
        EventDetail::FileDeleteEvent { target_filename, .. } => text_or(target_filename, "-"@),
        EventDetail::DriverLoad { image_loaded, signature_status, .. } => bracketed(
            text_or(image_loaded, "?"@),
            text_or(signature_status, ""@),
        ),
        EventDetail::ImageLoad { image_loaded, signature_status, .. } => bracketed(
            text_or(image_loaded, "?"@),
            text_or(signature_status, ""@),
        ),
        EventDetail::FileCreateStreamHash { target_filename, .. } => text_or(target_filename, "-"@),
        EventDetail::ProcessTampering { tampering_type } => text_or(tampering_type, "?"@),
        EventDetail::SysmonConfigChange { configuration, .. } => text_or(configuration, "?"@),
        EventDetail::RawAccessRead { device } => text_or(device, "?"@),
        EventDetail::ClipboardChange { hashes, .. } => text_or(hashes, ""@),
        EventDetail::ProcessTerminate => ""@,
        EventDetail::FileCreateTime { target_filename, .. } => text_or(target_filename, "-"@),
        EventDetail::WmiActivity { event_type, operation, .. } => {
            let op = text_or(operation, ""@);
            if op.len() == 0 {
                event_type
            } else {
                event_type + ": "@ + op
            }
        },
        EventDetail::Generic { .. } => fields_summary(detail->Generic_fields),
    }
}

/// A name with something behind it in brackets.
fn bracketed_text(name: &str, note: &str) -> (s: String)
    ensures
        s@ == bracketed(name@, note@),
{
    if note.is_empty() {
        return name.to_owned();
    }
    let mut out: Vec<char> = Vec::new();
    push_text(&mut out, name);
    push_text(&mut out, " [");
    push_text(&mut out, note);
    push_text(&mut out, "]");
    assert(out@ =~= bracketed(name@, note@));
    string_of(out.as_slice())
}

/// The first three fields of an exotic event.
fn fields_text(m: &FieldMap) -> (s: String)
    ensures
        s@ == fields_summary(*m),
{
    let len: usize = m.len();
    let n: usize = if len < 3 {
        len
    } else {
        3
    };
    let ghost words = field_words(*m);
    let mut out: Vec<char> = Vec::new();
    let mut i: usize = 0;
    assert(words.take(0) =~= Seq::empty());
    while i < n
        invariant
            i <= n <= len,
            len == m@.dom().len(),
            len == m.names().len(),
            forall|i: int| 0 <= i < len ==> m@.contains_key(#[trigger] m.names()[i]),
            words == field_words(*m),
            out@ == joined(words.take(i as int), ", "@),
        decreases n - i,
    {
        let ghost next = words.take(i + 1);
        assert(next.drop_last() =~= words.take(i as int));
        if i > 0 {
            push_text(&mut out, ", ");
        }
        let ghost before = out@;
        push_text(&mut out, m.name_at(i));
        push_text(&mut out, "=");
        push_text(&mut out, m.value_at(i).as_str());
        proof {
            let name = m.names()[i as int];
            assert(m@.contains_key(name));
            assert(fields_of(*m)[name] == m@[name]@);
            assert(words[i as int] == name + "="@ + m@[name]@);
            assert(out@ =~= before + words[i as int]);
            assert(out@ =~= joined(next, ", "@));
        }
        i += 1;
    }
    string_of(out.as_slice())
}

/// Build a short summary string from an event's detail.
pub fn detail_summary(detail: &EventDetail) -> (s: String)
    ensures
        s@ == summary(*detail),
{
    match detail {
        EventDetail::ProcessCreate { command_line, .. } => owned_or(command_line, "-"),
        EventDetail::NetworkConnect {
            destination_ip,
            destination_port,
            destination_hostname,
            protocol,
            ..
        } => {
            let port = port_text(*destination_port, "?");
            let host = str_or(destination_hostname, "");
            let mut out: Vec<char> = Vec::new();
            push_text(&mut out, str_or(protocol, ""));
            push_text(&mut out, " ");
            if host.is_empty() {
                push_text(&mut out, str_or(destination_ip, "?"));
                push_text(&mut out, ":");
                push_text(&mut out, port.as_str());
            } else {
                push_text(&mut out, host);
                push_text(&mut out, " (");
                push_text(&mut out, str_or(destination_ip, "?"));
                push_text(&mut out, ":");
                push_text(&mut out, port.as_str());
                push_text(&mut out, ")");
            }
            assert(out@ =~= summary(*detail));
            string_of(out.as_slice())
        },
        EventDetail::DnsQuery { query_name, query_results, .. } => {
            let results = str_or(query_results, "");
            if results.is_empty() {
                return owned_or(query_name, "?");
            }
            let mut out: Vec<char> = Vec::new();
            push_text(&mut out, str_or(query_name, "?"));
            push_text(&mut out, " -> ");
            push_text(&mut out, results);
            assert(out@ =~= summary(*detail));
            string_of(out.as_slice())
        },
        EventDetail::FileCreate { target_filename, .. } => owned_or(target_filename, "-"),
        EventDetail::RegistryEvent { target_object, details, event_type, .. } => {
            let value = str_or(details, "");
            let mut out: Vec<char> = Vec::new();
            push_text(&mut out, str_or(event_type, "?"));
            push_text(&mut out, " ");
            push_text(&mut out, str_or(target_object, "?"));
            if !value.is_empty() {
                push_text(&mut out, " = ");
                push_text(&mut out, value);
            }
            assert(out@ =~= summary(*detail));
            string_of(out.as_slice())
        },
        EventDetail::PipeEvent { event_type, pipe_name } => {
            let mut out: Vec<char> = Vec::new();
            push_text(&mut out, event_type.as_str());
            push_text(&mut out, " ");
            push_text(&mut out, str_or(pipe_name, "?"));
            assert(out@ =~= summary(*detail));
            string_of(out.as_slice())
        },
        EventDetail::CreateRemoteThread { target_image, start_address, .. } => {
            let mut out: Vec<char> = Vec::new();
            push_text(&mut out, "-> ");
            push_text(&mut out, str_or(target_image, "?"));
            push_text(&mut out, " @ ");
            push_text(&mut out, str_or(start_address, "?"));
            assert(out@ =~= summary(*detail));
            string_of(out.as_slice())
        },
        EventDetail::ProcessAccess { target_image, granted_access, .. } => {
            let mut out: Vec<char> = Vec::new();
            push_text(&mut out, "-> ");
            push_text(&mut out, str_or(target_image, "?"));
            push_text(&mut out, " access=");
            push_text(&mut out, str_or(granted_access, "?"));
            assert(out@ =~= summary(*detail));
            string_of(out.as_slice())
        },
        EventDetail::FileDeleteEvent { target_filename, .. } => owned_or(target_filename, "-"),
        EventDetail::DriverLoad { image_loaded, signature_status, .. } => bracketed_text(
            str_or(image_loaded, "?"),
            str_or(signature_status, ""),
        ),
        EventDetail::ImageLoad { image_loaded, signature_status, .. } => bracketed_text(
            str_or(image_loaded, "?"),
            str_or(signature_status, ""),
        ),
        EventDetail::FileCreateStreamHash { target_filename, .. } => owned_or(target_filename, "-"),
        EventDetail::ProcessTampering { tampering_type } => owned_or(tampering_type, "?"),
        EventDetail::SysmonConfigChange { configuration, .. } => owned_or(configuration, "?"),
        EventDetail::RawAccessRead { device } => owned_or(device, "?"),
        EventDetail::ClipboardChange { hashes, .. } => owned_or(hashes, ""),
        EventDetail::ProcessTerminate => "".to_owned(),
        EventDetail::FileCreateTime { target_filename, .. } => owned_or(target_filename, "-"),
        EventDetail::WmiActivity { event_type, operation, .. } => {
            let op = str_or(operation, "");
            let mut out: Vec<char> = Vec::new();
            push_text(&mut out, event_type.as_str());
            if !op.is_empty() {
                push_text(&mut out, ": ");
                push_text(&mut out, op);
            }
            assert(out@ =~= summary(*detail));
            string_of(out.as_slice())
        },
        EventDetail::Generic { fields } => fields_text(fields),
    }
}

// ---------------------------------------------------------------------------
// The table
// ---------------------------------------------------------------------------

/// The process that an event is shown under: the name and number of its node, or
/// those of the event where the process is not in the tree.
pub open spec fn shown_process(e: SysmonEvent, tree: TreeText, r: SharedRodeo) -> (
    Seq<char>,
    Seq<char>,
) {
    match e.process_guid {
        Some(g) => if tree.nodes.contains_key(g) {
            (text_or(tree.nodes[g].image_name, "?"@), pid_or(tree.nodes[g].pid, "?"@))
        } else {
            (text_or(opt_interned(r, e.image), "?"@), pid_or(e.process_id, "?"@))
        },
        None => ("?"@, "?"@),
    }
}

/// The row of an event.
pub open spec fn timeline_row(e: SysmonEvent, tree: TreeText, r: SharedRodeo) -> TimelineRow<
    Seq<char>,
> {
    TimelineRow {
        time: e.time_created,
        process_name: shown_process(e, tree, r).0,
        pid: shown_process(e, tree, r).1,
        event_id: e.event_id,
        event_type: SysmonEventType::of_number(e.event_id).shown_as(),
        detail: summary(e.detail),
    }
}

/// The rows of the events at given positions; positions without an event are
/// passed over.
pub open spec fn timeline_rows_of(
    events: Seq<SysmonEvent>,
    at: Seq<usize>,
    tree: TreeText,
    r: SharedRodeo,
) -> Seq<TimelineRow<Seq<char>>>
    decreases at.len(),
{
    if at.len() == 0 {
        Seq::empty()
    } else {
        let front = timeline_rows_of(events, at.drop_last(), tree, r);
        if at.last() < events.len() {
            front.push(timeline_row(events[at.last() as int], tree, r))
        } else {
            front
        }
    }
}

/// Rows as text.
pub open spec fn timeline_text(rows: Seq<TimelineRow>) -> Seq<TimelineRow<Seq<char>>> {
    rows.map_values(|r: TimelineRow| r@)
}

/// Makes the row of an event.
fn row_from(e: &SysmonEvent, tree: &ProcessTree, rodeo: &SharedRodeo) -> (row: TimelineRow)
    requires
        e.held_by(*rodeo),
    ensures
        row@ == timeline_row(*e, tree@, *rodeo),
{
    let (process_name, pid) = match &e.process_guid {
        Some(g) => match tree.get(g) {
            Some(node) => (owned_or(&node.image_name, "?"), pid_text(node.pid, "?")),
            None => (
                owned_or(&resolve_opt(rodeo, &e.image), "?"),
                pid_text(e.process_id, "?"),
            ),
        },
        None => ("?".to_owned(), "?".to_owned()),
    };
    TimelineRow {
        time: e.time_created,
        process_name,
        pid,
        event_id: e.event_id,
        event_type: SysmonEventType::from_event_id(e.event_id).display_name().to_owned(),
        detail: detail_summary(&e.detail),
    }
}

/// Makes the rows of the events at given positions.
pub fn timeline_rows(
    store: &EventStore,
    tree: &ProcessTree,
    rodeo: &SharedRodeo,
    at: &Vec<usize>,
) -> (rows: Vec<TimelineRow>)
    requires
        all_held(store.events@, *rodeo),
    ensures
        timeline_text(rows@) == timeline_rows_of(store.events@, at@, tree@, *rodeo),
{
    let mut rows: Vec<TimelineRow> = Vec::new();
    let mut i: usize = 0;
    assert(at@.take(0) =~= Seq::empty());
    assert(timeline_text(rows@) =~= Seq::empty());
    while i < at.len()
        invariant
            i <= at.len(),
            all_held(store.events@, *rodeo),
            timeline_text(rows@) == timeline_rows_of(
                store.events@,
                at@.take(i as int),
                tree@,
                *rodeo,
            ),
        decreases at.len() - i,
    {
        assert(at@.take(i + 1).drop_last() =~= at@.take(i as int));
        assert(at@.take(i + 1).last() == at@[i as int]);
        let k: usize = at[i];
        if k < store.events.len() {
            let ghost before = rows@;
            assert(store.events@[k as int].held_by(*rodeo));
            let row = row_from(&store.events[k], tree, rodeo);
            let ghost text = row@;
            rows.push(row);
            assert(timeline_text(rows@) =~= timeline_text(before).push(text));
        }
        i += 1;
    }
    assert(at@.take(at@.len() as int) =~= at@);
    rows
}

/// Lists the rows of the events at given positions.
pub fn timeline_listing(
    store: &EventStore,
    tree: &ProcessTree,
    rodeo: &SharedRodeo,
    at: &Vec<usize>,
    filter: &str,
    sort: &SortState,
) -> (listing: Listing<TimelineRow>)
    requires
        all_held(store.events@, *rodeo),
    ensures
        if at@.len() == 0 {
            listing is Nothing
        } else {
            exists|rows: Seq<TimelineRow>|
                timeline_text(rows) == timeline_rows_of(store.events@, at@, tree@, *rodeo)
                    && #[trigger] lists(listing, rows, filter@, None, *sort)
        },
{
    if at.len() == 0 {
        return Listing::Nothing;
    }
    let rows = timeline_rows(store, tree, rodeo, at);
    let ghost all = rows@;
    let whole: TimeRange = None;
    let l = list_rows(rows, filter, &whole, sort);
    assert(lists(l, all, filter@, None, *sort));
    l
}

// ---------------------------------------------------------------------------
// Choosing the events
// ---------------------------------------------------------------------------

/// The times of the events at given positions.
pub open spec fn times_at(events: Seq<SysmonEvent>, at: Seq<usize>) -> Seq<Timestamp> {
    at.map_values(|p: usize| events[p as int].time_created)
}

/// Whether `out` is the timeline of some processes: the positions of their
/// events, sorted by time; events of the same time keep their order.
pub open spec fn is_timeline(events: Seq<SysmonEvent>, chosen: Set<ProcessGuid>, out: Seq<usize>) -> bool {
    let p = positions(events, Group::Processes(chosen));
    exists|order: Seq<usize>| #[trigger] sorts(times_at(events, p), order) && out == picked(p, order)
}

/// The timeline of the chosen processes.
pub fn generate_timeline(store: &EventStore, chosen: &FxHashMap<ProcessGuid, ()>) -> (out: Vec<usize>)
    ensures
        is_timeline(store.events@, chosen@.dom(), out@),
        forall|i: int| 0 <= i < out@.len() ==> (#[trigger] out@[i]) < store.events@.len(),
{
    let ghost events = store.events@;
    let ghost g = Group::Processes(chosen@.dom());
    let total: usize = store.events.len();
    let mut at: Vec<usize> = Vec::new();
    let mut times: Vec<Timestamp> = Vec::new();
    let mut i: usize = 0;
    while i < total
        invariant
            i <= total == store.events@.len(),
            events == store.events@,
            g == Group::Processes(chosen@.dom()),
            times@.len() == at@.len(),
            forall|j: int, k: int| 0 <= j < k < at@.len() ==> at@[j] < at@[k],
            forall|k: int|
                0 <= k < at@.len() ==> (#[trigger] at@[k]) < i && belongs(events[at@[k] as int], g),
            forall|k: int|
                0 <= k < at@.len() ==> (#[trigger] times@[k]) == events[at@[k] as int].time_created,
            forall|p: usize| p < i && belongs(events[p as int], g) ==> #[trigger] at@.contains(p),
        decreases total - i,
    {
        let e = &store.events[i];
        let take = match &e.process_guid {
            Some(p) => fx_get(chosen, p).is_some(),
            None => false,
        };
        assert(take == belongs(*e, g));
        if take {
            let ghost before = at@;
            at.push(i);
            times.push(e.time_created);
            proof {
                assert forall|p: usize|
                    p < i + 1 && belongs(events[p as int], g) implies #[trigger] at@.contains(p) by {
                    if p < i {
                        assert(before.contains(p));
                        let k = choose|k: int| 0 <= k < before.len() && before[k] == p;
                        assert(at@[k] == p);
                    } else {
                        assert(at@[before.len() as int] == p);
                    }
                }
            }
        }
        i += 1;
    }
    proof {
        law_positions_are_determined(events, g, at@);
        assert(times@ =~= times_at(events, at@));
    }
    let order = sorted_order(&times);
    let mut out: Vec<usize> = Vec::new();
    let mut k: usize = 0;
    while k < order.len()
        invariant
            k <= order.len(),
            times@.len() == at@.len(),
            sorts(times@, order@),
            out@.len() == k,
            forall|j: int| 0 <= j < k ==> (#[trigger] out@[j]) == at@[order@[j] as int],
        decreases order.len() - k,
    {
        out.push(at[order[k]]);
        k += 1;
    }
    proof {
        assert(out@ =~= picked(at@, order@));
        assert(sorts(times_at(events, at@), order@));
        assert forall|i: int| 0 <= i < out@.len() implies (#[trigger] out@[i]) < events.len() by {
            assert(order@[i] < at@.len());
            assert(at@[order@[i] as int] < events.len());
        }
    }
    out
}

/// A timeline holds exactly the events of the chosen processes, each once, none
/// of them earlier than one that stands before it.
pub proof fn law_timelines_are_complete(
    events: Seq<SysmonEvent>,
    chosen: Set<ProcessGuid>,
    out: Seq<usize>,
)
    requires
        events.len() <= usize::MAX,
        is_timeline(events, chosen, out),
    ensures
        forall|p: usize| #[trigger]
            out.contains(p) <==> p < events.len() && belongs(
                events[p as int],
                Group::Processes(chosen),
            ),
        out.no_duplicates(),
        forall|i: int, j: int|
            0 <= i < j < out.len() ==> !events[(#[trigger] out[j]) as int].time_created.earlier(
                events[(#[trigger] out[i]) as int].time_created,
            ),
{
    let g = Group::Processes(chosen);
    let p = positions(events, g);
    law_positions_are_exact(events, g);
    let times = times_at(events, p);
    let order = choose|order: Seq<usize>| #[trigger]
        sorts(times_at(events, p), order) && out == picked(p, order);
    crate::order::lemma_distinct(times, order);
    crate::event_store::lemma_positions_len(events, g);
    assert forall|x: usize| #[trigger] out.contains(x) <==> x < events.len() && belongs(
        events[x as int],
        g,
    ) by {
        if out.contains(x) {
            let i = choose|i: int| 0 <= i < out.len() && out[i] == x;
            assert(order[i] < p.len());
            assert(p[order[i] as int] == x);
            assert(belongs(events[p[order[i] as int] as int], g));
        }
        if x < events.len() && belongs(events[x as int], g) {
            assert(p.contains(x));
            let k = choose|k: int| 0 <= k < p.len() && p[k] == x;
            assert(order.contains(k as usize));
            let i = choose|i: int| 0 <= i < order.len() && order[i] == k as usize;
            assert(out[i] == x);
        }
    }
    assert forall|i: int, j: int|
        0 <= i < out.len() && 0 <= j < out.len() && i != j implies out[i] != out[j] by {
        assert(order[i] != order[j]);
        assert(order[i] < p.len() && order[j] < p.len());
        if order[i] < order[j] {
            assert(p[order[i] as int] < p[order[j] as int]);
        } else {
            assert(p[order[j] as int] < p[order[i] as int]);
        }
    }
    assert forall|i: int, j: int| 0 <= i < j < out.len() implies !events[(
    #[trigger] out[j]) as int].time_created.earlier(
        events[(#[trigger] out[i]) as int].time_created,
    ) by {
        assert(crate::order::goes_before(times, order[i], order[j]));
        assert(order[i] < p.len() && order[j] < p.len());
        assert(times[order[i] as int] == events[out[i] as int].time_created);
        assert(times[order[j] as int] == events[out[j] as int].time_created);
    }
}

} // verus!
