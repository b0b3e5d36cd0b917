//! Cross-process activity that a process started or suffered.

use crate::event::{EventDetail, SysmonEvent};
use crate::event_store::{
    belongs, law_positions_are_determined, law_positions_are_exact, positions, EventStore, Group,
};
use crate::guid::{opt_guid_eq, ProcessGuid};
use crate::panels::{
    fmt_time, list_events, lists_events, tab_line, tabbed, technique, technique_text, time_text,
    EventRow, Listing, SortKey, SortState, TableRow, TimeRange,
};
use crate::text::{opt_text, owned_or, part_texts, push_text, string_of, text_or};
use crate::types::Timestamp;
use vstd::prelude::*;

verus! {

/// A row of the injection panel. `S` is how texts are held.
pub struct InjectionRow<S = String> {
    pub time: Timestamp,
    /// RemoteThread, ProcessAccess or Tampering.
    pub kind: S,
    /// Source, Target, or a dash.
    pub role: S,
    pub source: S,
    pub target: S,
    pub details: S,
    pub mitre: S,
}

impl InjectionRow {
    /// The row as text.
    pub open spec fn view(&self) -> InjectionRow<Seq<char>> {
        InjectionRow {
            time: self.time,
            kind: self.kind@,
            role: self.role@,
            source: self.source@,
            target: self.target@,
            details: self.details@,
            mitre: self.mitre@,
        }
    }
}

impl InjectionRow<Seq<char>> {
    /// The whole row as one line.
    pub open spec fn line(self) -> Seq<char> {
        tabbed(
            seq![
                time_text(self.time),
                self.kind,
                self.role,
                self.source,
                self.target,
                self.details,
                self.mitre,
            ],
        )
    }

    /// What the row is sorted by in a column.
    pub open spec fn key(self, column: usize) -> SortKey<Seq<char>> {
        if column == 0 {
            SortKey::Time(self.time)
        } else if column == 1 {
            SortKey::Text(self.kind)
        } else if column == 2 {
            SortKey::Text(self.role)
        } else if column == 3 {
            SortKey::Text(self.source)
        } else if column == 4 {
            SortKey::Text(self.target)
        } else if column == 5 {
            SortKey::Text(self.details)
        } else if column == 6 {
            SortKey::Text(self.mitre)
        } else {
            SortKey::Unsorted
        }
    }
}

impl TableRow for InjectionRow {
    open spec fn at(self) -> Timestamp {
        self.time
    }

    open spec fn line(self) -> Seq<char> {
        self@.line()
    }

    open spec fn key(self, column: usize) -> SortKey<Seq<char>> {
        self@.key(column)
    }

    fn row_time(&self) -> (t: Timestamp) {
        self.time
    }

    fn copy_text(&self) -> (s: String) {
        let time = fmt_time(self.time);
        let columns: Vec<&str> = vec![
            time.as_str(),
            self.kind.as_str(),
            self.role.as_str(),
            self.source.as_str(),
            self.target.as_str(),
            self.details.as_str(),
            self.mitre.as_str(),
        ];
        assert(part_texts(columns@) =~= seq![
            time_text(self.time),
            self.kind@,
            self.role@,
            self.source@,
            self.target@,
            self.details@,
            self.mitre@,
        ]);
        tab_line(&columns)
    }

    fn sort_key(&self, column: usize) -> (k: SortKey) {
        match column {
            0 => SortKey::Time(self.time),
            1 => SortKey::Text(self.kind.clone()),
            2 => SortKey::Text(self.role.clone()),
            3 => SortKey::Text(self.source.clone()),
            4 => SortKey::Text(self.target.clone()),
            5 => SortKey::Text(self.details.clone()),
            6 => SortKey::Text(self.mitre.clone()),
            _ => SortKey::Unsorted,
        }
    }
}

/// The part that a process has in an event between two processes.
pub open spec fn role_of(
    source: Option<ProcessGuid>,
    target: Option<ProcessGuid>,
    guid: ProcessGuid,
) -> Seq<char> {
    if source == Some(guid) {
        "Source"@
    } else if target == Some(guid) {
        "Target"@
    } else {
        "-"@
    }
}

/// The part that a process has in an event between two processes.
fn role_text(
    source: &Option<ProcessGuid>,
    target: &Option<ProcessGuid>,
    guid: &ProcessGuid,
) -> (s: String)
    ensures
        s@ == role_of(*source, *target, *guid),
{
    let own = Some(*guid);
    if opt_guid_eq(source, &own) {
        "Source".to_owned()
    } else if opt_guid_eq(target, &own) {
        "Target".to_owned()
    } else {
        "-".to_owned()
    }
}

/// Where a remote thread started: module and function, or the one that is known.
pub open spec fn start_of(module: Option<Seq<char>>, function: Option<Seq<char>>) -> Seq<char> {
    match (module, function) {
        (Some(m), Some(f)) => m + "!"@ + f,
        (Some(m), None) => m,
        (None, Some(f)) => f,
        (None, None) => ""@,
    }
}

/// Where a remote thread started.
fn start_text(module: &Option<String>, function: &Option<String>) -> (s: String)
    ensures
        s@ == start_of(opt_text(*module), opt_text(*function)),
{
    match (module, function) {
        (Some(m), Some(f)) => {
            let mut out: Vec<char> = Vec::new();
            push_text(&mut out, m.as_str());
            push_text(&mut out, "!");
            push_text(&mut out, f.as_str());
            assert(out@ =~= m@ + "!"@ + f@);
            string_of(out.as_slice())
        },
        (Some(m), None) => m.clone(),
        (None, Some(f)) => f.clone(),
        (None, None) => "".to_owned(),
    }
}

impl EventRow for InjectionRow {
    type Text = InjectionRow<Seq<char>>;

    open spec fn text(self) -> InjectionRow<Seq<char>> {
        self@
    }

    /// A remote thread, an access to another process or a tampering.
    open spec fn row_of(e: SysmonEvent, guid: ProcessGuid) -> Option<InjectionRow<Seq<char>>> {
        match e.detail@ {
            EventDetail::CreateRemoteThread {
                source_process_guid,
                source_image,
                target_process_guid,
                target_image,
                start_module,
                start_function,
                ..
            } => Some(
                InjectionRow {
                    time: e.time_created,
                    kind: "RemoteThread"@,
                    role: role_of(source_process_guid, target_process_guid, guid),
                    source: text_or(source_image, ""@),
                    target: text_or(target_image, ""@),
                    details: start_of(start_module, start_function),
                    mitre: technique(e),
                },
            ),
            EventDetail::ProcessAccess {
                source_process_guid,
                source_image,
                target_process_guid,
                target_image,
                granted_access,
                ..
            } => Some(
                InjectionRow {
                    time: e.time_created,
                    kind: "ProcessAccess"@,
                    role: role_of(source_process_guid, target_process_guid, guid),
                    source: text_or(source_image, ""@),
                    target: text_or(target_image, ""@),
                    details: text_or(granted_access, ""@),
                    mitre: technique(e),
                },
            ),
            EventDetail::ProcessTampering { tampering_type } => Some(
                InjectionRow {
                    time: e.time_created,
                    kind: "Tampering"@,
                    role: "-"@,
                    source: ""@,
                    target: ""@,
                    details: text_or(tampering_type, ""@),
                    mitre: technique(e),
                },
            ),
            _ => None,
        }
    }

    fn from_event(e: &SysmonEvent, guid: &ProcessGuid) -> (row: Option<Self>) {
        match &e.detail {
            EventDetail::CreateRemoteThread {
                source_process_guid,
                source_image,
                target_process_guid,
                target_image,
                start_module,
                start_function,
                ..
            } => Some(
                InjectionRow {
                    time: e.time_created,
                    kind: "RemoteThread".to_owned(),
                    role: role_text(source_process_guid, target_process_guid, guid),
                    source: owned_or(source_image, ""),
                    target: owned_or(target_image, ""),
                    details: start_text(start_module, start_function),
                    mitre: technique_text(e),
                },
            ),
            EventDetail::ProcessAccess {
                source_process_guid,
                source_image,
                target_process_guid,
                target_image,
                granted_access,
                ..
            } => Some(
                InjectionRow {
                    time: e.time_created,
                    kind: "ProcessAccess".to_owned(),
                    role: role_text(source_process_guid, target_process_guid, guid),
                    source: owned_or(source_image, ""),
                    target: owned_or(target_image, ""),
                    details: owned_or(granted_access, ""),
                    mitre: technique_text(e),
                },
            ),
            EventDetail::ProcessTampering { tampering_type } => Some(
                InjectionRow {
                    time: e.time_created,
                    kind: "Tampering".to_owned(),
                    role: "-".to_owned(),
                    source: "".to_owned(),
                    target: "".to_owned(),
                    details: owned_or(tampering_type, ""),
                    mitre: technique_text(e),
                },
            ),
            _ => None,
        }
    }
}

/// Merges two ascending lists, keeping one of what stands in both.
fn merge_ascending(a: &[usize], b: &[usize]) -> (out: Vec<usize>)
    requires
        forall|i: int, j: int| 0 <= i < j < a@.len() ==> a@[i] < a@[j],
        forall|i: int, j: int| 0 <= i < j < b@.len() ==> b@[i] < b@[j],
    ensures
        forall|i: int, j: int| 0 <= i < j < out@.len() ==> out@[i] < out@[j],
        forall|p: usize| #[trigger] out@.contains(p) <==> a@.contains(p) || b@.contains(p),
{
    let mut out: Vec<usize> = Vec::new();
    let mut i: usize = 0;
    let mut j: usize = 0;
    while i < a.len() || j < b.len()
        invariant
            i <= a@.len(),
            j <= b@.len(),
            forall|i: int, j: int| 0 <= i < j < a@.len() ==> a@[i] < a@[j],
            forall|i: int, j: int| 0 <= i < j < b@.len() ==> b@[i] < b@[j],
            forall|i: int, j: int| 0 <= i < j < out@.len() ==> out@[i] < out@[j],
            forall|k: int| 0 <= k < i ==> out@.contains(#[trigger] a@[k]),
            forall|k: int| 0 <= k < j ==> out@.contains(#[trigger] b@[k]),
            forall|k: int|
                0 <= k < out@.len() ==> a@.contains(#[trigger] out@[k]) || b@.contains(out@[k]),
            forall|k: int, m: int| 0 <= k < out@.len() && i <= m < a@.len() ==> out@[k] < a@[m],
            forall|k: int, m: int| 0 <= k < out@.len() && j <= m < b@.len() ==> out@[k] < b@[m],
        decreases a@.len() + b@.len() - i - j,
    {
        let ghost before = out@;
        let from_a = i < a.len() && (j == b.len() || a[i] <= b[j]);
        let from_b = j < b.len() && (i == a.len() || b[j] <= a[i]);
        let next: usize = if from_a {
            a[i]
        } else {
            b[j]
        };
        out.push(next);
        if from_a {
            i += 1;
        }
        if from_b {
            j += 1;
        }
        proof {
            assert(out@[before.len() as int] == next);
            assert(out@.contains(next));
            assert forall|p: usize| #[trigger] before.contains(p) implies out@.contains(p) by {
                let k = choose|k: int| 0 <= k < before.len() && before[k] == p;
                assert(out@[k] == p);
            }
            assert(from_a ==> a@.contains(next));
            assert(from_b ==> b@.contains(next));
        }
    }
    proof {
        assert forall|p: usize| #[trigger] out@.contains(p) <==> a@.contains(p) || b@.contains(p) by {
            if a@.contains(p) {
                let k = choose|k: int| 0 <= k < a@.len() && a@[k] == p;
                assert(out@.contains(a@[k]));
            }
            if b@.contains(p) {
                let k = choose|k: int| 0 <= k < b@.len() && b@[k] == p;
                assert(out@.contains(b@[k]));
            }
        }
    }
    out
}

/// The positions of the events of some types that a process caused, and of those
/// aimed at it.
fn involved(store: &EventStore, guid: &ProcessGuid, ids: &[u16]) -> (at: Vec<usize>)
    requires
        store.wf(),
    ensures
        at@ == positions(store.events@, Group::TypesOrTarget(*guid, ids@)),
{
    let own = store.events_for_process_and_types(guid, ids);
    let aimed = store.events_targeting_process(guid);
    let total: usize = store.events.len();
    let ghost events = store.events@;
    let ghost both = Group::TypesOrTarget(*guid, ids@);
    proof {
        law_positions_are_exact(events, Group::ProcessAndTypes(*guid, ids@));
        law_positions_are_exact(events, Group::Target(*guid));
    }
    let at = merge_ascending(own.as_slice(), aimed);
    proof {
        assert forall|k: int| 0 <= k < at@.len() implies (#[trigger] at@[k]) < events.len()
            && belongs(events[at@[k] as int], both) by {
            assert(at@.contains(at@[k]));
            if own@.contains(at@[k]) {
                let m = choose|m: int| 0 <= m < own@.len() && own@[m] == at@[k];
                assert(belongs(events[own@[m] as int], Group::ProcessAndTypes(*guid, ids@)));
            } else {
                let m = choose|m: int| 0 <= m < aimed@.len() && aimed@[m] == at@[k];
                assert(belongs(events[aimed@[m] as int], Group::Target(*guid)));
            }
        }
        assert forall|i: usize|
            i < events.len() && belongs(events[i as int], both) implies #[trigger] at@.contains(i) by {
            if belongs(events[i as int], Group::Target(*guid)) {
                assert(aimed@.contains(i));
            } else {
                assert(belongs(events[i as int], Group::ProcessAndTypes(*guid, ids@)));
                assert(own@.contains(i));
            }
        }
        law_positions_are_determined(events, both, at@);
    }
    at
}

/// Lists the cross-process activity that a process started or suffered.
pub fn injection_listing(
    store: &EventStore,
    guid: &ProcessGuid,
    filter: &str,
    range: &TimeRange,
    sort: &SortState,
) -> (listing: Listing<InjectionRow>)
    requires
        store.wf(),
    ensures
        lists_events(
            listing,
            store.events@,
            positions(store.events@, Group::TypesOrTarget(*guid, seq![8u16, 10u16, 25u16])),
            *guid,
            filter@,
            *range,
            *sort,
        ),
{
    let ids: [u16; 3] = [8, 10, 25];
    assert(ids@ =~= seq![8u16, 10u16, 25u16]);
    let at = involved(store, guid, ids.as_slice());
    let total: usize = store.events.len();
    proof {
        law_positions_are_exact(
            store.events@,
            Group::TypesOrTarget(*guid, seq![8u16, 10u16, 25u16]),
        );
    }
    list_events(store, &at, guid, filter, range, sort)
}

} // verus!
