//! Suspicious events of a process that no other panel shows.

use crate::event::{EventDetail, SysmonEvent};
use crate::event_store::{law_positions_are_exact, positions, EventStore, Group};
use crate::guid::ProcessGuid;
use crate::panels::{
    fmt_time, list_events, lists_events, tab_line, tabbed, technique, technique_text, time_text,
    EventRow, Listing, SortKey, SortState, TableRow, TimeRange,
};
use crate::text::{owned_or, part_texts, text_or};
use crate::textmap::{fields_of, FieldMap};
use crate::types::Timestamp;
use vstd::prelude::*;

verus! {

/// What a suspicious event points to.
#[derive(Debug, Clone, Copy, PartialEq, Eq, Structural)]
pub enum DetectionCategory {
    AntiForensics,
    DefenseEvasion,
    WmiPersistence,
    DataAccess,
}

impl DetectionCategory {
    /// The words that a category is shown by.
    pub open spec fn shown_as(self) -> Seq<char> {
        match self {
            DetectionCategory::AntiForensics => "Anti-Forensics"@,
            DetectionCategory::DefenseEvasion => "Defense Evasion"@,
            DetectionCategory::WmiPersistence => "WMI Persistence"@,
            DetectionCategory::DataAccess => "Data Access"@,
        }
    }

    /// The words that this category is shown by.
    pub fn label(&self) -> (word: &'static str)
        ensures
            word@ == self.shown_as(),
    {
        match self {
            DetectionCategory::AntiForensics => "Anti-Forensics",
            DetectionCategory::DefenseEvasion => "Defense Evasion",
            DetectionCategory::WmiPersistence => "WMI Persistence",
            DetectionCategory::DataAccess => "Data Access",
        }
    }
}

/// A row of the detection panel. `S` is how texts are held.
pub struct DetectionRow<S = String> {
    pub time: Timestamp,
    pub category: DetectionCategory,
    /// The name of the event.
    pub event_type: S,
    /// The first detail; what it is depends on the event.
    pub col_a: S,
    /// The second detail.
    pub col_b: S,
    /// The third detail.
    pub col_c: S,
    pub mitre: S,
}

impl DetectionRow {
    /// The row as text.
    pub open spec fn view(&self) -> DetectionRow<Seq<char>> {
        DetectionRow {
            time: self.time,
            category: self.category,
            event_type: self.event_type@,
            col_a: self.col_a@,
            col_b: self.col_b@,
            col_c: self.col_c@,
            mitre: self.mitre@,
        }
    }
}

impl DetectionRow<Seq<char>> {
    /// The whole row as one line.
    pub open spec fn line(self) -> Seq<char> {
        tabbed(
            seq![
                time_text(self.time),
                self.event_type,
                self.col_a,
                self.col_b,
                self.col_c,
                self.category.shown_as(),
                self.mitre,
            ],
        )
    }

    /// What the row is sorted by in a column.
    pub open spec fn key(self, column: usize) -> SortKey<Seq<char>> {
        if column == 0 {
            SortKey::Time(self.time)
        } else if column == 1 {
            SortKey::Text(self.event_type)
        } else if column == 2 {
            SortKey::Text(self.col_a)
        } else if column == 3 {
            SortKey::Text(self.col_b)
        } else if column == 4 {
            SortKey::Text(self.col_c)
        } else if column == 5 {
            SortKey::Text(self.mitre)
        } else {
            SortKey::Unsorted
        }
    }
}

impl TableRow for DetectionRow {
    open spec fn at(self) -> Timestamp {
        self.time
    }

    open spec fn line(self) -> Seq<char> {
        self@.line()
    }

    open spec fn key(self, column: usize) -> SortKey<Seq<char>> {
        self@.key(column)
    }

    fn row_time(&self) -> (t: Timestamp) {
        self.time
    }

    fn copy_text(&self) -> (s: String) {
        let time = fmt_time(self.time);
        let columns: Vec<&str> = vec![
            time.as_str(),
            self.event_type.as_str(),
            self.col_a.as_str(),
            self.col_b.as_str(),
            self.col_c.as_str(),
            self.category.label(),
            self.mitre.as_str(),
        ];
        assert(part_texts(columns@) =~= seq![
            time_text(self.time),
            self.event_type@,
            self.col_a@,
            self.col_b@,
            self.col_c@,
            self.category.shown_as(),
            self.mitre@,
        ]);
        tab_line(&columns)
    }

    fn sort_key(&self, column: usize) -> (k: SortKey) {
        match column {
            0 => SortKey::Time(self.time),
            1 => SortKey::Text(self.event_type.clone()),
            2 => SortKey::Text(self.col_a.clone()),
            3 => SortKey::Text(self.col_b.clone()),
            4 => SortKey::Text(self.col_c.clone()),
            5 => SortKey::Text(self.mitre.clone()),
            _ => SortKey::Unsorted,
        }
    }
}

/// The text of a field; empty where there is no such field.
pub open spec fn field_or_empty(fields: Map<Seq<char>, Seq<char>>, name: Seq<char>) -> Seq<char> {
    if fields.contains_key(name) {
        fields[name]
    } else {
        ""@
    }
}

/// The text of a field.
fn field_text(fields: &FieldMap, name: &str) -> (s: String)
    ensures
        s@ == field_or_empty(fields_of(*fields), name@),
{
    match fields.get(name) {
        Some(t) => t.clone(),
        None => "".to_owned(),
    }
}

/// One optional text, or another in its place.
pub open spec fn either(a: Option<Seq<char>>, b: Option<Seq<char>>) -> Option<Seq<char>> {
    if a is Some {
        a
    } else {
        b
    }
}

impl EventRow for DetectionRow {
    type Text = DetectionRow<Seq<char>>;

    open spec fn text(self) -> DetectionRow<Seq<char>> {
        self@
    }

    /// A suspicious event with its details.
    open spec fn row_of(e: SysmonEvent, guid: ProcessGuid) -> Option<DetectionRow<Seq<char>>> {
        match e.detail@ {
            EventDetail::FileCreateTime {
                target_filename,
                creation_utc_time,
                previous_creation_utc_time,
            } => Some(
                DetectionRow {
                    time: e.time_created,
                    category: DetectionCategory::AntiForensics,
                    event_type: "FileCreateTime"@,
                    col_a: text_or(target_filename, ""@),
                    col_b: text_or(creation_utc_time, ""@),
                    col_c: text_or(previous_creation_utc_time, ""@),
                    mitre: technique(e),
                },
            ),
            EventDetail::RawAccessRead { device } => Some(
                DetectionRow {
                    time: e.time_created,
                    category: DetectionCategory::AntiForensics,
                    event_type: "RawAccessRead"@,
                    col_a: text_or(device, ""@),
                    col_b: ""@,
                    col_c: ""@,
                    mitre: technique(e),
                },
            ),
            EventDetail::Generic { fields } => if e.event_id == 4 {
                Some(
                    DetectionRow {
                        time: e.time_created,
                        category: DetectionCategory::DefenseEvasion,
                        event_type: "SysmonState"@,
                        col_a: field_or_empty(fields, "State"@),
                        col_b: field_or_empty(fields, "Version"@),
                        col_c: ""@,
                        mitre: technique(e),
                    },
                )
            } else {
                None
            },
            EventDetail::SysmonConfigChange { configuration, configuration_file_hash } => Some(
                DetectionRow {
                    time: e.time_created,
                    category: DetectionCategory::DefenseEvasion,
                    event_type: "ConfigChange"@,
                    col_a: text_or(configuration, ""@),
                    col_b: text_or(configuration_file_hash, ""@),
                    col_c: ""@,
                    mitre: technique(e),
                },
            ),
            EventDetail::WmiActivity { event_type, operation, name, query, destination, .. } => Some(
                DetectionRow {
                    time: e.time_created,
                    category: DetectionCategory::WmiPersistence,
                    event_type,
                    col_a: text_or(operation, ""@),
                    col_b: text_or(either(name, query), ""@),
                    col_c: text_or(destination, ""@),
                    mitre: technique(e),
                },
            ),
            EventDetail::ClipboardChange { session, client_info, hashes } => Some(
                DetectionRow {
                    time: e.time_created,
                    category: DetectionCategory::DataAccess,
                    event_type: "ClipboardChange"@,
                    col_a: text_or(session, ""@),
                    col_b: text_or(client_info, ""@),
                    col_c: text_or(hashes, ""@),
                    mitre: technique(e),
                },
            ),
            _ => None,
        }
    }

    fn from_event(e: &SysmonEvent, guid: &ProcessGuid) -> (row: Option<Self>) {
        match &e.detail {
            EventDetail::FileCreateTime {
                target_filename,
                creation_utc_time,
                previous_creation_utc_time,
            } => Some(
                DetectionRow {
                    time: e.time_created,
                    category: DetectionCategory::AntiForensics,
                    event_type: "FileCreateTime".to_owned(),
                    col_a: owned_or(target_filename, ""),
                    col_b: owned_or(creation_utc_time, ""),
                    col_c: owned_or(previous_creation_utc_time, ""),
                    mitre: technique_text(e),
                },
            ),
            EventDetail::RawAccessRead { device } => Some(
                DetectionRow {
                    time: e.time_created,
                    category: DetectionCategory::AntiForensics,
                    event_type: "RawAccessRead".to_owned(),
                    col_a: owned_or(device, ""),
                    col_b: "".to_owned(),
                    col_c: "".to_owned(),
                    mitre: technique_text(e),
                },
            ),
            EventDetail::Generic { fields } => {
                if e.event_id != 4 {
                    return None;
                }
                Some(
                    DetectionRow {
                        time: e.time_created,
                        category: DetectionCategory::DefenseEvasion,
                        event_type: "SysmonState".to_owned(),
                        col_a: field_text(fields, "State"),
                        col_b: field_text(fields, "Version"),
                        col_c: "".to_owned(),
                        mitre: technique_text(e),
                    },
                )
            },
            EventDetail::SysmonConfigChange { configuration, configuration_file_hash } => Some(
                DetectionRow {
                    time: e.time_created,
                    category: DetectionCategory::DefenseEvasion,
                    event_type: "ConfigChange".to_owned(),
                    col_a: owned_or(configuration, ""),
                    col_b: owned_or(configuration_file_hash, ""),
                    col_c: "".to_owned(),
                    mitre: technique_text(e),
                },
            ),
            EventDetail::WmiActivity { event_type, operation, name, query, destination, .. } => Some(
                DetectionRow {
                    time: e.time_created,
                    category: DetectionCategory::WmiPersistence,
                    event_type: event_type.clone(),
                    col_a: owned_or(operation, ""),
                    col_b: match name {
                        Some(n) => n.clone(),
                        None => owned_or(query, ""),
                    },
                    col_c: owned_or(destination, ""),
                    mitre: technique_text(e),
                },
            ),
            EventDetail::ClipboardChange { session, client_info, hashes } => Some(
                DetectionRow {
                    time: e.time_created,
                    category: DetectionCategory::DataAccess,
                    event_type: "ClipboardChange".to_owned(),
                    col_a: owned_or(session, ""),
                    col_b: owned_or(client_info, ""),
                    col_c: owned_or(hashes, ""),
                    mitre: technique_text(e),
                },
            ),
            _ => None,
        }
    }
}

/// Lists the suspicious events of a process.
pub fn detection_listing(
    store: &EventStore,
    guid: &ProcessGuid,
    filter: &str,
    range: &TimeRange,
    sort: &SortState,
) -> (listing: Listing<DetectionRow>)
    requires
        store.wf(),
    ensures
        lists_events(
            listing,
            store.events@,
            positions(
                store.events@,
                Group::ProcessAndTypes(
                    *guid,
                    seq![2u16, 4u16, 9u16, 16u16, 19u16, 20u16, 21u16, 24u16],
                ),
            ),
            *guid,
            filter@,
            *range,
            *sort,
        ),
{
    let ids: [u16; 8] = [2, 4, 9, 16, 19, 20, 21, 24];
    let ghost want = seq![2u16, 4u16, 9u16, 16u16, 19u16, 20u16, 21u16, 24u16];
    assert(ids@ =~= want);
    let at = store.events_for_process_and_types(guid, ids.as_slice());
    let total: usize = store.events.len();
    proof {
        law_positions_are_exact(store.events@, Group::ProcessAndTypes(*guid, want));
    }
    list_events(store, &at, guid, filter, range, sort)
}

} // verus!
