//! Registry changes made by a process.

use crate::event::{EventDetail, SysmonEvent};
use crate::event_store::{law_positions_are_exact, positions, EventStore, Group};
use crate::guid::ProcessGuid;
use crate::panels::{
    fmt_time, list_events, lists_events, tab_line, tabbed, technique,
    technique_text, time_text, EventRow, Listing, SortKey, SortState, TableRow, TimeRange,
};
use crate::text::{owned_or, part_texts, push_text, string_of, text_or};
use crate::types::Timestamp;
use vstd::prelude::*;

verus! {

/// A row of the registry panel. `S` is how texts are held.
pub struct RegistryRow<S = String> {
    pub time: Timestamp,
    pub action: S,
    pub target_object: S,
    /// The value that was set, or the new name behind an arrow.
    pub details: S,
    pub mitre: S,
}

impl RegistryRow {
    /// The row as text.
    pub open spec fn view(&self) -> RegistryRow<Seq<char>> {
        RegistryRow {
            time: self.time,
            action: self.action@,
            target_object: self.target_object@,
            details: self.details@,
            mitre: self.mitre@,
        }
    }
}

impl RegistryRow<Seq<char>> {
    /// The whole row as one line.
    pub open spec fn line(self) -> Seq<char> {
        tabbed(
            seq![
                time_text(self.time),
                self.action,
                self.target_object,
                self.details,
                self.mitre,
            ],
        )
    }

    /// What the row is sorted by in a column.
    pub open spec fn key(self, column: usize) -> SortKey<Seq<char>> {
        if column == 0 {
            SortKey::Time(self.time)
        } else if column == 1 {
            SortKey::Text(self.action)
        } else if column == 2 {
            SortKey::Text(self.target_object)
        } else if column == 3 {
            SortKey::Text(self.details)
        } else if column == 4 {
            SortKey::Text(self.mitre)
        } else {
            SortKey::Unsorted
        }
    }
}

impl TableRow for RegistryRow {
    open spec fn at(self) -> Timestamp {
        self.time
    }

    open spec fn line(self) -> Seq<char> {
        self@.line()
    }

    open spec fn key(self, column: usize) -> SortKey<Seq<char>> {
        self@.key(column)
    }

    fn row_time(&self) -> (t: Timestamp) {
        self.time
    }

    fn copy_text(&self) -> (s: String) {
        let time = fmt_time(self.time);
        let columns: Vec<&str> = vec![
            time.as_str(),
            self.action.as_str(),
            self.target_object.as_str(),
            self.details.as_str(),
            self.mitre.as_str(),
        ];
        assert(part_texts(columns@) =~= seq![
            time_text(self.time),
            self.action@,
            self.target_object@,
            self.details@,
            self.mitre@,
        ]);
        tab_line(&columns)
    }

    fn sort_key(&self, column: usize) -> (k: SortKey) {
        match column {
            0 => SortKey::Time(self.time),
            1 => SortKey::Text(self.action.clone()),
            2 => SortKey::Text(self.target_object.clone()),
            3 => SortKey::Text(self.details.clone()),
            4 => SortKey::Text(self.mitre.clone()),
            _ => SortKey::Unsorted,
        }
    }
}

/// What a registry change says: for a renaming the new name behind an arrow.
pub open spec fn change_text(details: Option<Seq<char>>, new_name: Option<Seq<char>>) -> Seq<char> {
    match new_name {
        Some(name) => "→ "@ + name,
        None => text_or(details, ""@),
    }
}

impl EventRow for RegistryRow {
    type Text = RegistryRow<Seq<char>>;

    open spec fn text(self) -> RegistryRow<Seq<char>> {
        self@
    }

    /// A registry key or value that was changed.
    open spec fn row_of(e: SysmonEvent, guid: ProcessGuid) -> Option<RegistryRow<Seq<char>>> {
        match e.detail@ {
            EventDetail::RegistryEvent { event_type, target_object, details, new_name } => Some(
                RegistryRow {
                    time: e.time_created,
                    action: text_or(event_type, ""@),
                    target_object: text_or(target_object, ""@),
                    details: change_text(details, new_name),
                    mitre: technique(e),
                },
            ),
            _ => None,
        }
    }

    fn from_event(e: &SysmonEvent, guid: &ProcessGuid) -> (row: Option<Self>) {
        match &e.detail {
            EventDetail::RegistryEvent { event_type, target_object, details, new_name } => {
                let change = match new_name {
                    Some(name) => {
                        let mut out: Vec<char> = Vec::new();
                        push_text(&mut out, "→ ");
                        push_text(&mut out, name.as_str());
                        assert(out@ =~= "→ "@ + name@);
                        string_of(out.as_slice())
                    },
                    None => owned_or(details, ""),
                };
                Some(
                    RegistryRow {
                        time: e.time_created,
                        action: owned_or(event_type, ""),
                        target_object: owned_or(target_object, ""),
                        details: change,
                        mitre: technique_text(e),
                    },
                )
            },
            _ => None,
        }
    }
}

/// Lists the registry changes that a process made.
pub fn registry_listing(
    store: &EventStore,
    guid: &ProcessGuid,
    filter: &str,
    range: &TimeRange,
    sort: &SortState,
) -> (listing: Listing<RegistryRow>)
    requires
        store.wf(),
    ensures
        lists_events(
            listing,
            store.events@,
            positions(store.events@, Group::ProcessAndTypes(*guid, seq![12u16, 13u16, 14u16])),
            *guid,
            filter@,
            *range,
            *sort,
        ),
{
    let ids: [u16; 3] = [12, 13, 14];
    assert(ids@ =~= seq![12u16, 13u16, 14u16]);
    let at = store.events_for_process_and_types(guid, ids.as_slice());
    let total: usize = store.events.len();
    proof {
        law_positions_are_exact(store.events@, Group::ProcessAndTypes(*guid, seq![12u16, 13u16, 14u16]));
    }
    list_events(store, &at, guid, filter, range, sort)
}

} // verus!
