//! Drivers and modules that a process loaded.

use crate::event::{EventDetail, SysmonEvent};
use crate::event_store::{law_positions_are_exact, positions, EventStore, Group};
use crate::guid::ProcessGuid;
use crate::panels::{
    fmt_time, list_events, lists_events, tab_line, tabbed, technique, technique_text, time_text,
    EventRow, Listing, SortKey, SortState, TableRow, TimeRange,
};
use crate::text::{owned_or, part_texts, text_or};
use crate::types::Timestamp;
use vstd::prelude::*;

verus! {

/// A row of the module panel. `S` is how texts are held.
pub struct DriverRow<S = String> {
    pub time: Timestamp,
    /// Driver or Image.
    pub kind: S,
    pub image_loaded: S,
    pub signature: S,
    pub signature_status: S,
    pub mitre: S,
}

impl DriverRow {
    /// The row as text.
    pub open spec fn view(&self) -> DriverRow<Seq<char>> {
        DriverRow {
            time: self.time,
            kind: self.kind@,
            image_loaded: self.image_loaded@,
            signature: self.signature@,
            signature_status: self.signature_status@,
            mitre: self.mitre@,
        }
    }
}

impl DriverRow<Seq<char>> {
    /// The whole row as one line.
    pub open spec fn line(self) -> Seq<char> {
        tabbed(
            seq![
                time_text(self.time),
                self.kind,
                self.image_loaded,
                self.signature,
                self.signature_status,
                self.mitre,
            ],
        )
    }

    /// What the row is sorted by in a column.
    pub open spec fn key(self, column: usize) -> SortKey<Seq<char>> {
        if column == 0 {
            SortKey::Time(self.time)
        } else if column == 1 {
            SortKey::Text(self.kind)
        } else if column == 2 {
            SortKey::Text(self.image_loaded)
        } else if column == 3 {
            SortKey::Text(self.signature)
        } else if column == 4 {
            SortKey::Text(self.signature_status)
        } else if column == 5 {
            SortKey::Text(self.mitre)
        } else {
            SortKey::Unsorted
        }
    }
}

impl TableRow for DriverRow {
    open spec fn at(self) -> Timestamp {
        self.time
    }

    open spec fn line(self) -> Seq<char> {
        self@.line()
    }

    open spec fn key(self, column: usize) -> SortKey<Seq<char>> {
        self@.key(column)
    }

    fn row_time(&self) -> (t: Timestamp) {
        self.time
    }

    fn copy_text(&self) -> (s: String) {
        let time = fmt_time(self.time);
        let columns: Vec<&str> = vec![
            time.as_str(),
            self.kind.as_str(),
            self.image_loaded.as_str(),
            self.signature.as_str(),
            self.signature_status.as_str(),
            self.mitre.as_str(),
        ];
        assert(part_texts(columns@) =~= seq![
            time_text(self.time),
            self.kind@,
            self.image_loaded@,
            self.signature@,
            self.signature_status@,
            self.mitre@,
        ]);
        tab_line(&columns)
    }

    fn sort_key(&self, column: usize) -> (k: SortKey) {
        match column {
            0 => SortKey::Time(self.time),
            1 => SortKey::Text(self.kind.clone()),
            2 => SortKey::Text(self.image_loaded.clone()),
            3 => SortKey::Text(self.signature.clone()),
            4 => SortKey::Text(self.signature_status.clone()),
            5 => SortKey::Text(self.mitre.clone()),
            _ => SortKey::Unsorted,
        }
    }
}

impl EventRow for DriverRow {
    type Text = DriverRow<Seq<char>>;

    open spec fn text(self) -> DriverRow<Seq<char>> {
        self@
    }

    /// A driver or a module that was loaded.
    open spec fn row_of(e: SysmonEvent, guid: ProcessGuid) -> Option<DriverRow<Seq<char>>> {
        match e.detail@ {
            EventDetail::DriverLoad { image_loaded, signature, signature_status, .. } => Some(
                DriverRow {
                    time: e.time_created,
                    kind: "Driver"@,
                    image_loaded: text_or(image_loaded, ""@),
                    signature: text_or(signature, ""@),
                    signature_status: text_or(signature_status, ""@),
                    mitre: technique(e),
                },
            ),
            EventDetail::ImageLoad { image_loaded, signature, signature_status, .. } => Some(
                DriverRow {
                    time: e.time_created,
                    kind: "Image"@,
                    image_loaded: text_or(image_loaded, ""@),
                    signature: text_or(signature, ""@),
                    signature_status: text_or(signature_status, ""@),
                    mitre: technique(e),
                },
            ),
            _ => None,
        }
    }

    fn from_event(e: &SysmonEvent, guid: &ProcessGuid) -> (row: Option<Self>) {
        match &e.detail {
            EventDetail::DriverLoad { image_loaded, signature, signature_status, .. } => Some(
                DriverRow {
                    time: e.time_created,
                    kind: "Driver".to_owned(),
                    image_loaded: owned_or(image_loaded, ""),
                    signature: owned_or(signature, ""),
                    signature_status: owned_or(signature_status, ""),
                    mitre: technique_text(e),
                },
            ),
            EventDetail::ImageLoad { image_loaded, signature, signature_status, .. } => Some(
                DriverRow {
                    time: e.time_created,
                    kind: "Image".to_owned(),
                    image_loaded: owned_or(image_loaded, ""),
                    signature: owned_or(signature, ""),
                    signature_status: owned_or(signature_status, ""),
                    mitre: technique_text(e),
                },
            ),
            _ => None,
        }
    }
}

/// Lists the drivers and modules that a process loaded.
pub fn drivers_listing(
    store: &EventStore,
    guid: &ProcessGuid,
    filter: &str,
    range: &TimeRange,
    sort: &SortState,
) -> (listing: Listing<DriverRow>)
    requires
        store.wf(),
    ensures
        lists_events(
            listing,
            store.events@,
            positions(store.events@, Group::ProcessAndTypes(*guid, seq![6u16, 7u16])),
            *guid,
            filter@,
            *range,
            *sort,
        ),
{
    let ids: [u16; 2] = [6, 7];
    assert(ids@ =~= seq![6u16, 7u16]);
    let at = store.events_for_process_and_types(guid, ids.as_slice());
    let total: usize = store.events.len();
    proof {
        law_positions_are_exact(store.events@, Group::ProcessAndTypes(*guid, seq![6u16, 7u16]));
    }
    list_events(store, &at, guid, filter, range, sort)
}

} // verus!
