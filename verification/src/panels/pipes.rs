//! Named pipes of a process.

use crate::event::{EventDetail, SysmonEvent};
use crate::event_store::{law_positions_are_exact, positions, EventStore, Group};
use crate::guid::ProcessGuid;
use crate::panels::{
    fmt_time, list_events, lists_events, tab_line, tabbed, technique, technique_text, time_text,
    EventRow, Listing, SortKey, SortState, TableRow, TimeRange,
};
use crate::text::{owned_or, part_texts, same_text, text_or};
use crate::types::Timestamp;
use vstd::prelude::*;

verus! {

/// A row of the pipe panel. `S` is how texts are held.
pub struct PipeRow<S = String> {
    pub time: Timestamp,
    pub action: S,
    pub pipe_name: S,
    pub mitre: S,
}

impl PipeRow {
    /// The row as text.
    pub open spec fn view(&self) -> PipeRow<Seq<char>> {
        PipeRow {
            time: self.time,
            action: self.action@,
            pipe_name: self.pipe_name@,
            mitre: self.mitre@,
        }
    }
}

impl PipeRow<Seq<char>> {
    /// The whole row as one line.
    pub open spec fn line(self) -> Seq<char> {
        tabbed(
            seq![
                time_text(self.time),
                self.action,
                self.pipe_name,
                self.mitre,
            ],
        )
    }

    /// What the row is sorted by in a column.
    pub open spec fn key(self, column: usize) -> SortKey<Seq<char>> {
        if column == 0 {
            SortKey::Time(self.time)
        } else if column == 1 {
            SortKey::Text(self.action)
        } else if column == 2 {
            SortKey::Text(self.pipe_name)
        } else if column == 3 {
            SortKey::Text(self.mitre)
        } else {
            SortKey::Unsorted
        }
    }
}

impl TableRow for PipeRow {
    open spec fn at(self) -> Timestamp {
        self.time
    }

    open spec fn line(self) -> Seq<char> {
        self@.line()
    }

    open spec fn key(self, column: usize) -> SortKey<Seq<char>> {
        self@.key(column)
    }

    fn row_time(&self) -> (t: Timestamp) {
        self.time
    }

    fn copy_text(&self) -> (s: String) {
        let time = fmt_time(self.time);
        let columns: Vec<&str> = vec![
            time.as_str(),
            self.action.as_str(),
            self.pipe_name.as_str(),
            self.mitre.as_str(),
        ];
        assert(part_texts(columns@) =~= seq![
            time_text(self.time),
            self.action@,
            self.pipe_name@,
            self.mitre@,
        ]);
        tab_line(&columns)
    }

    fn sort_key(&self, column: usize) -> (k: SortKey) {
        match column {
            0 => SortKey::Time(self.time),
            1 => SortKey::Text(self.action.clone()),
            2 => SortKey::Text(self.pipe_name.clone()),
            3 => SortKey::Text(self.mitre.clone()),
            _ => SortKey::Unsorted,
        }
    }
}

/// The word for what was done with a pipe.
pub open spec fn pipe_action(event_type: Seq<char>) -> Seq<char> {
    if event_type == "CreatePipe"@ {
        "Create"@
    } else if event_type == "ConnectPipe"@ {
        "Connect"@
    } else {
        event_type
    }
}

impl EventRow for PipeRow {
    type Text = PipeRow<Seq<char>>;

    open spec fn text(self) -> PipeRow<Seq<char>> {
        self@
    }

    /// A pipe that was created or connected to.
    open spec fn row_of(e: SysmonEvent, guid: ProcessGuid) -> Option<PipeRow<Seq<char>>> {
        match e.detail@ {
            EventDetail::PipeEvent { event_type, pipe_name } => Some(
                PipeRow {
                    time: e.time_created,
                    action: pipe_action(event_type),
                    pipe_name: text_or(pipe_name, ""@),
                    mitre: technique(e),
                },
            ),
            _ => None,
        }
    }

    fn from_event(e: &SysmonEvent, guid: &ProcessGuid) -> (row: Option<Self>) {
        match &e.detail {
            EventDetail::PipeEvent { event_type, pipe_name } => {
                let action = if same_text(event_type.as_str(), "CreatePipe") {
                    "Create".to_owned()
                } else if same_text(event_type.as_str(), "ConnectPipe") {
                    "Connect".to_owned()
                } else {
                    event_type.clone()
                };
                Some(
                    PipeRow {
                        time: e.time_created,
                        action,
                        pipe_name: owned_or(pipe_name, ""),
                        mitre: technique_text(e),
                    },
                )
            },
            _ => None,
        }
    }
}

/// Lists the named pipes that a process created or connected to.
pub fn pipes_listing(
    store: &EventStore,
    guid: &ProcessGuid,
    filter: &str,
    range: &TimeRange,
    sort: &SortState,
) -> (listing: Listing<PipeRow>)
    requires
        store.wf(),
    ensures
        lists_events(
            listing,
            store.events@,
            positions(store.events@, Group::ProcessAndTypes(*guid, seq![17u16, 18u16])),
            *guid,
            filter@,
            *range,
            *sort,
        ),
{
    let ids: [u16; 2] = [17, 18];
    assert(ids@ =~= seq![17u16, 18u16]);
    let at = store.events_for_process_and_types(guid, ids.as_slice());
    let total: usize = store.events.len();
    proof {
        law_positions_are_exact(store.events@, Group::ProcessAndTypes(*guid, seq![17u16, 18u16]));
    }
    list_events(store, &at, guid, filter, range, sort)
}

} // verus!
