//! Files that a process created, deleted or gave streams to.

use crate::event::{EventDetail, SysmonEvent};
use crate::event_store::{law_positions_are_exact, positions, EventStore, Group};
use crate::guid::ProcessGuid;
use crate::panels::{
    fmt_time, list_events, lists_events, tab_line, tabbed, technique, technique_text, time_text,
    EventRow, Listing, SortKey, SortState, TableRow, TimeRange,
};
use crate::text::{owned_or, part_texts, text_or};
use crate::types::Timestamp;
use vstd::prelude::*;

verus! {

/// A row of the file panel. `S` is how texts are held.
pub struct FileRow<S = String> {
    pub time: Timestamp,
    /// Create, ADS Stream, Delete, Block or Exec.
    pub action: S,
    pub target_filename: S,
    pub hashes: S,
    pub mitre: S,
}

impl FileRow {
    /// The row as text.
    pub open spec fn view(&self) -> FileRow<Seq<char>> {
        FileRow {
            time: self.time,
            action: self.action@,
            target_filename: self.target_filename@,
            hashes: self.hashes@,
            mitre: self.mitre@,
        }
    }
}

impl FileRow<Seq<char>> {
    /// The whole row as one line.
    pub open spec fn line(self) -> Seq<char> {
        tabbed(
            seq![
                time_text(self.time),
                self.action,
                self.target_filename,
                self.hashes,
                self.mitre,
            ],
        )
    }

    /// What the row is sorted by in a column.
    pub open spec fn key(self, column: usize) -> SortKey<Seq<char>> {
        if column == 0 {
            SortKey::Time(self.time)
        } else if column == 1 {
            SortKey::Text(self.action)
        } else if column == 2 {
            SortKey::Text(self.target_filename)
        } else if column == 3 {
            SortKey::Text(self.hashes)
        } else if column == 4 {
            SortKey::Text(self.mitre)
        } else {
            SortKey::Unsorted
        }
    }
}

impl TableRow for FileRow {
    open spec fn at(self) -> Timestamp {
        self.time
    }

    open spec fn line(self) -> Seq<char> {
        self@.line()
    }

    open spec fn key(self, column: usize) -> SortKey<Seq<char>> {
        self@.key(column)
    }

    fn row_time(&self) -> (t: Timestamp) {
        self.time
    }

    fn copy_text(&self) -> (s: String) {
        let time = fmt_time(self.time);
        let columns: Vec<&str> = vec![
            time.as_str(),
            self.action.as_str(),
            self.target_filename.as_str(),
            self.hashes.as_str(),
            self.mitre.as_str(),
        ];
        assert(part_texts(columns@) =~= seq![
            time_text(self.time),
            self.action@,
            self.target_filename@,
            self.hashes@,
            self.mitre@,
        ]);
        tab_line(&columns)
    }

    fn sort_key(&self, column: usize) -> (k: SortKey) {
        match column {
            0 => SortKey::Time(self.time),
            1 => SortKey::Text(self.action.clone()),
            2 => SortKey::Text(self.target_filename.clone()),
            3 => SortKey::Text(self.hashes.clone()),
            4 => SortKey::Text(self.mitre.clone()),
            _ => SortKey::Unsorted,
        }
    }
}

/// The word for an event about a file that was to go or to run: deleted, blocked,
/// or seen to be executable.
pub open spec fn removal_action(event_id: u16) -> Seq<char> {
    if event_id == 27 || event_id == 28 {
        "Block"@
    } else if event_id == 29 {
        "Exec"@
    } else {
        "Delete"@
    }
}

impl EventRow for FileRow {
    type Text = FileRow<Seq<char>>;

    open spec fn text(self) -> FileRow<Seq<char>> {
        self@
    }

    /// A file that was created, given a stream, deleted, blocked, or seen to be
    /// executable.
    open spec fn row_of(e: SysmonEvent, guid: ProcessGuid) -> Option<FileRow<Seq<char>>> {
        match e.detail@ {
            EventDetail::FileCreate { target_filename, .. } => Some(
                FileRow {
                    time: e.time_created,
                    action: "Create"@,
                    target_filename: text_or(target_filename, ""@),
                    hashes: ""@,
                    mitre: technique(e),
                },
            ),
            EventDetail::FileCreateStreamHash { target_filename, hash, .. } => Some(
                FileRow {
                    time: e.time_created,
                    action: "ADS Stream"@,
                    target_filename: text_or(target_filename, ""@),
                    hashes: text_or(hash, ""@),
                    mitre: technique(e),
                },
            ),
            EventDetail::FileDeleteEvent { target_filename, hashes, .. } => Some(
                FileRow {
                    time: e.time_created,
                    action: removal_action(e.event_id),
                    target_filename: text_or(target_filename, ""@),
                    hashes: text_or(hashes, ""@),
                    mitre: technique(e),
                },
            ),
            _ => None,
        }
    }

    fn from_event(e: &SysmonEvent, guid: &ProcessGuid) -> (row: Option<Self>) {
        match &e.detail {
            EventDetail::FileCreate { target_filename, .. } => Some(
                FileRow {
                    time: e.time_created,
                    action: "Create".to_owned(),
                    target_filename: owned_or(target_filename, ""),
                    hashes: "".to_owned(),
                    mitre: technique_text(e),
                },
            ),
            EventDetail::FileCreateStreamHash { target_filename, hash, .. } => Some(
                FileRow {
                    time: e.time_created,
                    action: "ADS Stream".to_owned(),
                    target_filename: owned_or(target_filename, ""),
                    hashes: owned_or(hash, ""),
                    mitre: technique_text(e),
                },
            ),
            EventDetail::FileDeleteEvent { target_filename, hashes, .. } => {
                let word = match e.event_id {
                    27 | 28 => "Block",
                    29 => "Exec",
                    _ => "Delete",
                };
                Some(
                    FileRow {
                        time: e.time_created,
                        action: word.to_owned(),
                        target_filename: owned_or(target_filename, ""),
                        hashes: owned_or(hashes, ""),
                        mitre: technique_text(e),
                    },
                )
            },
            _ => None,
        }
    }
}

/// Lists the file events of a process.
pub fn files_listing(
    store: &EventStore,
    guid: &ProcessGuid,
    filter: &str,
    range: &TimeRange,
    sort: &SortState,
) -> (listing: Listing<FileRow>)
    requires
        store.wf(),
    ensures
        lists_events(
            listing,
            store.events@,
            positions(
                store.events@,
                Group::ProcessAndTypes(
                    *guid,
                    seq![11u16, 15u16, 23u16, 26u16, 27u16, 28u16, 29u16],
                ),
            ),
            *guid,
            filter@,
            *range,
            *sort,
        ),
{
    let ids: [u16; 7] = [11, 15, 23, 26, 27, 28, 29];
    let ghost want = seq![11u16, 15u16, 23u16, 26u16, 27u16, 28u16, 29u16];
    assert(ids@ =~= want);
    let at = store.events_for_process_and_types(guid, ids.as_slice());
    let total: usize = store.events.len();
    proof {
        law_positions_are_exact(store.events@, Group::ProcessAndTypes(*guid, want));
    }
    list_events(store, &at, guid, filter, range, sort)
}

} // verus!
