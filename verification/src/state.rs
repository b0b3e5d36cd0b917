//! The state of an open log: what was loaded, what is selected and what is
//! filtered.

use crate::event_store::EventStore;
use crate::fxmap::{fx_get, fx_insert, fx_new, fx_remove, FxHashMap};
use crate::guid::{guid_eq, opt_guid_eq, ProcessGuid};
use crate::interner::{new_rodeo, SharedRodeo};
use crate::panels::timeline::{generate_timeline, is_timeline};
use crate::panels::{SortState, TabState, TimeRange};
use crate::parser::all_held;
use crate::process_tree::ProcessTree;
use crate::sets::GuidSet;
use crate::sigma::matcher::SigmaMatch;
use crate::sigma::rule::SigmaRule;
use crate::types::Timestamp;
use vstd::prelude::*;

verus! {

// ---------------------------------------------------------------------------
// Filters of the process tree
// ---------------------------------------------------------------------------

/// Event category filter for the process tree.
/// When any field is true, only processes with matching events are shown.
#[derive(Debug, Clone, Copy, PartialEq, Eq, Structural)]
pub struct TreeEventFilter {
    pub network: bool,
    pub files: bool,
    pub registry: bool,
    pub pipes: bool,
    pub injection: bool,
    pub drivers: bool,
}

impl TreeEventFilter {
    /// Whether any category is chosen.
    pub open spec fn active(self) -> bool {
        self.network || self.files || self.registry || self.pipes || self.injection || self.drivers
    }

    /// Whether any category is chosen.
    pub fn any_active(&self) -> (r: bool)
        ensures
            r == self.active(),
    {
        self.network || self.files || self.registry || self.pipes || self.injection || self.drivers
    }
}

impl Default for TreeEventFilter {
    /// No category is chosen.
    fn default() -> (f: Self)
        ensures
            f == (TreeEventFilter {
                network: false,
                files: false,
                registry: false,
                pipes: false,
                injection: false,
                drivers: false,
            }),
    {
        TreeEventFilter {
            network: false,
            files: false,
            registry: false,
            pipes: false,
            injection: false,
            drivers: false,
        }
    }
}

/// Forensic filter for the process tree: a process has to satisfy every category
/// that is active.
pub struct SpecialFilter {
    pub integrity_system: bool,
    pub integrity_high: bool,
    pub integrity_medium: bool,
    pub integrity_low: bool,
    /// The users that are checked.
    pub users_checked: Vec<String>,
    /// Only processes with network events.
    pub network: bool,
    /// Only processes that touch persistence locations.
    pub persistence: bool,
}

impl SpecialFilter {
    /// Whether an integrity level is chosen.
    pub open spec fn by_integrity(self) -> bool {
        self.integrity_system || self.integrity_high || self.integrity_medium || self.integrity_low
    }

    /// Whether anything is chosen.
    pub open spec fn active(self) -> bool {
        self.by_integrity() || self.users_checked@.len() > 0 || self.network || self.persistence
    }

    /// Whether nothing is chosen.
    pub open spec fn cleared(self) -> bool {
        !self.active()
    }

    /// Whether an integrity level is chosen.
    pub fn any_integrity_active(&self) -> (r: bool)
        ensures
            r == self.by_integrity(),
    {
        self.integrity_system || self.integrity_high || self.integrity_medium || self.integrity_low
    }

    /// Whether anything is chosen.
    pub fn any_active(&self) -> (r: bool)
        ensures
            r == self.active(),
    {
        self.any_integrity_active() || self.users_checked.len() > 0 || self.network
            || self.persistence
    }

    /// The number of categories that are active: integrity, user, network and
    /// persistence.
    pub fn active_category_count(&self) -> (n: usize)
        ensures
            n == (if self.by_integrity() {
                1int
            } else {
                0
            }) + (if self.users_checked@.len() > 0 {
                1int
            } else {
                0
            }) + (if self.network {
                1int
            } else {
                0
            }) + (if self.persistence {
                1int
            } else {
                0
            }),
    {
        let mut n: usize = 0;
        if self.any_integrity_active() {
            n += 1;
        }
        if self.users_checked.len() > 0 {
            n += 1;
        }
        if self.network {
            n += 1;
        }
        if self.persistence {
            n += 1;
        }
        n
    }
}

impl Default for SpecialFilter {
    /// Nothing is chosen.
    fn default() -> (f: Self)
        ensures
            f.cleared(),
    {
        SpecialFilter {
            integrity_system: false,
            integrity_high: false,
            integrity_medium: false,
            integrity_low: false,
            users_checked: Vec::new(),
            network: false,
            persistence: false,
        }
    }
}

// ---------------------------------------------------------------------------
// Tabs
// ---------------------------------------------------------------------------

/// Which telemetry tab is active.
#[derive(Debug, Clone, Copy, PartialEq, Eq, Structural)]
pub enum TelemetryTab {
    Overview,
    Network,
    FileActivity,
    Registry,
    Pipes,
    Injection,
    DriversModules,
    Detection,
    Sigma,
    Timeline,
}

impl TelemetryTab {
    /// The place of a tab in the tab bar, from 0 to 9.
    pub open spec fn place(self) -> int {
        match self {
            TelemetryTab::Overview => 0,
            TelemetryTab::Network => 1,
            TelemetryTab::FileActivity => 2,
            TelemetryTab::Registry => 3,
            TelemetryTab::Pipes => 4,
            TelemetryTab::Injection => 5,
            TelemetryTab::DriversModules => 6,
            TelemetryTab::Detection => 7,
            TelemetryTab::Sigma => 8,
            TelemetryTab::Timeline => 9,
        }
    }

    /// The tab after this one; the first after the last.
    pub fn next(self) -> (t: TelemetryTab)
        ensures
            t.place() == (self.place() + 1) % 10,
    {
        match self {
            TelemetryTab::Overview => TelemetryTab::Network,
            TelemetryTab::Network => TelemetryTab::FileActivity,
            TelemetryTab::FileActivity => TelemetryTab::Registry,
            TelemetryTab::Registry => TelemetryTab::Pipes,
            TelemetryTab::Pipes => TelemetryTab::Injection,
            TelemetryTab::Injection => TelemetryTab::DriversModules,
            TelemetryTab::DriversModules => TelemetryTab::Detection,
            TelemetryTab::Detection => TelemetryTab::Sigma,
            TelemetryTab::Sigma => TelemetryTab::Timeline,
            TelemetryTab::Timeline => TelemetryTab::Overview,
        }
    }

    /// The tab before this one; the last before the first.
    pub fn previous(self) -> (t: TelemetryTab)
        ensures
            t.place() == (self.place() + 9) % 10,
    {
        match self {
            TelemetryTab::Overview => TelemetryTab::Timeline,
            TelemetryTab::Network => TelemetryTab::Overview,
            TelemetryTab::FileActivity => TelemetryTab::Network,
            TelemetryTab::Registry => TelemetryTab::FileActivity,
            TelemetryTab::Pipes => TelemetryTab::Registry,
            TelemetryTab::Injection => TelemetryTab::Pipes,
            TelemetryTab::DriversModules => TelemetryTab::Injection,
            TelemetryTab::Detection => TelemetryTab::DriversModules,
            TelemetryTab::Sigma => TelemetryTab::Detection,
            TelemetryTab::Timeline => TelemetryTab::Sigma,
        }
    }
}

impl Default for TelemetryTab {
    /// The overview.
    fn default() -> (t: Self)
        ensures
            t == TelemetryTab::Overview,
    {
        TelemetryTab::Overview
    }
}

/// A tab is known by its place, which is one of ten, and the tab before the one
/// that follows a tab is that tab again.
pub proof fn law_tabs_form_a_ring(a: TelemetryTab, b: TelemetryTab)
    ensures
        a.place() == b.place() ==> a == b,
        0 <= a.place() < 10,
        b.place() == (a.place() + 1) % 10 ==> a.place() == (b.place() + 9) % 10,
{
}

// ---------------------------------------------------------------------------
// The state
// ---------------------------------------------------------------------------

/// Metadata computed once file loading is complete.
pub struct FileMetadata {
    pub path: String,
    pub total_records: u64,
    pub unique_processes: usize,
    /// The number of events of each type, in ascending order of the types.
    pub event_type_counts: Vec<(u16, usize)>,
    /// The times of the first and the last event.
    pub time_range: TimeRange,
    /// The hosts, in ascending order.
    pub computer_names: Vec<String>,
}

/// All state of one open log.
pub struct AppState {
    pub process_tree: ProcessTree,
    pub event_store: EventStore,
    pub selected_process: Option<ProcessGuid>,
    pub active_tab: TelemetryTab,
    pub search_filter: String,
    /// The number of bytes read so far during loading; none when idle.
    pub loading_progress: Option<u64>,
    pub parse_error_count: usize,
    pub file_metadata: Option<FileMetadata>,
    /// File size in bytes.
    pub file_size: u64,
    pub tab_network: TabState,
    pub tab_files: TabState,
    pub tab_registry: TabState,
    pub tab_pipes: TabState,
    pub tab_injection: TabState,
    pub tab_drivers: TabState,
    pub tab_detection: TabState,
    pub tab_sigma: TabState,
    /// Text filter applied to all telemetry tables.
    pub telemetry_filter: String,
    /// Event category checkboxes for narrowing the process tree.
    pub tree_event_filter: TreeEventFilter,
    /// The processes that are visible in the tree, in pre-order.
    pub flat_visible: Vec<ProcessGuid>,
    /// Whether the selected process has to be scrolled to.
    pub scroll_to_selected: bool,
    /// The interner that the events refer to.
    pub rodeo: SharedRodeo,
    /// Active time range filter for telemetry tables.
    pub time_range_filter: TimeRange,
    /// Host that is shown; all of them where there is none.
    pub selected_host: Option<String>,
    pub dark_mode: bool,
    /// Notes on processes.
    pub bookmarks: FxHashMap<ProcessGuid, String>,
    /// Recently opened files, the most recent first.
    pub recent_files: Vec<std::path::PathBuf>,
    /// The processes that are chosen for the timeline.
    pub timeline_checked: GuidSet,
    /// The positions of the events of the timeline.
    pub timeline_events: Vec<usize>,
    pub timeline_generated: bool,
    pub tab_timeline: TabState,
    /// Text filter for the rows of the timeline.
    pub timeline_event_filter: String,
    pub special_filter: SpecialFilter,
    /// The techniques that are checked.
    pub mitre_filter: Vec<String>,
    /// The techniques that events refer to, in ascending order.
    pub available_mitre: Vec<String>,
    /// The users of real processes, in ascending order.
    pub available_users: Vec<String>,
    /// The days on which there are events, counted from 1970, in ascending order.
    pub available_dates: Vec<i64>,
    pub time_filter_active: bool,
    /// Position of the first day of the time filter among the days.
    pub time_filter_from_date_idx: usize,
    /// Hour and minute at which the time filter begins.
    pub time_filter_from_hm: (u32, u32),
    /// Position of the last day of the time filter among the days.
    pub time_filter_to_date_idx: usize,
    /// Hour and minute at which the time filter ends.
    pub time_filter_to_hm: (u32, u32),
    /// The processes with network events.
    pub network_processes: GuidSet,
    /// The processes that touch persistence locations.
    pub persistence_processes: GuidSet,
    pub sigma_rules: Vec<SigmaRule>,
    pub sigma_matches: Vec<SigmaMatch>,
    /// The processes with rule matches.
    pub sigma_match_guids: GuidSet,
}

impl AppState {
    /// The store and the tree are well formed, and the interner holds every key
    /// of the events.
    pub open spec fn wf(&self) -> bool {
        &&& self.event_store.wf()
        &&& self.process_tree.wf()
        &&& all_held(self.event_store.events@, self.rodeo)
    }

    /// Whether nothing has been loaded.
    pub open spec fn blank(&self) -> bool {
        &&& self.event_store.events@.len() == 0
        &&& self.process_tree@.nodes.dom() == Set::<ProcessGuid>::empty()
        &&& self.file_metadata is None
        &&& self.loading_progress is None
        &&& self.parse_error_count == 0
        &&& self.file_size == 0
        &&& self.available_mitre@.len() == 0
        &&& self.available_users@.len() == 0
        &&& self.available_dates@.len() == 0
        &&& self.network_processes@.dom() == Set::<ProcessGuid>::empty()
        &&& self.persistence_processes@.dom() == Set::<ProcessGuid>::empty()
        &&& self.sigma_rules@.len() == 0
        &&& self.sigma_matches@.len() == 0
        &&& self.sigma_match_guids@.dom() == Set::<ProcessGuid>::empty()
    }

    /// Whether nothing is selected or filtered.
    pub open spec fn untouched(&self) -> bool {
        let first = TabState {
            sort: SortState { column: 0, ascending: true },
            selected_row: None,
        };
        &&& self.selected_process is None
        &&& self.active_tab == TelemetryTab::Overview
        &&& self.search_filter@.len() == 0
        &&& self.telemetry_filter@.len() == 0
        &&& self.timeline_event_filter@.len() == 0
        &&& self.tab_network == first
        &&& self.tab_files == first
        &&& self.tab_registry == first
        &&& self.tab_pipes == first
        &&& self.tab_injection == first
        &&& self.tab_drivers == first
        &&& self.tab_detection == first
        &&& self.tab_sigma == first
        &&& self.tab_timeline == first
        &&& self.flat_visible@.len() == 0
        &&& !self.scroll_to_selected
        &&& self.time_range_filter is None
        &&& self.selected_host is None
        &&& self.dark_mode
        &&& self.bookmarks@.dom() == Set::<ProcessGuid>::empty()
        &&& self.recent_files@.len() == 0
        &&& self.timeline_checked@.dom() == Set::<ProcessGuid>::empty()
        &&& self.timeline_events@.len() == 0
        &&& !self.timeline_generated
        &&& self.special_filter.cleared()
        &&& !self.tree_event_filter.active()
        &&& self.mitre_filter@.len() == 0
        &&& !self.time_filter_active
        &&& self.time_filter_from_date_idx == 0
        &&& self.time_filter_from_hm == (0u32, 0u32)
        &&& self.time_filter_to_date_idx == 0
        &&& self.time_filter_to_hm == (23u32, 59u32)
    }

    /// The state with a process selected: its overview is shown, and which rows of
    /// the tables were selected is forgotten; the sorting of the tables stays.
    pub open spec fn with_selection(self, guid: ProcessGuid) -> AppState {
        AppState {
            selected_process: Some(guid),
            active_tab: TelemetryTab::Overview,
            scroll_to_selected: true,
            tab_network: TabState { selected_row: None, ..self.tab_network },
            tab_files: TabState { selected_row: None, ..self.tab_files },
            tab_registry: TabState { selected_row: None, ..self.tab_registry },
            tab_pipes: TabState { selected_row: None, ..self.tab_pipes },
            tab_injection: TabState { selected_row: None, ..self.tab_injection },
            tab_drivers: TabState { selected_row: None, ..self.tab_drivers },
            tab_detection: TabState { selected_row: None, ..self.tab_detection },
            tab_sigma: TabState { selected_row: None, ..self.tab_sigma },
            tab_timeline: TabState { selected_row: None, ..self.tab_timeline },
            ..self
        }
    }

    /// Selects a process, shows its overview and forgets which rows of the tables
    /// were selected; the sorting of the tables stays.
    pub fn select_process(&mut self, guid: ProcessGuid)
        ensures
            *final(self) == old(self).with_selection(guid),
    {
        self.selected_process = Some(guid);
        self.active_tab = TelemetryTab::Overview;
        self.scroll_to_selected = true;
        self.tab_network.selected_row = None;
        self.tab_files.selected_row = None;
        self.tab_registry.selected_row = None;
        self.tab_pipes.selected_row = None;
        self.tab_injection.selected_row = None;
        self.tab_drivers.selected_row = None;
        self.tab_detection.selected_row = None;
        self.tab_sigma.selected_row = None;
        self.tab_timeline.selected_row = None;
    }

    /// Moves the selection one row down or up among the visible processes.
    /// Returns the process that became selected, where the selection changed.
    pub fn navigate(&mut self, down: bool) -> (moved: Option<ProcessGuid>)
        ensures
            moved == (match neighbour(old(self).flat_visible@, old(self).selected_process, down) {
                Some(g) => if old(self).selected_process == Some(g) {
                    None
                } else {
                    Some(g)
                },
                None => None,
            }),
            moved is None ==> *final(self) == *old(self),
            moved matches Some(g) ==> *final(self) == old(self).with_selection(g),
    {
        let target = match next_visible(&self.flat_visible, &self.selected_process, down) {
            Some(g) => g,
            None => {
                return None;
            },
        };
        if opt_guid_eq(&self.selected_process, &Some(target)) {
            return None;
        }
        self.select_process(target);
        Some(target)
    }

    /// Chooses a process for the timeline, or leaves it out.
    pub fn check_for_timeline(&mut self, guid: ProcessGuid, on: bool)
        ensures
            final(self).timeline_checked@.dom() == if on {
                old(self).timeline_checked@.dom().insert(guid)
            } else {
                old(self).timeline_checked@.dom().remove(guid)
            },
            *final(self) == (AppState {
                timeline_checked: final(self).timeline_checked,
                ..*old(self)
            }),
    {
        if on {
            fx_insert(&mut self.timeline_checked, guid, ());
        } else {
            fx_remove(&mut self.timeline_checked, &guid);
        }
        assert(self.timeline_checked@.dom() =~= if on {
            old(self).timeline_checked@.dom().insert(guid)
        } else {
            old(self).timeline_checked@.dom().remove(guid)
        });
    }

    /// Leaves all processes out of the timeline and drops it.
    pub fn clear_timeline(&mut self)
        ensures
            final(self).timeline_checked@.dom() == Set::<ProcessGuid>::empty(),
            final(self).timeline_events@.len() == 0,
            !final(self).timeline_generated,
            *final(self) == (AppState {
                timeline_checked: final(self).timeline_checked,
                timeline_events: final(self).timeline_events,
                timeline_generated: false,
                ..*old(self)
            }),
    {
        self.timeline_checked = fx_new();
        self.timeline_generated = false;
        self.timeline_events = Vec::new();
    }

    /// Makes the timeline of the chosen processes.
    pub fn make_timeline(&mut self)
        ensures
            is_timeline(
                old(self).event_store.events@,
                old(self).timeline_checked@.dom(),
                final(self).timeline_events@,
            ),
            final(self).timeline_generated,
            final(self).timeline_event_filter@.len() == 0,
            *final(self) == (AppState {
                timeline_events: final(self).timeline_events,
                timeline_generated: true,
                tab_timeline: TabState { selected_row: None, ..old(self).tab_timeline },
                timeline_event_filter: final(self).timeline_event_filter,
                ..*old(self)
            }),
    {
        self.timeline_events = generate_timeline(&self.event_store, &self.timeline_checked);
        self.timeline_generated = true;
        self.tab_timeline.selected_row = None;
        self.timeline_event_filter = String::new();
    }

    /// Whether there is a note on a process.
    pub fn is_bookmarked(&self, guid: &ProcessGuid) -> (r: bool)
        ensures
            r == self.bookmarks@.contains_key(*guid),
    {
        fx_get(&self.bookmarks, guid).is_some()
    }

    /// Puts a note on a process, in place of any other.
    pub fn set_note(&mut self, guid: ProcessGuid, note: String)
        ensures
            final(self).bookmarks@ == old(self).bookmarks@.insert(guid, note),
            *final(self) == (AppState { bookmarks: final(self).bookmarks, ..*old(self) }),
    {
        fx_insert(&mut self.bookmarks, guid, note);
    }

    /// Clears the filters of the process tree.
    pub fn clear_tree_filters(&mut self)
        ensures
            final(self).special_filter.cleared(),
            final(self).mitre_filter@.len() == 0,
            *final(self) == (AppState {
                special_filter: final(self).special_filter,
                mitre_filter: final(self).mitre_filter,
                time_filter_active: false,
                ..*old(self)
            }),
    {
        self.special_filter = SpecialFilter::default();
        self.mitre_filter = Vec::new();
        self.time_filter_active = false;
    }

    /// The number of filter categories of the process tree that are active.
    pub fn active_filter_count(&self) -> (n: usize)
        ensures
            n == self.filter_count(),
    {
        let mut n: usize = self.special_filter.active_category_count();
        if self.mitre_filter.len() > 0 {
            n += 1;
        }
        if self.time_filter_active {
            n += 1;
        }
        n
    }

    /// The number of filter categories of the process tree that are active.
    pub open spec fn filter_count(self) -> int {
        let f = self.special_filter;
        (if f.by_integrity() {
            1int
        } else {
            0
        }) + (if f.users_checked@.len() > 0 {
            1int
        } else {
            0
        }) + (if f.network {
            1int
        } else {
            0
        }) + (if f.persistence {
            1int
        } else {
            0
        }) + (if self.mitre_filter@.len() > 0 {
            1int
        } else {
            0
        }) + (if self.time_filter_active {
            1int
        } else {
            0
        })
    }
}

impl Default for AppState {
    /// A state without anything loaded, in dark mode.
    fn default() -> (s: Self)
        ensures
            s.wf(),
            s.blank(),
            s.untouched(),
    {
        AppState {
            process_tree: ProcessTree::new(),
            event_store: EventStore::new(),
            selected_process: None,
            active_tab: TelemetryTab::Overview,
            search_filter: String::new(),
            loading_progress: None,
            parse_error_count: 0,
            file_metadata: None,
            file_size: 0,
            tab_network: TabState::default(),
            tab_files: TabState::default(),
            tab_registry: TabState::default(),
            tab_pipes: TabState::default(),
            tab_injection: TabState::default(),
            tab_drivers: TabState::default(),
            tab_detection: TabState::default(),
            tab_sigma: TabState::default(),
            telemetry_filter: String::new(),
            tree_event_filter: TreeEventFilter::default(),
            flat_visible: Vec::new(),
            scroll_to_selected: false,
            rodeo: new_rodeo(),
            time_range_filter: None,
            selected_host: None,
            dark_mode: true,
            bookmarks: fx_new(),
            recent_files: Vec::new(),
            timeline_checked: fx_new(),
            timeline_events: Vec::new(),
            timeline_generated: false,
            tab_timeline: TabState::default(),
            timeline_event_filter: String::new(),
            special_filter: SpecialFilter::default(),
            mitre_filter: Vec::new(),
            available_mitre: Vec::new(),
            available_users: Vec::new(),
            available_dates: Vec::new(),
            time_filter_active: false,
            time_filter_from_date_idx: 0,
            time_filter_from_hm: (0, 0),
            time_filter_to_date_idx: 0,
            time_filter_to_hm: (23, 59),
            network_processes: fx_new(),
            persistence_processes: fx_new(),
            sigma_rules: Vec::new(),
            sigma_matches: Vec::new(),
            sigma_match_guids: fx_new(),
        }
    }
}

// ---------------------------------------------------------------------------
// Moving the selection
// ---------------------------------------------------------------------------

/// The first place of a process in a list.
pub open spec fn place_of(flat: Seq<ProcessGuid>, g: ProcessGuid) -> Option<int>
    decreases flat.len(),
{
    if flat.len() == 0 {
        None
    } else {
        match place_of(flat.drop_last(), g) {
            Some(i) => Some(i),
            None => if flat.last() == g {
                Some(flat.len() - 1)
            } else {
                None
            },
        }
    }
}

/// The visible process one row down or up from the selected one, the ends of the
/// list holding; the first one where the selected one is not visible.
pub open spec fn neighbour(
    flat: Seq<ProcessGuid>,
    selected: Option<ProcessGuid>,
    down: bool,
) -> Option<ProcessGuid> {
    let current = match selected {
        Some(g) => place_of(flat, g),
        None => None,
    };
    if flat.len() == 0 {
        None
    } else {
        match current {
            None => Some(flat[0]),
            Some(i) => if down {
                Some(
                    flat[if i + 1 < flat.len() {
                        i + 1
                    } else {
                        flat.len() - 1
                    }],
                )
            } else {
                Some(
                    flat[if i > 0 {
                        i - 1
                    } else {
                        0
                    }],
                )
            },
        }
    }
}

/// The first place of a process in a list.
fn find_place(flat: &Vec<ProcessGuid>, g: &ProcessGuid) -> (r: Option<usize>)
    ensures
        match r {
            Some(i) => place_of(flat@, *g) == Some(i as int) && i < flat@.len(),
            None => place_of(flat@, *g) is None,
        },
{
    let mut found: Option<usize> = None;
    let mut i: usize = 0;
    assert(flat@.take(0) =~= Seq::empty());
    while i < flat.len()
        invariant
            i <= flat.len(),
            match found {
                Some(k) => place_of(flat@.take(i as int), *g) == Some(k as int) && k < i,
                None => place_of(flat@.take(i as int), *g) is None,
            },
        decreases flat.len() - i,
    {
        assert(flat@.take(i + 1).drop_last() =~= flat@.take(i as int));
        assert(flat@.take(i + 1).last() == flat@[i as int]);
        if found.is_none() && guid_eq(&flat[i], g) {
            found = Some(i);
        }
        i += 1;
    }
    assert(flat@.take(flat@.len() as int) =~= flat@);
    found
}

/// The visible process one row down or up from the selected one.
fn next_visible(flat: &Vec<ProcessGuid>, selected: &Option<ProcessGuid>, down: bool) -> (r: Option<
    ProcessGuid,
>)
    ensures
        r == neighbour(flat@, *selected, down),
{
    let n: usize = flat.len();
    if n == 0 {
        return None;
    }
    let current = match selected {
        Some(g) => find_place(flat, g),
        None => None,
    };
    match current {
        None => Some(flat[0]),
        Some(i) => if down {
            if i + 1 < n {
                Some(flat[i + 1])
            } else {
                Some(flat[n - 1])
            }
        } else {
            if i > 0 {
                Some(flat[i - 1])
            } else {
                Some(flat[0])
            }
        },
    }
}

// ---------------------------------------------------------------------------
// The time filter
// ---------------------------------------------------------------------------

/// The day of an instant, counted from 1970.
pub open spec fn day_of(t: Timestamp) -> int {
    t.secs as int / 86_400
}

/// The day of an instant, counted from 1970.
pub fn day_number(t: &Timestamp) -> (d: i64)
    ensures
        d == day_of(*t),
{
    if t.secs >= 0 {
        t.secs / 86_400
    } else {
        let back: i64 = -(t.secs + 1);
        let d: i64 = -(back / 86_400) - 1;
        assert(d == t.secs as int / 86_400) by (nonlinear_arith)
            requires
                back == -(t.secs + 1),
                back >= 0,
                d == -(back / 86_400) - 1,
        ;
        d
    }
}

/// A whole second as an instant. Seconds outside the range of instants become
/// its ends.
pub open spec fn second(s: int) -> Timestamp {
    Timestamp {
        secs: if s < i64::MIN {
            i64::MIN
        } else if s > i64::MAX {
            i64::MAX
        } else {
            s as i64
        },
        nanos: 0,
    }
}

/// The seconds from midnight to a time of day, where that is one.
pub open spec fn clock_second(hm: (u32, u32), s: int) -> Option<int> {
    if hm.0 < 24 && hm.1 < 60 {
        Some(hm.0 * 3600 + hm.1 * 60 + s)
    } else {
        None
    }
}

/// The span of time that a time filter names: from the first second of its first
/// minute to the last second of its last minute. Where a time of day is none, the
/// day begins or ends the span.
pub open spec fn span_of(
    dates: Seq<i64>,
    from: (int, (u32, u32)),
    to: (int, (u32, u32)),
) -> TimeRange {
    if dates.len() == 0 {
        None
    } else {
        let last = dates.len() - 1;
        let fi = if from.0 < last {
            from.0
        } else {
            last
        };
        let ti = if to.0 < last {
            to.0
        } else {
            last
        };
        let begin = match clock_second(from.1, 0) {
            Some(s) => s,
            None => 0,
        };
        let end = match clock_second(to.1, 59) {
            Some(s) => s,
            None => 86_399,
        };
        Some((second(dates[fi] * 86_400 + begin), second(dates[ti] * 86_400 + end)))
    }
}

/// A whole second as an instant.
fn second_at(day: i64, s: u32) -> (t: Timestamp)
    ensures
        t == second(day * 86_400 + s),
{
    let total: i128 = day as i128 * 86_400 + s as i128;
    if total < i64::MIN as i128 {
        Timestamp { secs: i64::MIN, nanos: 0 }
    } else if total > i64::MAX as i128 {
        Timestamp { secs: i64::MAX, nanos: 0 }
    } else {
        Timestamp { secs: total as i64, nanos: 0 }
    }
}

impl AppState {
    /// Brings the span of time of the tables up to date with the time filter.
    pub fn sync_time_range(&mut self)
        ensures
            *final(self) == (AppState {
                time_range_filter: if old(self).time_filter_active {
                    span_of(
                        old(self).available_dates@,
                        (
                            old(self).time_filter_from_date_idx as int,
                            old(self).time_filter_from_hm,
                        ),
                        (old(self).time_filter_to_date_idx as int, old(self).time_filter_to_hm),
                    )
                } else {
                    None
                },
                ..*old(self)
            }),
    {
        let n: usize = self.available_dates.len();
        if !self.time_filter_active || n == 0 {
            self.time_range_filter = None;
            return;
        }
        let fi: usize = if self.time_filter_from_date_idx < n - 1 {
            self.time_filter_from_date_idx
        } else {
            n - 1
        };
        let ti: usize = if self.time_filter_to_date_idx < n - 1 {
            self.time_filter_to_date_idx
        } else {
            n - 1
        };
        let (fh, fm) = self.time_filter_from_hm;
        let (th, tm) = self.time_filter_to_hm;
        let begin: u32 = if fh < 24 && fm < 60 {
            fh * 3600 + fm * 60
        } else {
            0
        };
        let end: u32 = if th < 24 && tm < 60 {
            th * 3600 + tm * 60 + 59
        } else {
            86_399
        };
        self.time_range_filter = Some(
            (second_at(self.available_dates[fi], begin), second_at(self.available_dates[ti], end)),
        );
    }

    /// Whether the days of the time filter are among the days with events, and it
    /// does not end before it begins.
    pub open spec fn time_filter_fits(&self) -> bool {
        &&& self.time_filter_from_date_idx < self.available_dates@.len()
        &&& self.time_filter_to_date_idx < self.available_dates@.len()
        &&& minutes(self.time_filter_from_date_idx, self.time_filter_from_hm) <= minutes(
            self.time_filter_to_date_idx,
            self.time_filter_to_hm,
        )
    }

    /// Makes the time filter fit after it was edited: days that are gone become
    /// the last one, and an end before the beginning becomes the beginning.
    pub fn settle_time_filter(&mut self)
        requires
            old(self).available_dates@.len() > 0,
        ensures
            *final(self) == (AppState {
                time_filter_from_date_idx: clamped(
                    old(self).time_filter_from_date_idx,
                    old(self).available_dates@.len() as int,
                ),
                time_filter_to_date_idx: settled_end(
                    old(self).available_dates@.len() as int,
                    (old(self).time_filter_from_date_idx, old(self).time_filter_from_hm),
                    (old(self).time_filter_to_date_idx, old(self).time_filter_to_hm),
                ).0,
                time_filter_to_hm: settled_end(
                    old(self).available_dates@.len() as int,
                    (old(self).time_filter_from_date_idx, old(self).time_filter_from_hm),
                    (old(self).time_filter_to_date_idx, old(self).time_filter_to_hm),
                ).1,
                ..*old(self)
            }),
            final(self).time_filter_fits(),
    {
        let n: usize = self.available_dates.len();
        let from = (self.time_filter_from_date_idx, self.time_filter_from_hm);
        let to = (self.time_filter_to_date_idx, self.time_filter_to_hm);
        let (to_idx, to_hm) = settle_end(n, from, to);
        self.time_filter_to_date_idx = to_idx;
        self.time_filter_to_hm = to_hm;
        if self.time_filter_from_date_idx >= n {
            self.time_filter_from_date_idx = n - 1;
        }
    }

    /// Sets the time filter to all days with events, from the first minute to the
    /// last.
    pub fn reset_time_filter(&mut self)
        ensures
            *final(self) == (AppState {
                time_filter_from_date_idx: 0,
                time_filter_from_hm: (0, 0),
                time_filter_to_date_idx: clamped(
                    usize::MAX,
                    old(self).available_dates@.len() as int,
                ),
                time_filter_to_hm: (23, 59),
                ..*old(self)
            }),
    {
        let n: usize = self.available_dates.len();
        self.time_filter_from_date_idx = 0;
        self.time_filter_from_hm = (0, 0);
        self.time_filter_to_date_idx = if n > 0 {
            n - 1
        } else {
            0
        };
        self.time_filter_to_hm = (23, 59);
    }
}

/// The minutes from the midnight before the first day to a minute of the time
/// filter.
pub open spec fn minutes(date_idx: usize, hm: (u32, u32)) -> int {
    date_idx * 1440 + hm.0 * 60 + hm.1
}

/// The end of a time filter over `n` days: its day where there is one, else the
/// last one; where that is before the beginning, the beginning.
pub open spec fn settled_end(n: int, from: (usize, (u32, u32)), to: (usize, (u32, u32))) -> (
    usize,
    (u32, u32),
) {
    let f = clamped(from.0, n);
    let t = clamped(to.0, n);
    if minutes(f, from.1) > minutes(t, to.1) {
        (f, from.1)
    } else {
        (t, to.1)
    }
}

/// The end of a time filter over `n` days.
fn settle_end(n: usize, from: (usize, (u32, u32)), to: (usize, (u32, u32))) -> (end: (
    usize,
    (u32, u32),
))
    requires
        n > 0,
    ensures
        end == settled_end(n as int, from, to),
        end.0 < n,
        minutes(clamped(from.0, n as int), from.1) <= minutes(end.0, end.1),
{
    let f: usize = if from.0 < n {
        from.0
    } else {
        n - 1
    };
    let t: usize = if to.0 < n {
        to.0
    } else {
        n - 1
    };
    let begin: u128 = f as u128 * 1440 + from.1.0 as u128 * 60 + from.1.1 as u128;
    let end: u128 = t as u128 * 1440 + to.1.0 as u128 * 60 + to.1.1 as u128;
    if begin > end {
        (f, from.1)
    } else {
        (t, to.1)
    }
}

/// A position, or the last one of a list of `n` where it lies past its end.
pub open spec fn clamped(i: usize, n: int) -> usize {
    if n <= 0 {
        0
    } else if i < n {
        i
    } else {
        (n - 1) as usize
    }
}

} // verus!
