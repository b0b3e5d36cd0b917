//! The tables of the telemetry panels: their rows, and which of them are shown
//! in which order.

use crate::clock::{clock_text, plain_year, show_instant, shown_instant};
use crate::event::SysmonEvent;
use crate::event_store::EventStore;
use crate::guid::ProcessGuid;
use crate::order::{goes_before, sorted_order, Ranked};
use crate::text::{
    contains, join, joined, less, lowercase, occurs_in, part_texts, text_less, texts, to_lowercase,
};
use crate::types::Timestamp;
use std::cmp::Ordering;
use vstd::prelude::*;

pub mod detection;
pub mod drivers;
pub mod files;
pub mod injection;
pub mod network;
pub mod pipes;
pub mod registry;
pub mod sigma;
pub mod timeline;

verus! {

// ---------------------------------------------------------------------------
// Sort state
// ---------------------------------------------------------------------------

/// Column sort state for a telemetry table.
#[derive(Debug, Clone, Copy, PartialEq, Eq, Structural)]
pub struct SortState {
    pub column: usize,
    pub ascending: bool,
}

impl Default for SortState {
    /// The first column, ascending.
    fn default() -> (s: Self)
        ensures
            s == (SortState { column: 0, ascending: true }),
    {
        SortState { column: 0, ascending: true }
    }
}

impl SortState {
    /// The state after a click on the header of a column: the same column flips
    /// the direction, another one is sorted ascending.
    pub open spec fn toggled(self, col: usize) -> SortState {
        if self.column == col {
            SortState { column: col, ascending: !self.ascending }
        } else {
            SortState { column: col, ascending: true }
        }
    }

    /// The arrow behind the header of a column.
    pub open spec fn arrow(self, col: usize) -> Seq<char> {
        if self.column != col {
            ""@
        } else if self.ascending {
            " ▲"@
        } else {
            " ▼"@
        }
    }

    /// Toggle: same column flips direction; different column resets to ascending.
    pub fn toggle(&mut self, col: usize)
        ensures
            *final(self) == old(self).toggled(col),
    {
        if self.column == col {
            self.ascending = !self.ascending;
        } else {
            self.column = col;
            self.ascending = true;
        }
    }

    /// Sort indicator arrow for a given header column.
    pub fn indicator(&self, col: usize) -> (mark: &'static str)
        ensures
            mark@ == self.arrow(col),
    {
        if self.column == col {
            if self.ascending {
                " ▲"
            } else {
                " ▼"
            }
        } else {
            ""
        }
    }
}

/// Clicking a header twice more leaves the sorting as the first click made it,
/// and one click on another header always sorts that column ascending.
pub proof fn law_toggling(s: SortState, col: usize)
    ensures
        s.toggled(col).toggled(col).toggled(col) == s.toggled(col),
        s.column == col ==> s.toggled(col).toggled(col) == s,
        s.column != col ==> s.toggled(col) == (SortState { column: col, ascending: true }),
{
}

/// Per-tab UI state: current sort column/direction and selected row index.
#[derive(Debug, Clone, Copy, PartialEq, Eq, Structural)]
pub struct TabState {
    pub sort: SortState,
    pub selected_row: Option<usize>,
}

impl Default for TabState {
    /// Sorted by the first column, nothing selected.
    fn default() -> (t: Self)
        ensures
            t == (TabState {
                sort: SortState { column: 0, ascending: true },
                selected_row: None,
            }),
    {
        TabState { sort: SortState::default(), selected_row: None }
    }
}

// ---------------------------------------------------------------------------
// Shared helpers
// ---------------------------------------------------------------------------

/// The time of day of an instant, as the tables show it.
pub open spec fn time_text(ts: Timestamp) -> Seq<char> {
    shown_instant(ts, "%H:%M:%S%.3f"@)
}

/// Format a timestamp for compact table display (time only).
pub fn fmt_time(ts: Timestamp) -> (s: String)
    ensures
        s@ == time_text(ts),
        plain_year(ts.secs, ts.nanos) ==> s@ == clock_text(ts.secs, ts.nanos),
{
    show_instant(&ts, "%H:%M:%S%.3f")
}

/// The opposite order.
pub open spec fn opposite(o: Ordering) -> Ordering {
    match o {
        Ordering::Less => Ordering::Greater,
        Ordering::Equal => Ordering::Equal,
        Ordering::Greater => Ordering::Less,
    }
}

/// Flip ordering when descending sort is active.
pub fn cmp_ord(o: Ordering, asc: bool) -> (r: Ordering)
    ensures
        r == if asc {
            o
        } else {
            opposite(o)
        },
{
    if asc {
        o
    } else {
        match o {
            Ordering::Less => Ordering::Greater,
            Ordering::Equal => Ordering::Equal,
            Ordering::Greater => Ordering::Less,
        }
    }
}

/// Build formatted column header strings with sort arrows.
pub fn make_headers(names: &[&str], sort: &SortState) -> (headers: Vec<String>)
    ensures
        texts(headers@) == Seq::new(
            names@.len(),
            |i: int| names@[i]@ + sort.arrow(i as usize),
        ),
{
    let mut headers: Vec<String> = Vec::new();
    let mut i: usize = 0;
    while i < names.len()
        invariant
            i <= names.len(),
            headers@.len() == i,
            forall|j: int|
                0 <= j < i ==> (#[trigger] headers@[j])@ == names@[j]@ + sort.arrow(j as usize),
        decreases names.len() - i,
    {
        let parts: Vec<&str> = vec![names[i], sort.indicator(i)];
        let header = join(&parts, "");
        proof {
            let p = part_texts(parts@);
            reveal_strlit("");
            assert(p =~= seq![names@[i as int]@, sort.arrow(i)]);
            assert(p.drop_last() =~= seq![names@[i as int]@]);
            assert(joined(p.drop_last(), ""@) == names@[i as int]@);
            assert(header@ =~= names@[i as int]@ + sort.arrow(i));
        }
        headers.push(header);
        i += 1;
    }
    assert(texts(headers@) =~= Seq::new(names@.len(), |i: int| names@[i]@ + sort.arrow(i as usize)));
    headers
}

// ---------------------------------------------------------------------------
// Keys to sort by
// ---------------------------------------------------------------------------

/// What a row is sorted by in a column. `S` is how texts are held.
pub enum SortKey<S = String> {
    /// The column does not sort: all rows are alike.
    Unsorted,
    Time(Timestamp),
    Number(u16),
    Text(S),
}

impl SortKey {
    /// The key as text.
    pub open spec fn view(&self) -> SortKey<Seq<char>> {
        match self {
            SortKey::Unsorted => SortKey::Unsorted,
            SortKey::Time(t) => SortKey::Time(*t),
            SortKey::Number(n) => SortKey::Number(*n),
            SortKey::Text(s) => SortKey::Text(s@),
        }
    }
}

impl SortKey<Seq<char>> {
    /// Whether a key comes no later than another. Keys of one column are of one
    /// sort; those of different sorts follow one another as the sorts are listed.
    pub open spec fn no_greater(self, other: Self) -> bool {
        match (self, other) {
            (SortKey::Unsorted, _) => true,
            (_, SortKey::Unsorted) => false,
            (SortKey::Time(a), SortKey::Time(b)) => !b.earlier(a),
            (SortKey::Time(_), _) => true,
            (_, SortKey::Time(_)) => false,
            (SortKey::Number(a), SortKey::Number(b)) => a <= b,
            (SortKey::Number(_), _) => true,
            (_, SortKey::Number(_)) => false,
            (SortKey::Text(a), SortKey::Text(b)) => !text_less(b, a),
        }
    }
}

/// A key together with the direction in which it sorts.
struct DirectedKey {
    key: SortKey,
    ascending: bool,
}

/// Whether a key comes no later than another in a direction.
pub open spec fn in_direction(a: SortKey<Seq<char>>, b: SortKey<Seq<char>>, ascending: bool) -> bool {
    if ascending {
        a.no_greater(b)
    } else {
        b.no_greater(a)
    }
}

/// Of two keys one comes no later than the other.
proof fn lemma_keys_total(a: SortKey, b: SortKey)
    ensures
        a@.no_greater(b@) || b@.no_greater(a@),
{
    if let (SortKey::Text(x), SortKey::Text(y)) = (a, b) {
        String::total(x, y);
    }
}

/// What comes no later than a key comes no later than those after it.
proof fn lemma_keys_transitive(a: SortKey, b: SortKey, c: SortKey)
    requires
        a@.no_greater(b@),
        b@.no_greater(c@),
    ensures
        a@.no_greater(c@),
{
    if let (SortKey::Text(x), SortKey::Text(y), SortKey::Text(z)) = (a, b, c) {
        String::transitive(x, y, z);
    }
}

/// Whether a key comes no later than another.
fn key_no_greater(a: &SortKey, b: &SortKey) -> (r: bool)
    ensures
        r == a@.no_greater(b@),
{
    match (a, b) {
        (SortKey::Unsorted, _) => true,
        (_, SortKey::Unsorted) => false,
        (SortKey::Time(x), SortKey::Time(y)) => !y.before(x),
        (SortKey::Time(_), _) => true,
        (_, SortKey::Time(_)) => false,
        (SortKey::Number(x), SortKey::Number(y)) => *x <= *y,
        (SortKey::Number(_), _) => true,
        (_, SortKey::Number(_)) => false,
        (SortKey::Text(x), SortKey::Text(y)) => !less(y.as_str(), x.as_str()),
    }
}

impl Ranked for DirectedKey {
    /// Those that ascend come before those that descend.
    closed spec fn at_most(self, other: Self) -> bool {
        if self.ascending == other.ascending {
            in_direction(self.key@, other.key@, self.ascending)
        } else {
            self.ascending
        }
    }

    proof fn total(a: Self, b: Self) {
        lemma_keys_total(a.key, b.key);
    }

    proof fn transitive(a: Self, b: Self, c: Self) {
        if a.ascending == b.ascending && b.ascending == c.ascending {
            if a.ascending {
                lemma_keys_transitive(a.key, b.key, c.key);
            } else {
                lemma_keys_transitive(c.key, b.key, a.key);
            }
        }
    }

    fn no_later(&self, other: &Self) -> (r: bool) {
        if self.ascending == other.ascending {
            if self.ascending {
                key_no_greater(&self.key, &other.key)
            } else {
                key_no_greater(&other.key, &self.key)
            }
        } else {
            self.ascending
        }
    }
}

// ---------------------------------------------------------------------------
// Tables
// ---------------------------------------------------------------------------

/// A row of a table.
pub trait TableRow: Sized {
    /// When the event of the row happened.
    spec fn at(self) -> Timestamp;

    /// The whole row as one line.
    spec fn line(self) -> Seq<char>;

    /// What the row is sorted by in a column.
    spec fn key(self, column: usize) -> SortKey<Seq<char>>;

    /// When the event of the row happened.
    fn row_time(&self) -> (t: Timestamp)
        ensures
            t == self.at(),
    ;

    /// The whole row as one line, its columns separated by tabs.
    fn copy_text(&self) -> (s: String)
        ensures
            s@ == self.line(),
    ;

    /// What the row is sorted by in a column.
    fn sort_key(&self, column: usize) -> (k: SortKey)
        ensures
            k@ == self.key(column),
    ;
}

/// A span of time, from the first instant to the last.
pub type TimeRange = Option<(Timestamp, Timestamp)>;

/// Whether an instant lies in a span of time.
pub open spec fn within(range: TimeRange, t: Timestamp) -> bool {
    match range {
        Some((from, to)) => !t.earlier(from) && !to.earlier(t),
        None => true,
    }
}

/// Whether an instant lies in a span of time.
pub fn in_range(range: &TimeRange, t: &Timestamp) -> (r: bool)
    ensures
        r == within(*range, *t),
{
    match range {
        Some((from, to)) => !t.before(from) && !to.before(t),
        None => true,
    }
}

/// Whether a line holds the filter text, in whatever case.
pub open spec fn passes(line: Seq<char>, filter: Seq<char>) -> bool {
    filter.len() == 0 || occurs_in(lowercase(line), lowercase(filter))
}

/// Whether a row is shown.
pub open spec fn shown<R: TableRow>(row: R, filter: Seq<char>, range: TimeRange) -> bool {
    passes(row.line(), filter) && within(range, row.at())
}

/// Whether the row at one position is listed before that at another: its key
/// comes first, or the keys rank the same and it stood first.
pub open spec fn listed_before<R: TableRow>(rows: Seq<R>, sort: SortState, a: usize, b: usize) -> bool {
    let ka = rows[a as int].key(sort.column);
    let kb = rows[b as int].key(sort.column);
    &&& in_direction(ka, kb, sort.ascending)
    &&& in_direction(kb, ka, sort.ascending) ==> a < b
}

/// Whether `order` lists the positions of the rows that are shown, sorted.
pub open spec fn arranged<R: TableRow>(
    rows: Seq<R>,
    filter: Seq<char>,
    range: TimeRange,
    sort: SortState,
    order: Seq<usize>,
) -> bool {
    &&& forall|i: int, j: int|
        0 <= i < j < order.len() ==> listed_before(
            rows,
            sort,
            #[trigger] order[i],
            #[trigger] order[j],
        )
    &&& forall|i: int|
        0 <= i < order.len() ==> (#[trigger] order[i]) < rows.len() && shown(
            rows[order[i] as int],
            filter,
            range,
        )
    &&& forall|p: usize|
        p < rows.len() && shown(rows[p as int], filter, range) ==> #[trigger] order.contains(p)
}

/// Whether a row is shown.
fn is_shown<R: TableRow>(row: &R, filter: &str, lower: &str, range: &TimeRange) -> (r: bool)
    requires
        lower@ == lowercase(filter@),
    ensures
        r == shown(*row, filter@, *range),
{
    if !filter.is_empty() {
        let line = row.copy_text();
        if !contains(to_lowercase(line.as_str()).as_str(), lower) {
            return false;
        }
    }
    in_range(range, &row.row_time())
}

/// The positions of the rows that pass the text filter and lie in the span of
/// time, sorted by a column. Rows that rank the same keep their order.
pub fn arrange<R: TableRow>(rows: &Vec<R>, filter: &str, range: &TimeRange, sort: &SortState) -> (order: Vec<
    usize,
>)
    ensures
        arranged(rows@, filter@, *range, *sort, order@),
{
    let lower = to_lowercase(filter);
    let mut kept: Vec<usize> = Vec::new();
    let mut keys: Vec<DirectedKey> = Vec::new();
    let mut i: usize = 0;
    while i < rows.len()
        invariant
            i <= rows.len(),
            lower@ == lowercase(filter@),
            keys@.len() == kept@.len(),
            forall|j: int|
                0 <= j < kept@.len() ==> (#[trigger] kept@[j]) < i && shown(
                    rows@[kept@[j] as int],
                    filter@,
                    *range,
                ),
            forall|j: int, k: int| 0 <= j < k < kept@.len() ==> kept@[j] < kept@[k],
            forall|j: int|
                0 <= j < keys@.len() ==> (#[trigger] keys@[j]).ascending == sort.ascending
                    && keys@[j].key@ == rows@[kept@[j] as int].key(sort.column),
            forall|p: usize|
                p < i && shown(rows@[p as int], filter@, *range) ==> #[trigger] kept@.contains(p),
        decreases rows.len() - i,
    {
        if is_shown(&rows[i], filter, lower.as_str(), range) {
            let ghost before = kept@;
            keys.push(
                DirectedKey { key: rows[i].sort_key(sort.column), ascending: sort.ascending },
            );
            kept.push(i);
            proof {
                assert forall|p: usize|
                    p < i + 1 && shown(rows@[p as int], filter@, *range) implies #[trigger] kept@.contains(
                    p,
                ) by {
                    if p < i {
                        assert(before.contains(p));
                        let j = choose|j: int| 0 <= j < before.len() && before[j] == p;
                        assert(kept@[j] == p);
                    } else {
                        assert(kept@[before.len() as int] == p);
                    }
                }
            }
        }
        i += 1;
    }
    let sorted = sorted_order(&keys);
    let mut order: Vec<usize> = Vec::new();
    let mut k: usize = 0;
    while k < sorted.len()
        invariant
            k <= sorted.len(),
            order@.len() == k,
            keys@.len() == kept@.len(),
            crate::order::sorts(keys@, sorted@),
            forall|j: int| 0 <= j < k ==> (#[trigger] order@[j]) == kept@[sorted@[j] as int],
        decreases sorted.len() - k,
    {
        order.push(kept[sorted[k]]);
        k += 1;
    }
    proof {
        assert forall|a: int, b: int| 0 <= a < b < order@.len() implies listed_before(
            rows@,
            *sort,
            #[trigger] order@[a],
            #[trigger] order@[b],
        ) by {
            let x = sorted@[a];
            let y = sorted@[b];
            assert(goes_before(keys@, x, y));
            assert(keys@[x as int].ascending && keys@[y as int].ascending
                || !keys@[x as int].ascending && !keys@[y as int].ascending);
        }
        assert forall|a: int| 0 <= a < order@.len() implies (#[trigger] order@[a]) < rows@.len()
            && shown(rows@[order@[a] as int], filter@, *range) by {
            assert(sorted@[a] < kept@.len());
        }
        assert forall|p: usize|
            p < rows@.len() && shown(rows@[p as int], filter@, *range) implies #[trigger] order@.contains(
            p,
        ) by {
            assert(kept@.contains(p));
            let j = choose|j: int| 0 <= j < kept@.len() && kept@[j] == p;
            assert(sorted@.contains(j as usize));
            let a = choose|a: int| 0 <= a < sorted@.len() && sorted@[a] == j as usize;
            assert(order@[a] == p);
        }
    }
    order
}

/// There is only one arrangement of the rows that are shown.
pub proof fn law_arrangement_is_unique<R: TableRow>(
    rows: Seq<R>,
    filter: Seq<char>,
    range: TimeRange,
    sort: SortState,
    a: Seq<usize>,
    b: Seq<usize>,
)
    requires
        arranged(rows, filter, range, sort, a),
        arranged(rows, filter, range, sort, b),
    ensures
        a == b,
{
    lemma_same_from(rows, filter, range, sort, a, b, 0);
    if a.len() < b.len() {
        assert(a.contains(b[a.len() as int]));
        let i = choose|i: int| 0 <= i < a.len() && a[i] == b[a.len() as int];
        assert(listed_before(rows, sort, b[i], b[a.len() as int]));
    } else if b.len() < a.len() {
        assert(b.contains(a[b.len() as int]));
        let i = choose|i: int| 0 <= i < b.len() && b[i] == a[b.len() as int];
        assert(listed_before(rows, sort, a[i], a[b.len() as int]));
    }
    assert(a =~= b);
}

/// Two arrangements agree from the start on.
proof fn lemma_same_from<R: TableRow>(
    rows: Seq<R>,
    filter: Seq<char>,
    range: TimeRange,
    sort: SortState,
    a: Seq<usize>,
    b: Seq<usize>,
    i: int,
)
    requires
        arranged(rows, filter, range, sort, a),
        arranged(rows, filter, range, sort, b),
        0 <= i <= a.len(),
        i <= b.len(),
        forall|k: int| 0 <= k < i ==> a[k] == b[k],
    ensures
        forall|k: int| 0 <= k < a.len() && k < b.len() ==> a[k] == b[k],
    decreases a.len() - i,
{
    if i < a.len() && i < b.len() {
        assert(b.contains(a[i]));
        assert(a.contains(b[i]));
        let p = choose|p: int| 0 <= p < b.len() && b[p] == a[i];
        let q = choose|q: int| 0 <= q < a.len() && a[q] == b[i];
        if p < i {
            assert(listed_before(rows, sort, a[p], a[i]));
        }
        if q < i {
            assert(listed_before(rows, sort, b[q], b[i]));
        }
        if a[i] != b[i] {
            assert(listed_before(rows, sort, a[i], a[q]));
            assert(listed_before(rows, sort, b[i], b[p]));
        }
        lemma_same_from(rows, filter, range, sort, a, b, i + 1);
    }
}

/// What a panel shows.
pub enum Listing<R> {
    /// There is nothing to list.
    Nothing,
    /// There are rows, but none is shown.
    NoMatch,
    /// Rows, and the positions of those that are shown, in order.
    Rows { rows: Vec<R>, order: Vec<usize> },
}

/// Whether a panel lists rows: all of them are there, and those that are shown
/// are put in order.
pub open spec fn lists<R: TableRow>(
    listing: Listing<R>,
    rows: Seq<R>,
    filter: Seq<char>,
    range: TimeRange,
    sort: SortState,
) -> bool {
    match listing {
        Listing::Nothing => false,
        Listing::NoMatch => forall|i: int|
            0 <= i < rows.len() ==> !shown(#[trigger] rows[i], filter, range),
        Listing::Rows { rows: all, order } => {
            &&& all@ == rows
            &&& order@.len() > 0
            &&& arranged(rows, filter, range, sort, order@)
        },
    }
}

/// Lists rows.
pub fn list_rows<R: TableRow>(rows: Vec<R>, filter: &str, range: &TimeRange, sort: &SortState) -> (listing: Listing<
    R,
>)
    ensures
        lists(listing, rows@, filter@, *range, *sort),
{
    let order = arrange(&rows, filter, range, sort);
    if order.len() == 0 {
        proof {
            let len = rows.len();
            assert forall|i: int| 0 <= i < rows@.len() implies !shown(
                #[trigger] rows@[i],
                filter@,
                *range,
            ) by {
                if shown(rows@[i], filter@, *range) {
                    assert(order@.contains(i as usize));
                }
            }
        }
        Listing::NoMatch
    } else {
        Listing::Rows { rows, order }
    }
}

// ---------------------------------------------------------------------------
// Rows from events
// ---------------------------------------------------------------------------

/// A row made from an event.
pub trait EventRow: TableRow {
    /// The row as text.
    type Text;

    /// The row as text.
    spec fn text(self) -> Self::Text;

    /// The row that an event has in the panel of a process, where it has one.
    spec fn row_of(e: SysmonEvent, guid: ProcessGuid) -> Option<Self::Text>;

    /// The row that an event has in the panel of a process.
    fn from_event(e: &SysmonEvent, guid: &ProcessGuid) -> (row: Option<Self>)
        ensures
            match row {
                Some(r) => Self::row_of(*e, *guid) == Some(r.text()),
                None => Self::row_of(*e, *guid) is None,
            },
    ;
}

/// The rows of the events at given positions, in their order.
pub open spec fn event_rows<R: EventRow>(
    events: Seq<SysmonEvent>,
    at: Seq<usize>,
    guid: ProcessGuid,
) -> Seq<R::Text>
    decreases at.len(),
{
    if at.len() == 0 {
        Seq::empty()
    } else {
        let front = event_rows::<R>(events, at.drop_last(), guid);
        match R::row_of(events[at.last() as int], guid) {
            Some(row) => front.push(row),
            None => front,
        }
    }
}

/// Rows as text.
pub open spec fn rows_text<R: EventRow>(rows: Seq<R>) -> Seq<R::Text> {
    rows.map_values(|r: R| r.text())
}

/// Makes the rows of the events at given positions.
pub fn rows_at<R: EventRow>(store: &EventStore, at: &Vec<usize>, guid: &ProcessGuid) -> (rows: Vec<R>)
    requires
        forall|i: int| 0 <= i < at@.len() ==> (#[trigger] at@[i]) < store.events@.len(),
    ensures
        rows_text(rows@) == event_rows::<R>(store.events@, at@, *guid),
{
    let mut rows: Vec<R> = Vec::new();
    let mut i: usize = 0;
    assert(at@.take(0) =~= Seq::empty());
    assert(rows_text(rows@) =~= Seq::empty());
    while i < at.len()
        invariant
            i <= at.len(),
            forall|i: int| 0 <= i < at@.len() ==> (#[trigger] at@[i]) < store.events@.len(),
            rows_text(rows@) == event_rows::<R>(store.events@, at@.take(i as int), *guid),
        decreases at.len() - i,
    {
        assert(at@.take(i + 1).drop_last() =~= at@.take(i as int));
        assert(at@.take(i + 1).last() == at@[i as int]);
        if let Some(row) = R::from_event(&store.events[at[i]], guid) {
            let ghost before = rows@;
            let ghost text = row.text();
            rows.push(row);
            assert(rows_text(rows@) =~= rows_text(before).push(text));
        }
        i += 1;
    }
    assert(at@.take(at@.len() as int) =~= at@);
    rows
}

/// Whether a panel lists the rows of the events at given positions.
pub open spec fn lists_events<R: EventRow>(
    listing: Listing<R>,
    events: Seq<SysmonEvent>,
    at: Seq<usize>,
    guid: ProcessGuid,
    filter: Seq<char>,
    range: TimeRange,
    sort: SortState,
) -> bool {
    if at.len() == 0 {
        listing is Nothing
    } else {
        exists|rows: Seq<R>|
            rows_text(rows) == event_rows::<R>(events, at, guid) && #[trigger] lists(
                listing,
                rows,
                filter,
                range,
                sort,
            )
    }
}

/// Lists the rows of the events at given positions.
pub fn list_events<R: EventRow>(
    store: &EventStore,
    at: &Vec<usize>,
    guid: &ProcessGuid,
    filter: &str,
    range: &TimeRange,
    sort: &SortState,
) -> (listing: Listing<R>)
    requires
        forall|i: int| 0 <= i < at@.len() ==> (#[trigger] at@[i]) < store.events@.len(),
    ensures
        lists_events(listing, store.events@, at@, *guid, filter@, *range, *sort),
{
    if at.len() == 0 {
        return Listing::Nothing;
    }
    let rows = rows_at::<R>(store, at, guid);
    let ghost all = rows@;
    list_rows(rows, filter, range, sort)
}

/// A row as one line: its columns, separated by tabs.
pub open spec fn tabbed(columns: Seq<Seq<char>>) -> Seq<char> {
    joined(columns, "\t"@)
}

/// A row as one line: its columns, separated by tabs.
pub fn tab_line(columns: &Vec<&str>) -> (s: String)
    ensures
        s@ == tabbed(part_texts(columns@)),
{
    join(columns, "\t")
}

/// The number of the technique that an event refers to; empty where it refers to
/// none.
pub open spec fn technique(e: SysmonEvent) -> Seq<char> {
    match e.mitre_technique {
        Some(m) => m.id@,
        None => ""@,
    }
}

/// The number of the technique that an event refers to.
pub fn technique_text(e: &SysmonEvent) -> (s: String)
    ensures
        s@ == technique(*e),
{
    match &e.mitre_technique {
        Some(m) => m.id.clone(),
        None => "".to_owned(),
    }
}

} // verus!
