//! Laws of the process tree as it is shown: filters, rows, selection and the time
//! filter.

use crate::guid::ProcessGuid;
use crate::laws::matching::lemma_occurs;
use crate::laws::tree::is_after;
use crate::numbers::decimal;
use crate::panels::within;
use crate::process_tree::ProcessText;
use crate::state::{day_of, neighbour, place_of, settled_end, span_of, AppState, SpecialFilter};
use crate::text::{lowercase, texts, uppercase};
use crate::tree_rows::{label_of, shade_of, NodeShade};
use crate::tree_view::{is_below, is_child, text_matches};
use crate::types::Timestamp;
use vstd::prelude::*;

verus! {

// ---------------------------------------------------------------------------
// Filters
// ---------------------------------------------------------------------------

/// The level of integrity of a process, in lower case.
pub open spec fn level_of(n: ProcessText) -> Seq<char> {
    lowercase(
        match n.integrity_level {
            Some(l) => l,
            None => ""@,
        },
    )
}

/// Whether a level is one of those that a filter has chosen.
pub open spec fn level_is_chosen(f: SpecialFilter, level: Seq<char>) -> bool {
    ||| f.integrity_system && level == "system"@
    ||| f.integrity_high && level == "high"@
    ||| f.integrity_medium && level == "medium"@
    ||| f.integrity_low && level == "low"@
}

/// Whether an event of a process refers to one of the techniques that are checked.
pub open spec fn has_checked_technique(s: AppState, g: ProcessGuid) -> bool {
    exists|i: int|
        {
            &&& 0 <= i < s.event_store.events@.len()
            &&& (#[trigger] s.event_store.events@[i]).process_guid == Some(g)
            &&& s.event_store.events@[i].mitre_technique is Some
            &&& texts(s.mitre_filter@).contains(
                s.event_store.events@[i].mitre_technique->Some_0.id@,
            )
        }
}

/// A process passes the filters exactly where it satisfies each one that is set: its
/// level is one of those chosen, its user one of those checked, it is among the
/// processes with network events or with persistence, one of its events refers to a
/// technique that is checked, and it was seen to start within the time range.
pub proof fn law_every_filter_counts(s: AppState, g: ProcessGuid)
    requires
        s.process_tree@.nodes.contains_key(g),
    ensures
        ({
            let f = s.special_filter;
            let n = s.process_tree@.nodes[g];
            let user = match n.user {
                Some(u) => u,
                None => ""@,
            };
            let by_level = f.integrity_system || f.integrity_high || f.integrity_medium
                || f.integrity_low;
            &&& by_level && !level_is_chosen(f, level_of(n)) ==> !s.node_passes(g)
            &&& f.users_checked@.len() > 0 && !texts(f.users_checked@).contains(user)
                ==> !s.node_passes(g)
            &&& f.network && !s.network_processes@.contains_key(g) ==> !s.node_passes(g)
            &&& f.persistence && !s.persistence_processes@.contains_key(g) ==> !s.node_passes(g)
            &&& s.mitre_filter@.len() > 0 && !has_checked_technique(s, g) ==> !s.node_passes(g)
            &&& s.time_filter_active && (s.time_range_filter matches Some((from, to)) && (
            n.is_synthetic || is_after(from, n.start_time) || is_after(n.start_time, to)))
                ==> !s.node_passes(g)
            &&& {
                &&& by_level ==> level_is_chosen(f, level_of(n))
                &&& f.users_checked@.len() > 0 ==> texts(f.users_checked@).contains(user)
                &&& f.network ==> s.network_processes@.contains_key(g)
                &&& f.persistence ==> s.persistence_processes@.contains_key(g)
                &&& s.mitre_filter@.len() > 0 ==> has_checked_technique(s, g)
                &&& s.time_filter_active && s.time_range_filter is Some ==> !n.is_synthetic
                    && !is_after(s.time_range_filter->Some_0.0, n.start_time) && !is_after(
                    n.start_time,
                    s.time_range_filter->Some_0.1,
                )
            } ==> s.node_passes(g)
        }),
{
    let events = s.event_store.events@;
    let chosen = texts(s.mitre_filter@);
    if crate::tree_view::technique_fits(events, g, chosen) {
        let i = choose|i: int|
            0 <= i < events.len() && (#[trigger] events[i]).process_guid == Some(g)
                && crate::tree_view::chosen_technique(events[i], chosen);
        assert(events[i].mitre_technique is Some);
    }
    if has_checked_technique(s, g) {
        let i = choose|i: int|
            {
                &&& 0 <= i < events.len()
                &&& (#[trigger] events[i]).process_guid == Some(g)
                &&& events[i].mitre_technique is Some
                &&& chosen.contains(events[i].mitre_technique->Some_0.id@)
            };
        assert(crate::tree_view::chosen_technique(events[i], chosen));
    }
}

/// A search text finds a process by its image name, its command line, its user or
/// its number: wherever it stands in one of them, which but for the number are
/// taken in lower case. A process that has it in none of them is not found.
pub proof fn law_searches_look_at_four_texts(
    n: ProcessText,
    filter: Seq<char>,
    unnamed: Seq<char>,
    x: Seq<char>,
    y: Seq<char>,
)
    ensures
        n.image_name is Some && lowercase(n.image_name->Some_0) == x + filter + y ==> text_matches(
            n,
            filter,
            unnamed,
        ),
        n.command_line is Some && lowercase(n.command_line->Some_0) == x + filter + y
            ==> text_matches(n, filter, unnamed),
        n.user is Some && lowercase(n.user->Some_0) == x + filter + y ==> text_matches(
            n,
            filter,
            unnamed,
        ),
        n.pid is Some && decimal(n.pid->Some_0 as nat) == x + filter + y ==> text_matches(
            n,
            filter,
            unnamed,
        ),
        text_matches(n, filter, unnamed) && n.image_name is Some && n.command_line is Some
            && n.user is Some && n.pid is Some ==> {
            ||| exists|a: Seq<char>, b: Seq<char>|
                lowercase(n.image_name->Some_0) == #[trigger] (a + filter + b)
            ||| exists|a: Seq<char>, b: Seq<char>|
                lowercase(n.command_line->Some_0) == #[trigger] (a + filter + b)
            ||| exists|a: Seq<char>, b: Seq<char>|
                lowercase(n.user->Some_0) == #[trigger] (a + filter + b)
            ||| exists|a: Seq<char>, b: Seq<char>|
                decimal(n.pid->Some_0 as nat) == #[trigger] (a + filter + b)
        },
{
    if n.image_name is Some {
        lemma_occurs(lowercase(n.image_name->Some_0), filter);
    }
    if n.command_line is Some {
        lemma_occurs(lowercase(n.command_line->Some_0), filter);
    }
    if n.user is Some {
        lemma_occurs(lowercase(n.user->Some_0), filter);
    }
    if n.pid is Some {
        lemma_occurs(decimal(n.pid->Some_0 as nat), filter);
    }
}

/// A process is shown in its own row where it is on the selected host, it or a
/// descendant is found by the search, and it passes the filters; where only a
/// descendant passes them, the way to that one stays open without a row. Its
/// children are those of the tree.
pub proof fn law_rows_are_shown_for_what_passes(s: AppState, g: ProcessGuid)
    requires
        s.process_tree@.nodes.contains_key(g),
    ensures
        ({
            let n = s.process_tree@.nodes[g];
            let filter = lowercase(s.search_filter@);
            let step = s.step_of(g);
            &&& step is Row ==> s.node_passes(g)
            &&& step is Row ==> step->Row_children == n.children
            &&& step is Through ==> !s.node_passes(g) && step->Through_children == n.children
            &&& s.selected_host is Some && n.computer != s.selected_host->Some_0@ ==> step is Hidden
            &&& (s.selected_host is None || n.computer == s.selected_host->Some_0@) && filter.len()
                == 0 && s.node_passes(g) ==> step is Row
            &&& (s.selected_host is None || n.computer == s.selected_host->Some_0@) && s.node_passes(
                g,
            ) && s.matches_text(g, filter) ==> step is Row
        }),
{
    let nodes = s.process_tree@.nodes;
    let path = seq![g];
    assert(crate::tree_view::is_path(nodes, path));
    assert(path[0] == g && path.last() == g);
    assert(is_below(nodes, g, g));
    if s.node_passes(g) {
        let test = |x: ProcessGuid| s.node_passes(x);
        assert(test(g));
        assert(s.passes_below(g));
    }
    if s.matches_text(g, lowercase(s.search_filter@)) {
        let test = |x: ProcessGuid| s.matches_text(x, lowercase(s.search_filter@));
        assert(test(g));
        assert(s.text_below(g, lowercase(s.search_filter@)));
    }
}

/// Below a process are the process itself, its children, and what is below them.
pub proof fn law_below_goes_down_the_tree(
    nodes: Map<ProcessGuid, ProcessText>,
    top: ProcessGuid,
    g: ProcessGuid,
    child: ProcessGuid,
)
    ensures
        is_below(nodes, top, top),
        is_below(nodes, top, g) && nodes.contains_key(g) && nodes[g].children.contains(child)
            ==> is_below(nodes, top, child),
        is_below(nodes, top, g) && g != top ==> exists|p: ProcessGuid|
            #[trigger] is_below(nodes, top, p) && nodes.contains_key(p)
                && nodes[p].children.contains(g),
{
    let path = seq![top];
    assert(crate::tree_view::is_path(nodes, path));
    assert(path[0] == top && path.last() == top);
    if is_below(nodes, top, g) {
        let path = choose|path: Seq<ProcessGuid>| #[trigger]
            crate::tree_view::is_path(nodes, path) && path[0] == top && path.last() == g;
        if nodes.contains_key(g) && nodes[g].children.contains(child) {
            let longer = path.push(child);
            assert(longer.drop_last() =~= path);
            assert(is_child(nodes, g, child));
            assert(crate::tree_view::is_path(nodes, longer));
            assert(longer[0] == top);
        }
        if g != top {
            assert(path.len() > 1);
            let front = path.drop_last();
            let p = front.last();
            assert(front[0] == top);
            assert(is_child(nodes, p, g));
            assert(crate::tree_view::is_path(nodes, front) && front.last() == p);
            assert(is_below(nodes, top, p));
        }
    }
}

// ---------------------------------------------------------------------------
// Rows
// ---------------------------------------------------------------------------

/// A row shows what the tree knows of its process, and marks for what is not known.
pub proof fn law_rows_show_their_process(s: AppState, g: ProcessGuid)
    ensures
        ({
            let n = s.process_tree@.nodes[g];
            let row = s.row_of(g);
            &&& row.image == match n.image {
                Some(t) => t,
                None => "?"@,
            }
            &&& row.command_line == match n.command_line {
                Some(t) => t,
                None => "-"@,
            }
            &&& row.user == match n.user {
                Some(t) => t,
                None => "-"@,
            }
            &&& row.is_selected == (s.selected_process == Some(g))
            &&& row.is_checked == s.timeline_checked@.contains_key(g)
        }),
{
}

/// The label of a process is its image name and, in parentheses, its number, with a
/// note behind where it was not seen itself, and a mark before it for each of a
/// technique, an alert and a bookmark.
pub proof fn law_labels_name_the_process(n: ProcessText, name: Seq<char>, pid: u32)
    requires
        n.image_name == Some(name),
        n.pid == Some(pid),
    ensures
        !n.is_synthetic ==> label_of(n, false, false, false) == name + " ("@ + decimal(pid as nat)
            + ")"@,
        n.is_synthetic ==> label_of(n, false, false, false) == name + " ("@ + decimal(pid as nat)
            + ") [synthetic]"@,
        label_of(n, true, false, false) == "⚑ "@ + label_of(n, false, false, false),
        forall|tagged: bool|
            #[trigger] label_of(n, tagged, true, false) == "⚠ "@ + label_of(n, tagged, false, false),
        forall|tagged: bool, alerted: bool|
            #[trigger] label_of(n, tagged, alerted, true) == "🔖 "@ + label_of(
                n,
                tagged,
                alerted,
                false,
            ),
{
}

/// The shade of a process: that of a placeholder comes first, then that of a target
/// of other processes, then that of the system, then that of a process that ended.
pub proof fn law_shades_have_their_order(n: ProcessText, is_target: bool)
    ensures
        n.is_synthetic <==> shade_of(n, is_target) == NodeShade::Synthetic,
        !n.is_synthetic && is_target <==> shade_of(n, is_target) == NodeShade::InjectionTarget,
        !n.is_synthetic && !is_target && n.user is None ==> shade_of(n, is_target)
            == NodeShade::System || shade_of(n, is_target) == if n.end_time is Some {
            NodeShade::Terminated
        } else {
            NodeShade::Normal
        },
        !n.is_synthetic && !is_target && n.user is Some && uppercase(n.user->Some_0) == "SYSTEM"@
            ==> shade_of(n, is_target) == NodeShade::System,
        shade_of(n, is_target) == NodeShade::Terminated ==> n.end_time is Some,
        shade_of(n, is_target) == NodeShade::Normal ==> n.end_time is None,
{
    if n.user is Some {
        lemma_occurs(uppercase(n.user->Some_0), "SYSTEM"@);
        let none = Seq::<char>::empty();
        assert(none + "SYSTEM"@ + none =~= "SYSTEM"@);
    }
}

// ---------------------------------------------------------------------------
// Selection
// ---------------------------------------------------------------------------

proof fn lemma_place(flat: Seq<ProcessGuid>, i: int)
    requires
        0 <= i < flat.len(),
        flat.no_duplicates(),
    ensures
        place_of(flat, flat[i]) == Some(i),
    decreases flat.len(),
{
    let f = flat.drop_last();
    assert(flat.last() == flat[flat.len() - 1]);
    if i < f.len() {
        assert(f[i] == flat[i]);
        assert(f.no_duplicates());
        lemma_place(f, i);
    } else {
        if place_of(f, flat[i]) is Some {
            lemma_place_holds(f, flat[i]);
            let k = place_of(f, flat[i])->Some_0;
            assert(flat[k] == f[k]);
        }
    }
}

proof fn lemma_place_holds(flat: Seq<ProcessGuid>, g: ProcessGuid)
    ensures
        place_of(flat, g) matches Some(i) ==> 0 <= i < flat.len() && flat[i] == g,
        place_of(flat, g) is None ==> !flat.contains(g),
    decreases flat.len(),
{
    if flat.len() > 0 {
        let f = flat.drop_last();
        lemma_place_holds(f, g);
        if let Some(i) = place_of(f, g) {
            assert(flat[i] == f[i]);
        }
        if flat.contains(g) {
            let i = choose|i: int| 0 <= i < flat.len() && flat[i] == g;
            if i < f.len() {
                assert(f[i] == g);
            }
        }
    }
}

/// The selection moves one process down or up in the list that is visible, and stays
/// at its ends; going up undoes going down. Without a selection, or with one that is
/// not visible, the first process is selected, and without processes none.
pub proof fn law_the_selection_moves_by_one(
    flat: Seq<ProcessGuid>,
    i: int,
    selected: Option<ProcessGuid>,
    down: bool,
)
    requires
        flat.no_duplicates(),
    ensures
        0 <= i < flat.len() - 1 ==> neighbour(flat, Some(flat[i]), true) == Some(flat[i + 1]),
        0 < i < flat.len() ==> neighbour(flat, Some(flat[i]), false) == Some(flat[i - 1]),
        flat.len() > 0 ==> neighbour(flat, Some(flat.last()), true) == Some(flat.last()),
        flat.len() > 0 ==> neighbour(flat, Some(flat[0]), false) == Some(flat[0]),
        flat.len() > 0 && (selected is None || !flat.contains(selected->Some_0)) ==> neighbour(
            flat,
            selected,
            down,
        ) == Some(flat[0]),
        flat.len() == 0 ==> neighbour(flat, selected, down) is None,
        0 <= i < flat.len() - 1 ==> neighbour(flat, neighbour(flat, Some(flat[i]), true), false)
            == Some(flat[i]),
{
    if 0 <= i < flat.len() {
        lemma_place(flat, i);
    }
    if 0 <= i < flat.len() - 1 {
        lemma_place(flat, i + 1);
    }
    if flat.len() > 0 {
        lemma_place(flat, 0);
        lemma_place(flat, flat.len() - 1);
    }
    if let Some(g) = selected {
        lemma_place_holds(flat, g);
    }
}

/// Selecting a process shows its overview and scrolls to it, forgets which rows were
/// selected, and leaves all else as it was.
pub proof fn law_selecting_shows_the_overview(s: AppState, g: ProcessGuid)
    ensures
        ({
            let t = s.with_selection(g);
            &&& t.selected_process == Some(g)
            &&& t.active_tab == crate::state::TelemetryTab::Overview
            &&& t.scroll_to_selected
            &&& t.tab_network.selected_row is None
            &&& t.tab_files.selected_row is None
            &&& t.tab_registry.selected_row is None
            &&& t.tab_pipes.selected_row is None
            &&& t.tab_injection.selected_row is None
            &&& t.tab_drivers.selected_row is None
            &&& t.tab_detection.selected_row is None
            &&& t.tab_sigma.selected_row is None
            &&& t.tab_timeline.selected_row is None
            &&& t.tab_network.sort == s.tab_network.sort
            &&& t.tab_files.sort == s.tab_files.sort
            &&& t.tab_registry.sort == s.tab_registry.sort
            &&& t.tab_pipes.sort == s.tab_pipes.sort
            &&& t.tab_injection.sort == s.tab_injection.sort
            &&& t.tab_drivers.sort == s.tab_drivers.sort
            &&& t.tab_detection.sort == s.tab_detection.sort
            &&& t.tab_sigma.sort == s.tab_sigma.sort
            &&& t.tab_timeline.sort == s.tab_timeline.sort
            &&& t.event_store == s.event_store
            &&& t.process_tree == s.process_tree
            &&& t.timeline_checked == s.timeline_checked
            &&& t.special_filter == s.special_filter
            &&& t.mitre_filter == s.mitre_filter
            &&& t.time_range_filter == s.time_range_filter
            &&& t.search_filter == s.search_filter
            &&& t.telemetry_filter == s.telemetry_filter
        }),
{
}

// ---------------------------------------------------------------------------
// The time filter
// ---------------------------------------------------------------------------

/// The time filter runs from the first second of the minute at which it begins to the
/// last second of the minute at which it ends, each on its own day: an instant at a
/// whole second lies within exactly where its day and minute lie between the two.
pub proof fn law_the_time_filter_runs_from_minute_to_minute(
    dates: Seq<i64>,
    i: int,
    j: int,
    from: (u32, u32),
    to: (u32, u32),
    day: int,
    hour: int,
    minute: int,
    second: int,
)
    requires
        0 <= i < dates.len(),
        0 <= j < dates.len(),
        from.0 < 24 && from.1 < 60 && to.0 < 24 && to.1 < 60,
        0 <= hour < 24 && 0 <= minute < 60 && 0 <= second < 60,
        -100_000_000 < dates[i] < 100_000_000,
        -100_000_000 < dates[j] < 100_000_000,
        -100_000_000 < day < 100_000_000,
    ensures
        ({
            let t = Timestamp {
                secs: (day * 86_400 + hour * 3600 + minute * 60 + second) as i64,
                nanos: 0,
            };
            let at = day * 1440 + hour * 60 + minute;
            within(span_of(dates, (i, from), (j, to)), t) <==> {
                &&& dates[i] * 1440 + from.0 * 60 + from.1 <= at
                &&& at <= dates[j] * 1440 + to.0 * 60 + to.1
            }
        }),
{
}

/// A position past the days of a log counts as the last of them, and without days
/// there is no time range.
pub proof fn law_days_are_kept_within_the_log(
    dates: Seq<i64>,
    i: int,
    from: (u32, u32),
    to: (u32, u32),
)
    requires
        i >= dates.len() - 1,
    ensures
        dates.len() > 0 ==> span_of(dates, (i, from), (i, to)) == span_of(
            dates,
            (dates.len() - 1, from),
            (dates.len() - 1, to),
        ),
        dates.len() == 0 ==> span_of(dates, (i, from), (i, to)) is None,
{
}

/// The end of the time filter is never before its beginning, both are among the days,
/// and an end that fits is left as it is.
pub proof fn law_the_end_is_not_before_the_beginning(
    n: int,
    from: (usize, (u32, u32)),
    to: (usize, (u32, u32)),
)
    requires
        0 < n <= usize::MAX,
    ensures
        ({
            let begin = if from.0 < n {
                from.0 as int
            } else {
                n - 1
            };
            let end = settled_end(n, from, to);
            &&& end.0 < n
            &&& begin * 1440 + from.1.0 * 60 + from.1.1 <= end.0 * 1440 + end.1.0 * 60 + end.1.1
            &&& to.0 < n && begin * 1440 + from.1.0 * 60 + from.1.1 <= to.0 * 1440 + to.1.0 * 60
                + to.1.1 ==> end == to
        }),
{
}

/// The day of an instant is the number of whole days since 1970, before it too.
pub proof fn law_days_count_from_1970(t: Timestamp, day: int)
    ensures
        day_of(t) == day <==> day * 86_400 <= t.secs && t.secs < (day + 1) * 86_400,
{
}

} // verus!
