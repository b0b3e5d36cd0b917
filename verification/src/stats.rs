//! Statistics of a log, over all hosts or over the selected one.

use crate::clock::{elapsed, seconds_between};
use crate::event::SysmonEvent;
use crate::fxmap::{fx_get, fx_keys};
use crate::guid::ProcessGuid;
use crate::interner::{resolve, text_of, SharedRodeo};
use crate::numbers::{decimal, push_decimal};
use crate::panels::TimeRange;
use crate::parser::all_held;
use crate::process_tree::{ProcessText, ProcessTree};
use crate::state::AppState;
use crate::tally::{
    counts_text, most_first, rank_by_count, tallied_numbers, tallied_texts, tally_numbers,
    tally_texts,
};
use crate::text::{
    lowercase, opt_text, owned_or, push_text, same_text, string_of, text_or, texts, to_lowercase,
};
use crate::types::Timestamp;
use vstd::prelude::*;

verus! {

// ---------------------------------------------------------------------------
// The events of a host
// ---------------------------------------------------------------------------

/// Whether an event is on a host; any is where no host is given.
pub open spec fn event_on(e: SysmonEvent, host: Option<Seq<char>>, r: SharedRodeo) -> bool {
    host matches Some(h) ==> text_of(r, e.computer) == h
}

/// The times, event numbers and hosts of the events on a host, in order.
pub open spec fn events_on(events: Seq<SysmonEvent>, host: Option<Seq<char>>, r: SharedRodeo) -> Seq<
    (Timestamp, u16, Seq<char>),
>
    decreases events.len(),
{
    if events.len() == 0 {
        Seq::empty()
    } else {
        let front = events_on(events.drop_last(), host, r);
        let e = events.last();
        if event_on(e, host, r) {
            front.push((e.time_created, e.event_id, text_of(r, e.computer)))
        } else {
            front
        }
    }
}

/// Whether a span of time runs from the first to the last of some instants; none
/// where there are none.
pub open spec fn spans_times(times: Seq<Timestamp>, range: TimeRange) -> bool {
    match range {
        None => times.len() == 0,
        Some((first, last)) => {
            &&& times.contains(first)
            &&& times.contains(last)
            &&& forall|i: int|
                0 <= i < times.len() ==> !(#[trigger] times[i]).earlier(first) && !last.earlier(
                    times[i],
                )
        },
    }
}

/// The first and the last of some instants.
fn span_of_times(times: &Vec<Timestamp>) -> (range: TimeRange)
    ensures
        spans_times(times@, range),
{
    if times.len() == 0 {
        return None;
    }
    let mut first: Timestamp = times[0];
    let mut last: Timestamp = times[0];
    let mut i: usize = 1;
    assert(times@[0] == first);
    while i < times.len()
        invariant
            1 <= i <= times.len(),
            times@.contains(first),
            times@.contains(last),
            forall|k: int|
                0 <= k < i ==> !(#[trigger] times@[k]).earlier(first) && !last.earlier(times@[k]),
        decreases times.len() - i,
    {
        let t: Timestamp = times[i];
        assert(times@[i as int] == t);
        if t.before(&first) {
            first = t;
        }
        if last.before(&t) {
            last = t;
        }
        i += 1;
    }
    Some((first, last))
}

// ---------------------------------------------------------------------------
// The processes of a host
// ---------------------------------------------------------------------------

/// Whether a node is counted: a real process on the host.
pub open spec fn counted(n: ProcessText, host: Option<Seq<char>>) -> bool {
    !n.is_synthetic && (host matches Some(h) ==> n.computer == h)
}

/// The users and integrity levels of the counted nodes among some, in order.
pub open spec fn process_labels(
    nodes: Map<ProcessGuid, ProcessText>,
    keys: Seq<ProcessGuid>,
    host: Option<Seq<char>>,
) -> Seq<(Seq<char>, Seq<char>)>
    decreases keys.len(),
{
    if keys.len() == 0 {
        Seq::empty()
    } else {
        let front = process_labels(nodes, keys.drop_last(), host);
        let n = nodes[keys.last()];
        if counted(n, host) {
            front.push(
                (
                    text_or(n.user, "(unknown)"@),
                    text_or(n.integrity_level, "(unknown)"@),
                ),
            )
        } else {
            front
        }
    }
}

/// Whether a list holds every node once.
pub open spec fn lists_nodes(nodes: Map<ProcessGuid, ProcessText>, keys: Seq<ProcessGuid>) -> bool {
    keys.no_duplicates() && keys.to_set() == nodes.dom()
}

// ---------------------------------------------------------------------------
// Duration
// ---------------------------------------------------------------------------

/// A number of seconds as hours, minutes and seconds.
pub open spec fn duration_text(secs: nat) -> Seq<char> {
    let h = secs / 3600;
    let m = secs % 3600 / 60;
    let s = secs % 60;
    if h > 0 {
        decimal(h) + "h "@ + decimal(m) + "m "@ + decimal(s) + "s"@
    } else if m > 0 {
        decimal(m) + "m "@ + decimal(s) + "s"@
    } else {
        decimal(s) + "s"@
    }
}

/// Writes a number of seconds as hours, minutes and seconds.
pub fn write_duration(secs: u64) -> (s: String)
    ensures
        s@ == duration_text(secs as nat),
{
    let h: u64 = secs / 3600;
    let m: u64 = secs % 3600 / 60;
    let s: u64 = secs % 60;
    let mut out: Vec<char> = Vec::new();
    if h > 0 {
        push_decimal(&mut out, h);
        push_text(&mut out, "h ");
    }
    if h > 0 || m > 0 {
        push_decimal(&mut out, m);
        push_text(&mut out, "m ");
    }
    push_decimal(&mut out, s);
    push_text(&mut out, "s");
    assert(out@ =~= duration_text(secs as nat));
    string_of(out.as_slice())
}

/// The length of a span of time, sign aside.
pub open spec fn length_of(range: TimeRange) -> Option<Seq<char>> {
    match range {
        Some((a, b)) => match elapsed(a.secs, a.nanos, b.secs, b.nanos) {
            Some(n) => Some(
                duration_text(
                    if n < 0 {
                        (-n) as nat
                    } else {
                        n as nat
                    },
                ),
            ),
            None => None,
        },
        None => None,
    }
}

/// The length of a span of time.
pub fn span_length(range: &TimeRange) -> (s: Option<String>)
    ensures
        opt_text(s) == length_of(*range),
{
    match range {
        Some((a, b)) => match seconds_between(a.secs, a.nanos, b.secs, b.nanos) {
            Some(n) => {
                let secs: u64 = if n < 0 {
                    (-(n + 1)) as u64 + 1
                } else {
                    n as u64
                };
                Some(write_duration(secs))
            },
            None => None,
        },
        None => None,
    }
}

// ---------------------------------------------------------------------------
// Integrity levels
// ---------------------------------------------------------------------------

/// The first position of a label that is a word in lower case; none where there
/// is no such label.
pub open spec fn first_level(labels: Seq<Seq<char>>, word: Seq<char>) -> Seq<usize>
    decreases labels.len(),
{
    if labels.len() == 0 {
        Seq::empty()
    } else {
        let front = first_level(labels.drop_last(), word);
        if front.len() > 0 {
            front
        } else if lowercase(labels.last()) == word {
            seq![(labels.len() - 1) as usize]
        } else {
            Seq::empty()
        }
    }
}

/// Whether a label is one of the four integrity levels.
pub open spec fn is_level(label: Seq<char>) -> bool {
    let word = lowercase(label);
    word == "system"@ || word == "high"@ || word == "medium"@ || word == "low"@
}

/// The positions of the labels that are no integrity level.
pub open spec fn other_levels(labels: Seq<Seq<char>>) -> Seq<usize>
    decreases labels.len(),
{
    if labels.len() == 0 {
        Seq::empty()
    } else {
        let front = other_levels(labels.drop_last());
        if is_level(labels.last()) {
            front
        } else {
            front.push((labels.len() - 1) as usize)
        }
    }
}

/// The positions in which integrity levels are shown: System, High, Medium and
/// Low, then the others.
pub open spec fn level_order(labels: Seq<Seq<char>>) -> Seq<usize> {
    first_level(labels, "system"@) + first_level(labels, "high"@) + first_level(labels, "medium"@)
        + first_level(labels, "low"@) + other_levels(labels)
}

/// The labels of counted texts.
pub open spec fn labels_of(counts: Seq<(Seq<char>, usize)>) -> Seq<Seq<char>> {
    counts.map_values(|c: (Seq<char>, usize)| c.0)
}

/// Adds the first position of a label that is a word in lower case.
fn push_first_level(counts: &Vec<(String, usize)>, word: &str, order: &mut Vec<usize>)
    ensures
        final(order)@ == old(order)@ + first_level(labels_of(counts_text(counts@)), word@),
{
    let ghost labels = labels_of(counts_text(counts@));
    let ghost before = order@;
    let mut i: usize = 0;
    assert(labels.take(0) =~= Seq::empty());
    while i < counts.len()
        invariant
            i <= counts.len(),
            labels == labels_of(counts_text(counts@)),
            order@ == before,
            before == old(order)@,
            first_level(labels.take(i as int), word@).len() == 0,
        decreases counts.len() - i,
    {
        assert(labels.take(i + 1).drop_last() =~= labels.take(i as int));
        assert(labels.take(i + 1).last() == counts@[i as int].0@);
        if same_text(to_lowercase(counts[i].0.as_str()).as_str(), word) {
            order.push(i);
            proof {
                lemma_first_level_stays(labels, word@, i + 1);
                assert(order@ =~= before + first_level(labels, word@));
            }
            return;
        }
        i += 1;
    }
    assert(labels.take(labels.len() as int) =~= labels);
    assert(order@ =~= before + first_level(labels, word@));
}

/// A position that was found stays the first one.
proof fn lemma_first_level_stays(labels: Seq<Seq<char>>, word: Seq<char>, i: int)
    requires
        0 <= i <= labels.len(),
        first_level(labels.take(i), word).len() > 0,
    ensures
        first_level(labels, word) == first_level(labels.take(i), word),
    decreases labels.len() - i,
{
    if i == labels.len() {
        assert(labels.take(i) =~= labels);
    } else {
        assert(labels.take(i + 1).drop_last() =~= labels.take(i));
        lemma_first_level_stays(labels, word, i + 1);
    }
}

/// The positions in which integrity levels are shown.
fn order_levels(counts: &Vec<(String, usize)>) -> (order: Vec<usize>)
    ensures
        order@ == level_order(labels_of(counts_text(counts@))),
{
    let ghost labels = labels_of(counts_text(counts@));
    let mut order: Vec<usize> = Vec::new();
    push_first_level(counts, "system", &mut order);
    push_first_level(counts, "high", &mut order);
    push_first_level(counts, "medium", &mut order);
    push_first_level(counts, "low", &mut order);
    let ghost head = order@;
    assert(head =~= first_level(labels, "system"@) + first_level(labels, "high"@) + first_level(
        labels,
        "medium"@,
    ) + first_level(labels, "low"@));
    let mut i: usize = 0;
    assert(labels.take(0) =~= Seq::empty());
    assert(head + Seq::<usize>::empty() =~= head);
    while i < counts.len()
        invariant
            i <= counts.len(),
            labels == labels_of(counts_text(counts@)),
            order@ == head + other_levels(labels.take(i as int)),
        decreases counts.len() - i,
    {
        assert(labels.take(i + 1).drop_last() =~= labels.take(i as int));
        assert(labels.take(i + 1).last() == counts@[i as int].0@);
        let word = to_lowercase(counts[i].0.as_str());
        let known = same_text(word.as_str(), "system") || same_text(word.as_str(), "high")
            || same_text(word.as_str(), "medium") || same_text(word.as_str(), "low");
        if !known {
            order.push(i);
        }
        i += 1;
        assert(order@ =~= head + other_levels(labels.take(i as int)));
    }
    assert(labels.take(labels.len() as int) =~= labels);
    order
}

// ---------------------------------------------------------------------------
// The statistics
// ---------------------------------------------------------------------------

/// Statistics of a log. Counts are in ascending order of what is counted; the
/// orders say in which order they are shown.
pub struct Stats {
    /// The number of events on the host.
    pub events: usize,
    /// The number of events of the log.
    pub total_events: usize,
    /// The number of real processes on the host.
    pub processes: usize,
    /// The times of the first and the last event.
    pub span: TimeRange,
    pub duration: Option<String>,
    pub type_counts: Vec<(u16, usize)>,
    /// The twenty most frequent event types.
    pub type_order: Vec<usize>,
    pub host_counts: Vec<(String, usize)>,
    pub host_order: Vec<usize>,
    pub user_counts: Vec<(String, usize)>,
    /// The twelve users with the most processes.
    pub user_order: Vec<usize>,
    pub integrity_counts: Vec<(String, usize)>,
    /// System, High, Medium, Low, and then the others.
    pub integrity_order: Vec<usize>,
}

/// Whether `order` lists the positions of the greatest of some counts, at most
/// `limit` of them.
pub open spec fn tops(counts: Seq<usize>, limit: int, order: Seq<usize>) -> bool {
    exists|full: Seq<usize>| #[trigger]
        most_first(counts, full) && order == full.take(
            if full.len() < limit {
                full.len() as int
            } else {
                limit
            },
        )
}

/// The counts of counted texts.
pub open spec fn numbers_of(counts: Seq<(Seq<char>, usize)>) -> Seq<usize> {
    counts.map_values(|c: (Seq<char>, usize)| c.1)
}

/// The counts of counted numbers.
pub open spec fn type_numbers(counts: Seq<(u16, usize)>) -> Seq<usize> {
    counts.map_values(|c: (u16, usize)| c.1)
}

impl Stats {
    /// Whether what is said of events agrees with those on a host.
    pub open spec fn of_events(&self, on: Seq<(Timestamp, u16, Seq<char>)>) -> bool {
        &&& self.events == on.len()
        &&& spans_times(on.map_values(|e: (Timestamp, u16, Seq<char>)| e.0), self.span)
        &&& opt_text(self.duration) == length_of(self.span)
        &&& tallied_numbers(
            self.type_counts@,
            on.map_values(|e: (Timestamp, u16, Seq<char>)| e.1),
        )
        &&& tops(type_numbers(self.type_counts@), 20, self.type_order@)
        &&& tallied_texts(
            counts_text(self.host_counts@),
            on.map_values(|e: (Timestamp, u16, Seq<char>)| e.2),
        )
        &&& most_first(numbers_of(counts_text(self.host_counts@)), self.host_order@)
    }

    /// Whether what is said of processes agrees with the labels of those that are
    /// counted.
    pub open spec fn of_processes(&self, labels: Seq<(Seq<char>, Seq<char>)>) -> bool {
        &&& self.processes == labels.len()
        &&& tallied_texts(
            counts_text(self.user_counts@),
            labels.map_values(|l: (Seq<char>, Seq<char>)| l.0),
        )
        &&& tops(numbers_of(counts_text(self.user_counts@)), 12, self.user_order@)
        &&& tallied_texts(
            counts_text(self.integrity_counts@),
            labels.map_values(|l: (Seq<char>, Seq<char>)| l.1),
        )
        &&& self.integrity_order@ == level_order(labels_of(counts_text(self.integrity_counts@)))
    }
}

/// The counts of counted texts.
fn text_numbers(counts: &Vec<(String, usize)>) -> (r: Vec<usize>)
    ensures
        r@ == numbers_of(counts_text(counts@)),
{
    let mut r: Vec<usize> = Vec::new();
    let mut i: usize = 0;
    while i < counts.len()
        invariant
            i <= counts.len(),
            r@.len() == i,
            forall|k: int| 0 <= k < i ==> (#[trigger] r@[k]) == counts@[k].1,
        decreases counts.len() - i,
    {
        r.push(counts[i].1);
        i += 1;
    }
    assert(r@ =~= numbers_of(counts_text(counts@)));
    r
}

/// The counts of counted numbers.
fn number_numbers(counts: &Vec<(u16, usize)>) -> (r: Vec<usize>)
    ensures
        r@ == type_numbers(counts@),
{
    let mut r: Vec<usize> = Vec::new();
    let mut i: usize = 0;
    while i < counts.len()
        invariant
            i <= counts.len(),
            r@.len() == i,
            forall|k: int| 0 <= k < i ==> (#[trigger] r@[k]) == counts@[k].1,
        decreases counts.len() - i,
    {
        r.push(counts[i].1);
        i += 1;
    }
    assert(r@ =~= type_numbers(counts@));
    r
}

/// The positions of the greatest of some counts, at most `limit` of them.
fn top(counts: &Vec<usize>, limit: usize) -> (order: Vec<usize>)
    ensures
        tops(counts@, limit as int, order@),
{
    let mut order = rank_by_count(counts);
    let ghost full = order@;
    assert(most_first(counts@, full));
    if order.len() > limit {
        order.truncate(limit);
        assert(order@ =~= full.take(limit as int));
    } else {
        assert(full.take(full.len() as int) =~= full);
    }
    order
}

/// The times, numbers and hosts of the events on a host.
fn collect_events(events: &Vec<SysmonEvent>, host: &Option<String>, rodeo: &SharedRodeo) -> (r: (
    Vec<Timestamp>,
    Vec<u16>,
    Vec<String>,
))
    requires
        all_held(events@, *rodeo),
    ensures
        r.0@ == events_on(events@, opt_text(*host), *rodeo).map_values(
            |e: (Timestamp, u16, Seq<char>)| e.0,
        ),
        r.1@ == events_on(events@, opt_text(*host), *rodeo).map_values(
            |e: (Timestamp, u16, Seq<char>)| e.1,
        ),
        texts(r.2@) == events_on(events@, opt_text(*host), *rodeo).map_values(
            |e: (Timestamp, u16, Seq<char>)| e.2,
        ),
{
    let ghost f0 = |e: (Timestamp, u16, Seq<char>)| e.0;
    let ghost f1 = |e: (Timestamp, u16, Seq<char>)| e.1;
    let ghost f2 = |e: (Timestamp, u16, Seq<char>)| e.2;
    let mut times: Vec<Timestamp> = Vec::new();
    let mut ids: Vec<u16> = Vec::new();
    let mut hosts: Vec<String> = Vec::new();
    let mut i: usize = 0;
    proof {
        assert(events@.take(0) =~= Seq::empty());
        let none = events_on(events@.take(0), opt_text(*host), *rodeo);
        assert(times@ =~= none.map_values(f0));
        assert(ids@ =~= none.map_values(f1));
        assert(texts(hosts@) =~= none.map_values(f2));
    }
    while i < events.len()
        invariant
            i <= events.len(),
            all_held(events@, *rodeo),
            f0 == (|e: (Timestamp, u16, Seq<char>)| e.0),
            f1 == (|e: (Timestamp, u16, Seq<char>)| e.1),
            f2 == (|e: (Timestamp, u16, Seq<char>)| e.2),
            times@ == events_on(events@.take(i as int), opt_text(*host), *rodeo).map_values(f0),
            ids@ == events_on(events@.take(i as int), opt_text(*host), *rodeo).map_values(f1),
            texts(hosts@) == events_on(
                events@.take(i as int),
                opt_text(*host),
                *rodeo,
            ).map_values(f2),
        decreases events.len() - i,
    {
        let ghost front = events_on(events@.take(i as int), opt_text(*host), *rodeo);
        let ghost next = events_on(events@.take(i + 1), opt_text(*host), *rodeo);
        assert(events@.take(i + 1).drop_last() =~= events@.take(i as int));
        assert(events@.take(i + 1).last() == events@[i as int]);
        assert(events@[i as int].held_by(*rodeo));
        let e = &events[i];
        let name = resolve(rodeo, &e.computer);
        let take = match host {
            Some(h) => same_text(name, h.as_str()),
            None => true,
        };
        if take {
            let ghost before = hosts@;
            times.push(e.time_created);
            ids.push(e.event_id);
            hosts.push(name.to_owned());
            proof {
                assert(texts(hosts@) =~= texts(before).push(name@));
                assert(times@ =~= next.map_values(f0));
                assert(ids@ =~= next.map_values(f1));
                assert(texts(hosts@) =~= next.map_values(f2));
            }
        }
        i += 1;
    }
    assert(events@.take(events@.len() as int) =~= events@);
    (times, ids, hosts)
}

/// The users and integrity levels of the real processes on a host.
fn collect_labels(tree: &ProcessTree, host: &Option<String>) -> (r: (Vec<String>, Vec<String>))
    ensures
        exists|keys: Seq<ProcessGuid>| #[trigger]
            lists_nodes(tree@.nodes, keys) && texts(r.0@) == process_labels(
                tree@.nodes,
                keys,
                opt_text(*host),
            ).map_values(|l: (Seq<char>, Seq<char>)| l.0) && texts(r.1@) == process_labels(
                tree@.nodes,
                keys,
                opt_text(*host),
            ).map_values(|l: (Seq<char>, Seq<char>)| l.1),
{
    let ghost f0 = |l: (Seq<char>, Seq<char>)| l.0;
    let ghost f1 = |l: (Seq<char>, Seq<char>)| l.1;
    let ghost nodes = tree@.nodes;
    let keys = fx_keys(&tree.nodes);
    let mut users: Vec<String> = Vec::new();
    let mut levels: Vec<String> = Vec::new();
    let mut i: usize = 0;
    proof {
        assert(keys@.take(0) =~= Seq::empty());
        let none = process_labels(nodes, keys@.take(0), opt_text(*host));
        assert(texts(users@) =~= none.map_values(f0));
        assert(texts(levels@) =~= none.map_values(f1));
    }
    while i < keys.len()
        invariant
            i <= keys.len(),
            nodes == tree@.nodes,
            keys@.to_set() == tree.nodes@.dom(),
            f0 == (|l: (Seq<char>, Seq<char>)| l.0),
            f1 == (|l: (Seq<char>, Seq<char>)| l.1),
            texts(users@) == process_labels(
                nodes,
                keys@.take(i as int),
                opt_text(*host),
            ).map_values(f0),
            texts(levels@) == process_labels(
                nodes,
                keys@.take(i as int),
                opt_text(*host),
            ).map_values(f1),
        decreases keys.len() - i,
    {
        let ghost front = process_labels(nodes, keys@.take(i as int), opt_text(*host));
        let ghost next = process_labels(nodes, keys@.take(i + 1), opt_text(*host));
        proof {
            assert(keys@.take(i + 1).drop_last() =~= keys@.take(i as int));
            assert(keys@.take(i + 1).last() == keys@[i as int]);
            assert(keys@.to_set().contains(keys@[i as int]));
        }
        if let Some(node) = fx_get(&tree.nodes, &keys[i]) {
            assert(nodes[keys@[i as int]] == node@);
            let here = match host {
                Some(h) => same_text(node.computer.as_str(), h.as_str()),
                None => true,
            };
            if here && !node.is_synthetic {
                let ghost users_before = users@;
                let ghost levels_before = levels@;
                let user = owned_or(&node.user, "(unknown)");
                let level = owned_or(&node.integrity_level, "(unknown)");
                let ghost u = user@;
                let ghost l = level@;
                users.push(user);
                levels.push(level);
                proof {
                    assert(texts(users@) =~= texts(users_before).push(u));
                    assert(texts(levels@) =~= texts(levels_before).push(l));
                    assert(texts(users@) =~= next.map_values(f0));
                    assert(texts(levels@) =~= next.map_values(f1));
                }
            }
        }
        i += 1;
    }
    proof {
        assert(keys@.take(keys@.len() as int) =~= keys@);
        assert(nodes.dom() =~= tree.nodes@.dom());
        assert(lists_nodes(nodes, keys@));
    }
    (users, levels)
}

impl AppState {
    /// The statistics of the log, over the selected host where there is one.
    pub fn stats(&self) -> (s: Stats)
        requires
            self.wf(),
        ensures
            s.total_events == self.event_store.events@.len(),
            s.of_events(
                events_on(self.event_store.events@, opt_text(self.selected_host), self.rodeo),
            ),
            exists|keys: Seq<ProcessGuid>| #[trigger]
                lists_nodes(self.process_tree@.nodes, keys) && s.of_processes(
                    process_labels(
                        self.process_tree@.nodes,
                        keys,
                        opt_text(self.selected_host),
                    ),
                ),
    {
        let (times, ids, hosts) = collect_events(
            &self.event_store.events,
            &self.selected_host,
            &self.rodeo,
        );
        let (users, levels) = collect_labels(&self.process_tree, &self.selected_host);
        let span = span_of_times(&times);
        let type_counts = tally_numbers(&ids);
        let host_counts = tally_texts(&hosts);
        let user_counts = tally_texts(&users);
        let integrity_counts = tally_texts(&levels);
        let s = Stats {
            events: times.len(),
            total_events: self.event_store.len(),
            processes: users.len(),
            span,
            duration: span_length(&span),
            type_order: top(&number_numbers(&type_counts), 20),
            type_counts,
            host_order: rank_by_count(&text_numbers(&host_counts)),
            host_counts,
            user_order: top(&text_numbers(&user_counts), 12),
            user_counts,
            integrity_order: order_levels(&integrity_counts),
            integrity_counts,
        };
        proof {
            let keys = choose|keys: Seq<ProcessGuid>| #[trigger]
                lists_nodes(self.process_tree@.nodes, keys) && texts(users@) == process_labels(
                    self.process_tree@.nodes,
                    keys,
                    opt_text(self.selected_host),
                ).map_values(|l: (Seq<char>, Seq<char>)| l.0) && texts(levels@) == process_labels(
                    self.process_tree@.nodes,
                    keys,
                    opt_text(self.selected_host),
                ).map_values(|l: (Seq<char>, Seq<char>)| l.1);
            let labels = process_labels(
                self.process_tree@.nodes,
                keys,
                opt_text(self.selected_host),
            );
            assert(texts(users@).len() == labels.len());
            assert(s.of_processes(labels));
        }
        s
    }
}

} // verus!
