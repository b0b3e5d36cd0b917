//! Laws of the event store and of what is worked out from its events.

use crate::event::{EventDetail, EventText, SysmonEvent};
use crate::event_store::{belongs, law_positions_are_exact, positions, Group};
use crate::guid::ProcessGuid;
use crate::interner::{text_of, SharedRodeo};
use crate::laws::matching::lemma_occurs;
use crate::laws::tree::{is_after, law_an_end_is_noted, law_creation_fills_the_node};
use crate::loading::{
    days_of, hosts_of, networking, networks, persistence_patterns, persisting, persists,
    persists_at, spans, techniques_of, tree_after, users_of,
};
use crate::overview::{notes_of, noted, TechniqueNote};
use crate::panels::timeline::{is_timeline, law_timelines_are_complete};
use crate::process_tree::{well_formed, ProcessText, TreeText};
use crate::sets::{with_text, without_text};
use crate::sigma::matcher::{match_at, matches_of_rules, rule_matches, SigmaMatch};
use crate::sigma::rule::SigmaRule;
use crate::sigma::category_events;
use crate::tally::{occurrences, tallied_numbers, tallied_texts};
use crate::text::{lowercase, opt_text};
use crate::types::Timestamp;
use vstd::prelude::*;

verus! {

// ---------------------------------------------------------------------------
// Groups of events
// ---------------------------------------------------------------------------

/// Whether an event is aimed at a process: it starts a thread in it or opens it.
pub open spec fn aimed_at(e: SysmonEvent, p: ProcessGuid) -> bool {
    ||| (e.detail matches EventDetail::CreateRemoteThread { target_process_guid, .. }
        && target_process_guid == Some(p))
    ||| (e.detail matches EventDetail::ProcessAccess { target_process_guid, .. }
        && target_process_guid == Some(p))
}

/// The positions that the store gives for a process are those of the events with
/// its GUID, those for an event number of the events with that number, those for a
/// target of the events aimed at it, and those for a process and some numbers of
/// the events with both.
pub proof fn law_groups_are_told_by_the_events(
    events: Seq<SysmonEvent>,
    i: usize,
    p: ProcessGuid,
    id: u16,
    ids: Seq<u16>,
    set: Set<ProcessGuid>,
)
    requires
        events.len() <= usize::MAX,
        i < events.len(),
    ensures
        ({
            let e = events[i as int];
            let own = e.process_guid == Some(p);
            &&& positions(events, Group::Process(p)).contains(i) <==> own
            &&& positions(events, Group::Type(id)).contains(i) <==> e.event_id == id
            &&& positions(events, Group::Target(p)).contains(i) <==> aimed_at(e, p)
            &&& positions(events, Group::ProcessAndTypes(p, ids)).contains(i) <==> own
                && ids.contains(e.event_id)
            &&& positions(events, Group::TypesOrTarget(p, ids)).contains(i) <==> (own
                && ids.contains(e.event_id)) || aimed_at(e, p)
            &&& positions(events, Group::Processes(set)).contains(i) <==> e.process_guid is Some
                && set.contains(e.process_guid->Some_0)
        }),
{
    lemma_in_group(events, i, Group::Process(p));
    lemma_in_group(events, i, Group::Type(id));
    lemma_in_group(events, i, Group::Target(p));
    lemma_in_group(events, i, Group::ProcessAndTypes(p, ids));
    lemma_in_group(events, i, Group::TypesOrTarget(p, ids));
    lemma_in_group(events, i, Group::Processes(set));
}

proof fn lemma_in_group(events: Seq<SysmonEvent>, i: usize, g: Group)
    requires
        events.len() <= usize::MAX,
        i < events.len(),
    ensures
        positions(events, g).contains(i) <==> belongs(events[i as int], g),
{
    law_positions_are_exact(events, g);
    let q = positions(events, g);
    if q.contains(i) {
        let k = choose|k: int| 0 <= k < q.len() && q[k] == i;
        assert(belongs(events[q[k] as int], g));
    }
    if belongs(events[i as int], g) {
        assert(q.contains(i as int as usize));
    }
}

/// A new event stands behind the others in the groups that it belongs to, and
/// changes nothing in the rest.
pub proof fn law_new_events_come_last(events: Seq<SysmonEvent>, e: SysmonEvent, g: Group)
    ensures
        belongs(e, g) ==> positions(events.push(e), g) == positions(events, g).push(
            events.len() as usize,
        ),
        !belongs(e, g) ==> positions(events.push(e), g) == positions(events, g),
{
    assert(events.push(e).drop_last() =~= events);
}

// ---------------------------------------------------------------------------
// Matches
// ---------------------------------------------------------------------------

/// A rule and an event of its category that matches it are among the matches, with
/// the title, the number and the level of the rule and the position, the number,
/// the process and the time of the event. Events of other categories, and those
/// that do not match, are not.
pub proof fn law_matches_tell_rule_and_event(
    rules: Seq<SigmaRule>,
    events: Seq<SysmonEvent>,
    r: SharedRodeo,
    k: int,
    i: usize,
)
    requires
        events.len() <= usize::MAX,
        0 <= k < rules.len(),
        i < events.len(),
    ensures
        ({
            let (rule, e) = (rules[k], events[i as int]);
            let m = SigmaMatch {
                rule_title: rule.title@,
                rule_id: opt_text(rule.id),
                level: rule.level,
                event_index: i,
                event_id: e.event_id,
                process_guid: e.process_guid,
                timestamp: e.time_created,
            };
            &&& category_events(opt_text(rule.logsource.category)).contains(e.event_id)
                && rule_matches(rule, e.resolved(r)) ==> matches_of_rules(
                rules,
                events,
                r,
            ).contains(m)
            &&& !(category_events(opt_text(rule.logsource.category)).contains(e.event_id)
                && rule_matches(rule, e.resolved(r))) ==> !exists|n: int|
                {
                    &&& 0 <= n < matches_of_rules(seq![rule], events, r).len()
                    &&& (#[trigger] matches_of_rules(seq![rule], events, r)[n]).event_index == i
                }
        }),
{
    let (rule, e) = (rules[k], events[i as int]);
    let m = match_at(rule, events, i);
    crate::sigma::matcher::law_matches_are_exact(rules, events, r, m);
    if crate::sigma::matcher::hits(rule, e, r) {
        assert(crate::sigma::matcher::hits(rules[k], events[i as int], r));
        assert(m == match_at(rules[k], events, i as int as usize));
    } else {
        let one = seq![rule];
        let all = matches_of_rules(one, events, r);
        if exists|n: int| 0 <= n < all.len() && (#[trigger] all[n]).event_index == i {
            let n = choose|n: int| 0 <= n < all.len() && (#[trigger] all[n]).event_index == i;
            assert(all.contains(all[n]));
            crate::sigma::matcher::law_matches_are_exact(one, events, r, all[n]);
            let (a, b) = choose|a: int, b: int|
                0 <= a < one.len() && 0 <= b < events.len() && crate::sigma::matcher::hits(
                    #[trigger] one[a],
                    #[trigger] events[b],
                    r,
                ) && all[n] == match_at(one[a], events, b as usize);
            assert(one[a] == rule);
            assert(b == i);
        }
    }
}

// ---------------------------------------------------------------------------
// Loading
// ---------------------------------------------------------------------------

/// An event of number 1 is the creation of a process and one of number 5 its end:
/// the first leaves its process in the tree with what the event says, the second
/// its time as the end of a process that is known. No other event changes the tree.
pub proof fn law_events_change_the_tree_by_their_number(t: TreeText, e: EventText, g: ProcessGuid)
    requires
        well_formed(t),
        e.process_guid == Some(g),
    ensures
        e.event_id == 1 ==> {
            let n = tree_after(t, e).nodes[g];
            &&& tree_after(t, e).nodes.contains_key(g)
            &&& n.pid == e.process_id
            &&& n.image == e.image
            &&& n.start_time == e.time_created
            &&& n.computer == e.computer
            &&& !n.is_synthetic
        },
        e.event_id == 5 && t.nodes.contains_key(g) ==> {
            &&& tree_after(t, e).nodes[g].end_time == Some(e.time_created)
            &&& tree_after(t, e).nodes[g].start_time == t.nodes[g].start_time
        },
        e.event_id == 5 && !t.nodes.contains_key(g) ==> tree_after(t, e) == t,
        e.event_id != 1 && e.event_id != 5 ==> tree_after(t, e) == t,
{
    if e.event_id == 1 {
        law_creation_fills_the_node(t, e, g);
    }
    law_an_end_is_noted(t, g, e.time_created, e);
}

/// The span of a log holds the times of all events and begins and ends with one of
/// them; a log without events has none.
pub proof fn law_the_span_holds_all_events(
    events: Seq<SysmonEvent>,
    range: Option<(Timestamp, Timestamp)>,
    i: int,
)
    requires
        spans(events, range),
        0 <= i < events.len(),
    ensures
        range is Some,
        !is_after(range->Some_0.0, events[i].time_created),
        !is_after(events[i].time_created, range->Some_0.1),
        exists|k: int|
            0 <= k < events.len() && (#[trigger] events[k]).time_created == range->Some_0.0,
        exists|k: int|
            0 <= k < events.len() && (#[trigger] events[k]).time_created == range->Some_0.1,
        spans(Seq::empty(), None),
{
}

/// What is worked out from the events of a log names exactly what is in them: the
/// days on which there are events, the hosts they come from, the techniques they
/// refer to and the processes with network events, which are those of numbers 3
/// and 22.
pub proof fn law_summaries_name_what_is_there(
    events: Seq<SysmonEvent>,
    r: SharedRodeo,
    days: Seq<i64>,
    hosts: Seq<Seq<char>>,
    ids: Seq<Seq<char>>,
    set: Set<ProcessGuid>,
    i: int,
)
    requires
        0 <= i < events.len(),
        days_of(events, days),
        hosts_of(events, r, hosts),
        techniques_of(events, ids),
        networking(events, set),
    ensures
        exists|d: i64| #[trigger]
            days.contains(d) && d * 86_400 <= events[i].time_created.secs < (d + 1) * 86_400,
        hosts.contains(text_of(r, events[i].computer)),
        events[i].mitre_technique matches Some(m) ==> ids.contains(m.id@),
        events[i].process_guid matches Some(g) ==> ((events[i].event_id == 3 || events[i].event_id
            == 22) ==> set.contains(g)),
        forall|g: ProcessGuid|
            (forall|k: int|
                0 <= k < events.len() && (#[trigger] events[k]).process_guid == Some(g)
                    ==> events[k].event_id != 3 && events[k].event_id != 22)
                ==> !#[trigger] set.contains(g),
        forall|a: int, b: int| 0 <= a < b < days.len() ==> days[a] < days[b],
{
    let d = (events[i].time_created.secs as int / 86_400) as i64;
    assert(crate::state::day_of(events[i].time_created) == d);
    assert(days.contains(d));
    if let Some(m) = events[i].mitre_technique {
        assert(crate::loading::refers_to(events[i], m.id@));
    }
    if let Some(g) = events[i].process_guid {
        if events[i].event_id == 3 || events[i].event_id == 22 {
            assert(networks(events[i], g));
        }
    }
    assert forall|g: ProcessGuid|
        (forall|k: int|
            0 <= k < events.len() && (#[trigger] events[k]).process_guid == Some(g)
                ==> events[k].event_id != 3 && events[k].event_id != 22) implies !#[trigger] set.contains(
        g,
    ) by {
        if set.contains(g) {
            let k = choose|k: int| 0 <= k < events.len() && networks(#[trigger] events[k], g);
            assert(events[k].process_guid == Some(g));
        }
    }
}

/// The users that can be filtered by are those of the processes that were seen
/// themselves.
pub proof fn law_users_are_those_of_real_processes(
    nodes: Map<ProcessGuid, ProcessText>,
    users: Seq<Seq<char>>,
    user: Seq<char>,
)
    requires
        users_of(nodes, users),
    ensures
        forall|g: ProcessGuid|
            #[trigger] nodes.contains_key(g) && !nodes[g].is_synthetic && nodes[g].user is Some
                ==> users.contains(nodes[g].user->Some_0),
        users.contains(user) ==> exists|g: ProcessGuid|
            #[trigger] nodes.contains_key(g) && !nodes[g].is_synthetic && nodes[g].user == Some(user),
{
    assert forall|g: ProcessGuid|
        #[trigger] nodes.contains_key(g) && !nodes[g].is_synthetic && nodes[g].user is Some implies users.contains(
        nodes[g].user->Some_0,
    ) by {
        assert(crate::loading::runs_as(nodes[g], nodes[g].user->Some_0));
    }
}

/// The locations in which a change of the registry makes a program persist, in
/// letters of either case: those of the keys that start programs, services, tasks,
/// event consumers and the like.
pub proof fn law_persistence_has_its_places(path: Seq<char>, x: Seq<char>, y: Seq<char>)
    ensures
        ({
            let p = lowercase(path);
            &&& p == x + "\\currentversion\\run\\"@ + y ==> persists_at(path)
            &&& p == x + "\\currentversion\\runonce\\"@ + y ==> persists_at(path)
            &&& p == x + "\\currentcontrolset\\services\\"@ + y ==> persists_at(path)
            &&& p == x + "\\schedule\\taskcache\\"@ + y ==> persists_at(path)
            &&& p == x + "\\microsoft\\wbem\\"@ + y ==> persists_at(path)
            &&& p == x + "\\currentversion\\winlogon\\"@ + y ==> persists_at(path)
            &&& p == x + "\\currentversion\\windows\\appinit_dlls"@ + y ==> persists_at(path)
            &&& p == x + "\\currentversion\\explorer\\shell folders\\"@ + y ==> persists_at(path)
            &&& p == x + "\\startupapproved\\"@ + y ==> persists_at(path)
            &&& persistence_patterns().len() == 9
        }),
{
    let p = lowercase(path);
    let all = persistence_patterns();
    assert(all.len() == 9);
    lemma_place(path, x, y, 0);
    lemma_place(path, x, y, 1);
    lemma_place(path, x, y, 2);
    lemma_place(path, x, y, 3);
    lemma_place(path, x, y, 4);
    lemma_place(path, x, y, 5);
    lemma_place(path, x, y, 6);
    lemma_place(path, x, y, 7);
    lemma_place(path, x, y, 8);
}

proof fn lemma_place(path: Seq<char>, x: Seq<char>, y: Seq<char>, k: int)
    requires
        0 <= k < persistence_patterns().len(),
    ensures
        lowercase(path) == x + persistence_patterns()[k] + y ==> persists_at(path),
{
    lemma_occurs(lowercase(path), persistence_patterns()[k]);
}

/// A process touches persistence where it changes one of these places, in a registry
/// event of its own, or where it is one of the programs that schedule tasks.
pub proof fn law_persistence_is_by_registry_or_scheduler(
    events: Seq<SysmonEvent>,
    nodes: Map<ProcessGuid, ProcessText>,
    set: Set<ProcessGuid>,
    i: int,
    g: ProcessGuid,
)
    requires
        persisting(events, nodes, set),
    ensures
        0 <= i < events.len() && events[i].process_guid == Some(g) && 12 <= events[i].event_id <= 14
            && (events[i].detail matches EventDetail::RegistryEvent { target_object, .. }
            && target_object is Some && persists_at(target_object->Some_0@)) ==> set.contains(g),
        nodes.contains_key(g) && nodes[g].image_name is Some && (lowercase(
            nodes[g].image_name->Some_0,
        ) == "schtasks.exe"@ || lowercase(nodes[g].image_name->Some_0) == "at.exe"@)
            ==> set.contains(g),
        (forall|k: int|
            0 <= k < events.len() ==> (#[trigger] events[k]).process_guid != Some(g)
                || !(events[k].detail is RegistryEvent)) && (nodes.contains_key(g)
            ==> nodes[g].image_name is None) ==> !set.contains(g),
{
    if 0 <= i < events.len() && events[i].process_guid == Some(g) && 12 <= events[i].event_id <= 14
        && (events[i].detail matches EventDetail::RegistryEvent { target_object, .. }
        && target_object is Some && persists_at(target_object->Some_0@)) {
        assert(persists(events[i], g));
    }
    if set.contains(g) && (forall|k: int|
        0 <= k < events.len() ==> (#[trigger] events[k]).process_guid != Some(g)
            || !(events[k].detail is RegistryEvent)) && (nodes.contains_key(g)
        ==> nodes[g].image_name is None) {
        if exists|k: int| 0 <= k < events.len() && persists(#[trigger] events[k], g) {
            let k = choose|k: int| 0 <= k < events.len() && persists(#[trigger] events[k], g);
            assert(events[k].process_guid == Some(g));
        }
    }
}

// ---------------------------------------------------------------------------
// Techniques and timelines
// ---------------------------------------------------------------------------

/// Every technique that an event of a process refers to is noted with the number of
/// the event, and nothing else is.
pub proof fn law_all_techniques_are_noted(events: Seq<SysmonEvent>, at: Seq<usize>, k: int)
    ensures
        0 <= k < at.len() ==> (events[at[k] as int].mitre_technique matches Some(m) ==> noted(
            notes_of(events, at),
            events[at[k] as int].event_id,
            m.id@,
        )),
        forall|i: int|
            0 <= i < notes_of(events, at).len() ==> exists|j: int|
                {
                    &&& 0 <= j < at.len()
                    &&& events[(#[trigger] at[j]) as int].mitre_technique is Some
                    &&& (#[trigger] notes_of(events, at)[i]) == (TechniqueNote {
                        event_id: events[at[j] as int].event_id,
                        id: events[at[j] as int].mitre_technique->Some_0.id@,
                        name: events[at[j] as int].mitre_technique->Some_0.name@,
                    })
                },
    decreases at.len(),
{
    if at.len() > 0 {
        let f = at.drop_last();
        law_all_techniques_are_noted(events, f, k);
        let front = notes_of(events, f);
        let all = notes_of(events, at);
        let last = events[at.last() as int];
        assert(at[at.len() - 1] == at.last());
        assert forall|id: u16, t: Seq<char>| #[trigger] noted(front, id, t) implies noted(all, id, t) by {
            let i = choose|i: int|
                0 <= i < front.len() && (#[trigger] front[i]).event_id == id && front[i].id == t;
            assert(all[i] == front[i]);
        }
        if 0 <= k < at.len() {
            if k < f.len() {
                assert(f[k] == at[k]);
            } else if let Some(m) = last.mitre_technique {
                if !noted(front, last.event_id, m.id@) {
                    assert(all[front.len() as int].id == m.id@);
                }
            }
        }
        assert forall|i: int| 0 <= i < all.len() implies exists|j: int|
            {
                &&& 0 <= j < at.len()
                &&& events[(#[trigger] at[j]) as int].mitre_technique is Some
                &&& (#[trigger] all[i]) == (TechniqueNote {
                    event_id: events[at[j] as int].event_id,
                    id: events[at[j] as int].mitre_technique->Some_0.id@,
                    name: events[at[j] as int].mitre_technique->Some_0.name@,
                })
            } by {
            if i < front.len() {
                assert(all[i] == front[i]);
                let j = choose|j: int|
                    {
                        &&& 0 <= j < f.len()
                        &&& events[(#[trigger] f[j]) as int].mitre_technique is Some
                        &&& front[i] == (TechniqueNote {
                            event_id: events[f[j] as int].event_id,
                            id: events[f[j] as int].mitre_technique->Some_0.id@,
                            name: events[f[j] as int].mitre_technique->Some_0.name@,
                        })
                    };
                assert(at[j] == f[j]);
            } else {
                assert(all[i] == all.last());
            }
        }
    }
}

/// A timeline holds an event exactly where it belongs to one of the chosen
/// processes, and no event stands before one that happened earlier.
pub proof fn law_timelines_hold_the_chosen_processes(
    events: Seq<SysmonEvent>,
    chosen: Set<ProcessGuid>,
    out: Seq<usize>,
    p: usize,
    i: int,
    j: int,
)
    requires
        events.len() <= usize::MAX,
        is_timeline(events, chosen, out),
    ensures
        p < events.len() ==> (out.contains(p) <==> events[p as int].process_guid is Some
            && chosen.contains(events[p as int].process_guid->Some_0)),
        0 <= i < j < out.len() ==> !is_after(
            events[out[i] as int].time_created,
            events[out[j] as int].time_created,
        ),
{
    law_timelines_are_complete(events, chosen, out);
}

// ---------------------------------------------------------------------------
// Lists and counts
// ---------------------------------------------------------------------------

/// The number of times that a value occurs is its count among all values.
pub proof fn law_occurrences_are_counted<T>(s: Seq<T>, x: T)
    ensures
        occurrences(s, x) == s.to_multiset().count(x),
        occurrences(s, x) > 0 <==> s.contains(x),
    decreases s.len(),
{
    broadcast use vstd::seq_lib::group_to_multiset_ensures;

    if s.len() > 0 {
        let f = s.drop_last();
        law_occurrences_are_counted(f, x);
        assert(s =~= f.push(s.last()));
        assert(s.to_multiset() =~= f.to_multiset().insert(s.last()));
    }
}

/// A tally names every value of a list once, with the number of times that it
/// occurs, and no other.
pub proof fn law_tallies_name_every_value_once(
    counts: Seq<(u16, usize)>,
    list: Seq<u16>,
    words: Seq<(Seq<char>, usize)>,
    texts: Seq<Seq<char>>,
    i: int,
)
    ensures
        tallied_numbers(counts, list) && 0 <= i < counts.len() ==> {
            &&& list.contains(counts[i].0)
            &&& counts[i].1 == list.to_multiset().count(counts[i].0)
            &&& forall|j: int| 0 <= j < counts.len() && j != i ==> (#[trigger] counts[j]).0
                != counts[i].0
        },
        tallied_numbers(counts, list) ==> forall|n: u16| #[trigger]
            list.contains(n) ==> exists|j: int| 0 <= j < counts.len() && (#[trigger] counts[j]).0
                == n,
        tallied_texts(words, texts) && 0 <= i < words.len() ==> {
            &&& texts.contains(words[i].0)
            &&& words[i].1 == texts.to_multiset().count(words[i].0)
        },
        tallied_texts(words, texts) ==> forall|t: Seq<char>| #[trigger]
            texts.contains(t) ==> exists|j: int| 0 <= j < words.len() && (#[trigger] words[j]).0
                == t,
{
    if 0 <= i < counts.len() {
        law_occurrences_are_counted(list, counts[i].0);
        if tallied_numbers(counts, list) {
            assert forall|j: int| 0 <= j < counts.len() && j != i implies (#[trigger] counts[j]).0
                != counts[i].0 by {
                if j < i {
                    assert(counts[j].0 < counts[i].0);
                } else {
                    assert(counts[i].0 < counts[j].0);
                }
            }
        }
    }
    if 0 <= i < words.len() {
        law_occurrences_are_counted(texts, words[i].0);
    }
}

/// A text that is checked is in the list afterwards, one that is unchecked is not,
/// and the others are as they were.
pub proof fn law_checked_texts_are_in_the_list(s: Seq<Seq<char>>, t: Seq<char>, u: Seq<char>)
    ensures
        with_text(s, t).contains(t),
        !without_text(s, t).contains(t),
        u != t ==> with_text(s, t).contains(u) == s.contains(u),
        u != t ==> without_text(s, t).contains(u) == s.contains(u),
    decreases s.len(),
{
    let w = s.push(t);
    assert(w[s.len() as int] == t);
    assert(w.contains(t));
    if u != t {
        if s.contains(u) {
            let i = choose|i: int| 0 <= i < s.len() && s[i] == u;
            assert(w[i] == u);
        }
        if w.contains(u) {
            let i = choose|i: int| 0 <= i < w.len() && w[i] == u;
            assert(s[i] == u);
        }
    }
    if s.len() > 0 {
        let f = s.drop_last();
        law_checked_texts_are_in_the_list(f, t, u);
        let rf = without_text(f, t);
        let r = without_text(s, t);
        assert(s[s.len() - 1] == s.last());
        if r.contains(t) {
            let i = choose|i: int| 0 <= i < r.len() && r[i] == t;
            if i < rf.len() {
                assert(rf[i] == t);
            }
        }
        if u != t {
            if s.contains(u) {
                let i = choose|i: int| 0 <= i < s.len() && s[i] == u;
                if i < f.len() {
                    assert(f[i] == u);
                    let j = choose|j: int| 0 <= j < rf.len() && rf[j] == u;
                    assert(r[j] == u);
                } else {
                    assert(r[rf.len() as int] == u);
                }
            }
            if r.contains(u) {
                let i = choose|i: int| 0 <= i < r.len() && r[i] == u;
                if i < rf.len() {
                    assert(rf[i] == u);
                    let j = choose|j: int| 0 <= j < f.len() && f[j] == u;
                    assert(s[j] == u);
                }
            }
        }
    }
}

} // verus!
