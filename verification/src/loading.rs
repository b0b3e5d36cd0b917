//! Taking events in, and what is worked out once all of them are there.

use crate::event::{EventDetail, EventText, SysmonEvent};
use crate::event_store::{tallied, EventStore};
use crate::fxmap::{fx_get, fx_insert, fx_keys, fx_new};
use crate::guid::ProcessGuid;
use crate::interner::{resolve, text_of, SharedRodeo};
use crate::panels::TimeRange;
use crate::parser::{all_held, events_text};
use crate::process_tree::{
    created, finalised, law_creation_keeps_the_tree, law_termination_keeps_the_tree,
    lemma_created_nodes, terminated, well_formed, ProcessText, ProcessTree, TreeText,
};
use crate::sets::{
    add_number, add_text, ascending, ascending_texts, lemma_with_text, sorted_texts, GuidSet,
};
use crate::sigma::matcher::{evaluate_rules, matches_of_rules, matches_text, SigmaMatch};
use crate::sigma::rule::SigmaRule;
use crate::state::{day_number, day_of, AppState, FileMetadata, SpecialFilter};
use crate::text::{contains, lowercase, occurs_in, same_text, texts, to_lowercase};
use crate::types::Timestamp;
use vstd::prelude::*;

verus! {

// ---------------------------------------------------------------------------
// Taking events in
// ---------------------------------------------------------------------------

/// The tree after an event: creations and ends of processes change it.
pub open spec fn tree_after(t: TreeText, e: EventText) -> TreeText {
    if e.event_id == 1 {
        created(t, e)
    } else if e.event_id == 5 {
        match e.process_guid {
            Some(guid) => terminated(t, guid, e.time_created),
            None => t,
        }
    } else {
        t
    }
}

/// The tree after a number of events.
pub open spec fn tree_after_all(t: TreeText, events: Seq<EventText>) -> TreeText
    decreases events.len(),
{
    if events.len() == 0 {
        t
    } else {
        tree_after(tree_after_all(t, events.drop_last()), events.last())
    }
}

/// Taking events in by batches is the same as taking all of them in at once.
pub proof fn law_batches_do_not_matter(t: TreeText, a: Seq<EventText>, b: Seq<EventText>)
    ensures
        tree_after_all(tree_after_all(t, a), b) == tree_after_all(t, a + b),
    decreases b.len(),
{
    if b.len() == 0 {
        assert(a + b =~= a);
    } else {
        law_batches_do_not_matter(t, a, b.drop_last());
        assert((a + b).drop_last() =~= a + b.drop_last());
        assert((a + b).last() == b.last());
    }
}

/// An event takes no process out of the tree.
proof fn lemma_nodes_stay(t: TreeText, e: EventText, g: ProcessGuid)
    requires
        well_formed(t),
        t.nodes.contains_key(g),
    ensures
        tree_after(t, e).nodes.contains_key(g),
        well_formed(tree_after(t, e)),
{
    if e.event_id == 1 {
        law_creation_keeps_the_tree(t, e);
        lemma_created_nodes(t, e, g);
    } else if e.event_id == 5 {
        if let Some(p) = e.process_guid {
            law_termination_keeps_the_tree(t, p, e.time_created);
        }
    }
}

/// Whether the events create a process.
pub open spec fn creates(events: Seq<EventText>, g: ProcessGuid) -> bool {
    exists|i: int|
        0 <= i < events.len() && (#[trigger] events[i]).event_id == 1 && events[i].process_guid
            == Some(g)
}

/// Every process that the events create is in the tree, wherever among the events
/// its creation stands, and those that were there before stay.
pub proof fn law_created_processes_are_in_the_tree(
    t: TreeText,
    events: Seq<EventText>,
    g: ProcessGuid,
)
    requires
        well_formed(t),
        creates(events, g) || t.nodes.contains_key(g),
    ensures
        tree_after_all(t, events).nodes.contains_key(g),
        well_formed(tree_after_all(t, events)),
    decreases events.len(),
{
    if events.len() > 0 {
        let front = events.drop_last();
        let e = events.last();
        lemma_tree_stays_well_formed(t, front);
        let u = tree_after_all(t, front);
        if e.event_id == 1 && e.process_guid == Some(g) {
            law_creation_keeps_the_tree(u, e);
            lemma_created_nodes(u, e, g);
        } else {
            if creates(events, g) {
                let i = choose|i: int|
                    0 <= i < events.len() && (#[trigger] events[i]).event_id == 1
                        && events[i].process_guid == Some(g);
                assert(front[i] == events[i]);
                assert(creates(front, g));
            }
            law_created_processes_are_in_the_tree(t, front, g);
            lemma_nodes_stay(u, e, g);
        }
    }
}

/// Events keep the tree well formed.
proof fn lemma_tree_stays_well_formed(t: TreeText, events: Seq<EventText>)
    requires
        well_formed(t),
    ensures
        well_formed(tree_after_all(t, events)),
    decreases events.len(),
{
    if events.len() > 0 {
        lemma_tree_stays_well_formed(t, events.drop_last());
        let u = tree_after_all(t, events.drop_last());
        let e = events.last();
        if e.event_id == 1 {
            law_creation_keeps_the_tree(u, e);
        } else if e.event_id == 5 {
            if let Some(p) = e.process_guid {
                law_termination_keeps_the_tree(u, p, e.time_created);
            }
        }
    }
}

/// Other events than creations and ends of processes leave the tree alone.
pub proof fn law_other_events_leave_the_tree(t: TreeText, e: EventText)
    requires
        e.event_id != 1,
        e.event_id != 5,
    ensures
        tree_after(t, e) == t,
{
}

/// Takes an event into a store and a tree.
pub fn take_event(
    store: &mut EventStore,
    tree: &mut ProcessTree,
    rodeo: &SharedRodeo,
    event: SysmonEvent,
)
    requires
        old(store).wf(),
        old(tree).wf(),
        event.held_by(*rodeo),
    ensures
        final(store).wf(),
        final(tree).wf(),
        final(store).events@ == old(store).events@.push(event),
        final(tree)@ == tree_after(old(tree)@, event.resolved(*rodeo)),
{
    if event.event_id == 1 {
        tree.insert_process_create(&event, rodeo);
    } else if event.event_id == 5 {
        if let Some(guid) = event.process_guid {
            tree.update_process_terminate(guid, event.time_created);
        }
    }
    store.insert(event);
}

/// Takes events into a store and a tree, one by one.
pub fn take_events(
    store: &mut EventStore,
    tree: &mut ProcessTree,
    rodeo: &SharedRodeo,
    batch: Vec<SysmonEvent>,
)
    requires
        old(store).wf(),
        old(tree).wf(),
        all_held(batch@, *rodeo),
    ensures
        final(store).wf(),
        final(tree).wf(),
        final(store).events@ == old(store).events@ + batch@,
        final(tree)@ == tree_after_all(old(tree)@, events_text(batch@, *rodeo)),
{
    let ghost all = batch@;
    let ghost seen = events_text(all, *rodeo);
    assert(seen.take(0) =~= Seq::empty());
    assert(store.events@ + all.take(0) =~= store.events@);
    for event in it: batch.into_iter()
        invariant
            it.seq() == all,
            seen == events_text(all, *rodeo),
            all_held(all, *rodeo),
            store.wf(),
            tree.wf(),
            store.events@ == old(store).events@ + all.take(it.index()),
            tree@ == tree_after_all(old(tree)@, seen.take(it.index())),
    {
        let ghost i = it.index();
        proof {
            assert(event == all[i]);
            assert(all[i].held_by(*rodeo));
            assert(seen.take(i + 1).drop_last() =~= seen.take(i));
            assert(seen.take(i + 1).last() == event.resolved(*rodeo));
            assert(all.take(i + 1) =~= all.take(i).push(event));
        }
        take_event(store, tree, rodeo, event);
        assert(store.events@ =~= old(store).events@ + all.take(i + 1));
    }
    assert(all.take(all.len() as int) =~= all);
    assert(seen.take(seen.len() as int) =~= seen);
}

impl AppState {
    /// Whether the state is that of before with a batch of events taken into the
    /// store and the tree.
    pub open spec fn grown_from(
        &self,
        before: AppState,
        batch: Seq<SysmonEvent>,
        bytes_read: u64,
    ) -> bool {
        &&& self.event_store.events@ == before.event_store.events@ + batch
        &&& self.process_tree@ == tree_after_all(
            before.process_tree@,
            events_text(batch, before.rodeo),
        )
        &&& *self == (AppState {
            event_store: self.event_store,
            process_tree: self.process_tree,
            loading_progress: Some(bytes_read),
            ..before
        })
    }

    /// Takes a batch of events into the store and the tree, and notes how far the
    /// reading has come.
    pub fn take_in(&mut self, batch: Vec<SysmonEvent>, bytes_read: u64)
        requires
            old(self).wf(),
            all_held(batch@, old(self).rodeo),
        ensures
            final(self).wf(),
            final(self).grown_from(*old(self), batch@, bytes_read),
    {
        let ghost before = self.event_store.events@;
        let ghost added = batch@;
        take_events(&mut self.event_store, &mut self.process_tree, &self.rodeo, batch);
        self.loading_progress = Some(bytes_read);
        proof {
            let now = self.event_store.events@;
            assert forall|k: int| 0 <= k < now.len() implies (#[trigger] now[k]).held_by(
                self.rodeo,
            ) by {
                if k < before.len() {
                    assert(now[k] == before[k]);
                } else {
                    assert(now[k] == added[k - before.len()]);
                }
            }
        }
    }
}

// ---------------------------------------------------------------------------
// What is worked out of the events
// ---------------------------------------------------------------------------

/// Whether a span of time runs from the first to the last of the events; none
/// where there are no events.
pub open spec fn spans(events: Seq<SysmonEvent>, range: TimeRange) -> bool {
    match range {
        None => events.len() == 0,
        Some((first, last)) => {
            &&& exists|i: int| 0 <= i < events.len() && (#[trigger] events[i]).time_created == first
            &&& exists|i: int| 0 <= i < events.len() && (#[trigger] events[i]).time_created == last
            &&& forall|i: int|
                0 <= i < events.len() ==> !(#[trigger] events[i]).time_created.earlier(first)
                    && !last.earlier(events[i].time_created)
        },
    }
}

/// The times of the first and the last of the events.
pub fn time_span(events: &Vec<SysmonEvent>) -> (range: TimeRange)
    ensures
        spans(events@, range),
{
    if events.len() == 0 {
        return None;
    }
    let mut first: Timestamp = events[0].time_created;
    let mut last: Timestamp = events[0].time_created;
    let mut i: usize = 1;
    assert(events@[0].time_created == first);
    while i < events.len()
        invariant
            1 <= i <= events.len(),
            exists|k: int| 0 <= k < i && (#[trigger] events@[k]).time_created == first,
            exists|k: int| 0 <= k < i && (#[trigger] events@[k]).time_created == last,
            forall|k: int|
                0 <= k < i ==> !(#[trigger] events@[k]).time_created.earlier(first)
                    && !last.earlier(events@[k].time_created),
        decreases events.len() - i,
    {
        let t = events[i].time_created;
        if t.before(&first) {
            first = t;
        }
        if last.before(&t) {
            last = t;
        }
        assert(events@[i as int].time_created == t);
        i += 1;
    }
    Some((first, last))
}

/// Whether a list holds the days of the events, in ascending order.
pub open spec fn days_of(events: Seq<SysmonEvent>, days: Seq<i64>) -> bool {
    &&& ascending(days)
    &&& forall|d: i64| #[trigger]
        days.contains(d) <==> exists|i: int|
            0 <= i < events.len() && day_of((#[trigger] events[i]).time_created) == d
}

/// The days of the events, in ascending order.
pub fn event_days(events: &Vec<SysmonEvent>) -> (days: Vec<i64>)
    ensures
        days_of(events@, days@),
{
    let mut days: Vec<i64> = Vec::new();
    let mut i: usize = 0;
    while i < events.len()
        invariant
            i <= events.len(),
            ascending(days@),
            forall|d: i64| #[trigger]
                days@.contains(d) <==> exists|k: int|
                    0 <= k < i && day_of((#[trigger] events@[k]).time_created) == d,
        decreases events.len() - i,
    {
        let ghost before = days@;
        let day: i64 = day_number(&events[i].time_created);
        add_number(&mut days, day);
        proof {
            assert forall|d: i64| #[trigger]
                days@.contains(d) <==> exists|k: int|
                    0 <= k < i + 1 && day_of((#[trigger] events@[k]).time_created) == d by {
                if before.contains(d) {
                    let k = choose|k: int|
                        0 <= k < i && day_of((#[trigger] events@[k]).time_created) == d;
                    assert(day_of(events@[k].time_created) == d);
                }
                if d == day {
                    assert(day_of(events@[i as int].time_created) == d);
                }
                if exists|k: int|
                    0 <= k < i + 1 && day_of((#[trigger] events@[k]).time_created) == d {
                    let k = choose|k: int|
                        0 <= k < i + 1 && day_of((#[trigger] events@[k]).time_created) == d;
                    if k < i {
                        assert(before.contains(d));
                    }
                }
            }
        }
        i += 1;
    }
    days
}

/// Whether a list holds the hosts of the events, in ascending order.
pub open spec fn hosts_of(events: Seq<SysmonEvent>, r: SharedRodeo, hosts: Seq<Seq<char>>) -> bool {
    &&& ascending_texts(hosts)
    &&& forall|t: Seq<char>| #[trigger]
        hosts.contains(t) <==> exists|i: int|
            0 <= i < events.len() && text_of(r, (#[trigger] events[i]).computer) == t
}

/// The hosts of the events, in ascending order.
pub fn event_hosts(events: &Vec<SysmonEvent>, rodeo: &SharedRodeo) -> (hosts: Vec<String>)
    requires
        all_held(events@, *rodeo),
    ensures
        hosts_of(events@, *rodeo, texts(hosts@)),
{
    let mut found: Vec<String> = Vec::new();
    let mut i: usize = 0;
    assert(texts(found@) =~= Seq::empty());
    while i < events.len()
        invariant
            i <= events.len(),
            all_held(events@, *rodeo),
            texts(found@).no_duplicates(),
            forall|t: Seq<char>| #[trigger]
                texts(found@).contains(t) <==> exists|k: int|
                    0 <= k < i && text_of(*rodeo, (#[trigger] events@[k]).computer) == t,
        decreases events.len() - i,
    {
        let ghost before = texts(found@);
        assert(events@[i as int].held_by(*rodeo));
        let host = resolve(rodeo, &events[i].computer);
        add_text(&mut found, host);
        proof {
            lemma_with_text(before, host@);
            assert forall|t: Seq<char>| #[trigger]
                texts(found@).contains(t) <==> exists|k: int|
                    0 <= k < i + 1 && text_of(*rodeo, (#[trigger] events@[k]).computer) == t by {
                if before.contains(t) {
                    let k = choose|k: int|
                        0 <= k < i && text_of(*rodeo, (#[trigger] events@[k]).computer) == t;
                    assert(text_of(*rodeo, events@[k].computer) == t);
                }
                if t == host@ {
                    assert(text_of(*rodeo, events@[i as int].computer) == t);
                }
                if exists|k: int|
                    0 <= k < i + 1 && text_of(*rodeo, (#[trigger] events@[k]).computer) == t {
                    let k = choose|k: int|
                        0 <= k < i + 1 && text_of(*rodeo, (#[trigger] events@[k]).computer) == t;
                    if k < i {
                        assert(before.contains(t));
                    }
                }
            }
        }
        i += 1;
    }
    sorted_texts(&found)
}

/// Whether an event refers to a technique.
pub open spec fn refers_to(e: SysmonEvent, id: Seq<char>) -> bool {
    e.mitre_technique matches Some(m) && m.id@ == id
}

/// Whether a list holds the techniques that the events refer to, in ascending
/// order.
pub open spec fn techniques_of(events: Seq<SysmonEvent>, ids: Seq<Seq<char>>) -> bool {
    &&& ascending_texts(ids)
    &&& forall|t: Seq<char>| #[trigger]
        ids.contains(t) <==> exists|i: int| 0 <= i < events.len() && refers_to(#[trigger] events[i], t)
}

/// The techniques that the events refer to, in ascending order.
pub fn event_techniques(events: &Vec<SysmonEvent>) -> (ids: Vec<String>)
    ensures
        techniques_of(events@, texts(ids@)),
{
    let mut found: Vec<String> = Vec::new();
    let mut i: usize = 0;
    assert(texts(found@) =~= Seq::empty());
    while i < events.len()
        invariant
            i <= events.len(),
            texts(found@).no_duplicates(),
            forall|t: Seq<char>| #[trigger]
                texts(found@).contains(t) <==> exists|k: int|
                    0 <= k < i && refers_to(#[trigger] events@[k], t),
        decreases events.len() - i,
    {
        let ghost before = texts(found@);
        if let Some(m) = &events[i].mitre_technique {
            add_text(&mut found, m.id.as_str());
            proof {
                lemma_with_text(before, m.id@);
            }
        }
        proof {
            assert forall|t: Seq<char>| #[trigger]
                texts(found@).contains(t) <==> exists|k: int|
                    0 <= k < i + 1 && refers_to(#[trigger] events@[k], t) by {
                if before.contains(t) {
                    let k = choose|k: int| 0 <= k < i && refers_to(#[trigger] events@[k], t);
                    assert(refers_to(events@[k], t));
                }
                if refers_to(events@[i as int], t) {
                    assert(texts(found@).contains(t));
                }
                if exists|k: int| 0 <= k < i + 1 && refers_to(#[trigger] events@[k], t) {
                    let k = choose|k: int| 0 <= k < i + 1 && refers_to(#[trigger] events@[k], t);
                    if k < i {
                        assert(before.contains(t));
                    }
                }
            }
        }
        i += 1;
    }
    sorted_texts(&found)
}

// ---------------------------------------------------------------------------
// Processes that stand out
// ---------------------------------------------------------------------------

/// Whether an event is network activity of a process.
pub open spec fn networks(e: SysmonEvent, g: ProcessGuid) -> bool {
    (e.event_id == 3 || e.event_id == 22) && e.process_guid == Some(g)
}

/// Whether a set holds the processes with network activity.
pub open spec fn networking(events: Seq<SysmonEvent>, set: Set<ProcessGuid>) -> bool {
    forall|g: ProcessGuid| #[trigger]
        set.contains(g) <==> exists|i: int| 0 <= i < events.len() && networks(#[trigger] events[i], g)
}

/// The processes with network activity.
pub fn network_users(events: &Vec<SysmonEvent>) -> (set: GuidSet)
    ensures
        networking(events@, set@.dom()),
{
    let mut set: GuidSet = fx_new();
    let mut i: usize = 0;
    while i < events.len()
        invariant
            i <= events.len(),
            forall|g: ProcessGuid| #[trigger]
                set@.dom().contains(g) <==> exists|k: int|
                    0 <= k < i && networks(#[trigger] events@[k], g),
        decreases events.len() - i,
    {
        let ghost before = set@.dom();
        let e = &events[i];
        if e.event_id == 3 || e.event_id == 22 {
            if let Some(g) = e.process_guid {
                fx_insert(&mut set, g, ());
            }
        }
        proof {
            assert forall|g: ProcessGuid| #[trigger]
                set@.dom().contains(g) <==> exists|k: int|
                    0 <= k < i + 1 && networks(#[trigger] events@[k], g) by {
                if before.contains(g) {
                    let k = choose|k: int| 0 <= k < i && networks(#[trigger] events@[k], g);
                    assert(networks(events@[k], g));
                }
                if networks(events@[i as int], g) {
                    assert(set@.dom().contains(g));
                }
                if exists|k: int| 0 <= k < i + 1 && networks(#[trigger] events@[k], g) {
                    let k = choose|k: int| 0 <= k < i + 1 && networks(#[trigger] events@[k], g);
                    if k < i {
                        assert(before.contains(g));
                    }
                }
            }
        }
        i += 1;
    }
    set
}

/// The parts of registry paths from which programs are started again, in lower
/// case.
pub open spec fn persistence_patterns() -> Seq<Seq<char>> {
    seq![
        "\\currentversion\\run\\"@,
        "\\currentversion\\runonce\\"@,
        "\\currentcontrolset\\services\\"@,
        "\\schedule\\taskcache\\"@,
        "\\microsoft\\wbem\\"@,
        "\\currentversion\\winlogon\\"@,
        "\\currentversion\\windows\\appinit_dlls"@,
        "\\currentversion\\explorer\\shell folders\\"@,
        "\\startupapproved\\"@,
    ]
}

/// Whether a registry path is one from which programs are started again.
pub open spec fn persists_at(path: Seq<char>) -> bool {
    exists|k: int|
        0 <= k < persistence_patterns().len() && occurs_in(
            lowercase(path),
            #[trigger] persistence_patterns()[k],
        )
}

/// Whether a registry path is one from which programs are started again.
pub fn is_persistence_path(path: &str) -> (r: bool)
    ensures
        r == persists_at(path@),
{
    let lower = to_lowercase(path);
    let patterns: [&str; 9] = [
        "\\currentversion\\run\\",
        "\\currentversion\\runonce\\",
        "\\currentcontrolset\\services\\",
        "\\schedule\\taskcache\\",
        "\\microsoft\\wbem\\",
        "\\currentversion\\winlogon\\",
        "\\currentversion\\windows\\appinit_dlls",
        "\\currentversion\\explorer\\shell folders\\",
        "\\startupapproved\\",
    ];
    let ghost want = persistence_patterns();
    assert(crate::text::part_texts(patterns@) =~= want);
    let mut i: usize = 0;
    while i < 9
        invariant
            i <= 9,
            lower@ == lowercase(path@),
            want == persistence_patterns(),
            want.len() == 9,
            forall|k: int| 0 <= k < 9 ==> (#[trigger] patterns@[k])@ == want[k],
            forall|k: int| 0 <= k < i ==> !occurs_in(lower@, #[trigger] want[k]),
        decreases 9 - i,
    {
        assert(patterns@[i as int]@ == want[i as int]);
        if contains(lower.as_str(), patterns[i]) {
            return true;
        }
        i += 1;
    }
    false
}

/// Whether an event is a registry change of a process by which programs are
/// started again.
pub open spec fn persists(e: SysmonEvent, g: ProcessGuid) -> bool {
    &&& 12 <= e.event_id <= 14
    &&& e.process_guid == Some(g)
    &&& e.detail matches EventDetail::RegistryEvent { target_object: Some(path), .. } && persists_at(
        path@,
    )
}

/// Whether a process is one of the task schedulers.
pub open spec fn schedules(n: ProcessText) -> bool {
    n.image_name matches Some(name) && (lowercase(name) == "schtasks.exe"@ || lowercase(name)
        == "at.exe"@)
}

/// Whether a set holds the processes that see to it that programs are started
/// again: by registry changes or as task schedulers.
pub open spec fn persisting(
    events: Seq<SysmonEvent>,
    nodes: Map<ProcessGuid, ProcessText>,
    set: Set<ProcessGuid>,
) -> bool {
    forall|g: ProcessGuid| #[trigger]
        set.contains(g) <==> (exists|i: int|
            0 <= i < events.len() && persists(#[trigger] events[i], g)) || (nodes.contains_key(g)
            && schedules(nodes[g]))
}

/// Whether an event is a registry change by which programs are started again.
fn is_persistence_event(e: &SysmonEvent) -> (r: bool)
    ensures
        forall|g: ProcessGuid| #[trigger]
            persists(*e, g) <==> r && e.process_guid == Some(g),
{
    if e.event_id < 12 || e.event_id > 14 {
        return false;
    }
    match &e.detail {
        EventDetail::RegistryEvent { target_object: Some(path), .. } => is_persistence_path(
            path.as_str(),
        ),
        _ => false,
    }
}

/// The processes that make registry changes by which programs are started again.
fn registry_persisters(events: &Vec<SysmonEvent>) -> (set: GuidSet)
    ensures
        forall|g: ProcessGuid| #[trigger]
            set@.dom().contains(g) <==> exists|i: int|
                0 <= i < events@.len() && persists(#[trigger] events@[i], g),
{
    let mut set: GuidSet = fx_new();
    let mut i: usize = 0;
    while i < events.len()
        invariant
            i <= events.len(),
            forall|g: ProcessGuid| #[trigger]
                set@.dom().contains(g) <==> exists|k: int|
                    0 <= k < i && persists(#[trigger] events@[k], g),
        decreases events.len() - i,
    {
        let ghost before = set@.dom();
        let e = &events[i];
        if is_persistence_event(e) {
            if let Some(g) = e.process_guid {
                fx_insert(&mut set, g, ());
            }
        }
        proof {
            assert forall|g: ProcessGuid| #[trigger]
                set@.dom().contains(g) <==> exists|k: int|
                    0 <= k < i + 1 && persists(#[trigger] events@[k], g) by {
                if before.contains(g) {
                    let k = choose|k: int| 0 <= k < i && persists(#[trigger] events@[k], g);
                    assert(persists(events@[k], g));
                }
                if persists(events@[i as int], g) {
                    assert(set@.dom().contains(g));
                }
                if exists|k: int| 0 <= k < i + 1 && persists(#[trigger] events@[k], g) {
                    let k = choose|k: int| 0 <= k < i + 1 && persists(#[trigger] events@[k], g);
                    if k < i {
                        assert(before.contains(g));
                    }
                }
            }
        }
        i += 1;
    }
    set
}

/// The processes that see to it that programs are started again.
pub fn persistence_users(events: &Vec<SysmonEvent>, tree: &ProcessTree) -> (set: GuidSet)
    requires
        tree.wf(),
    ensures
        persisting(events@, tree@.nodes, set@.dom()),
{
    let mut set = registry_persisters(events);
    let ghost by_registry = set@.dom();
    let ghost nodes = tree@.nodes;
    let guids = fx_keys(&tree.nodes);
    let mut i: usize = 0;
    while i < guids.len()
        invariant
            i <= guids.len(),
            nodes == tree@.nodes,
            guids@.to_set() == tree.nodes@.dom(),
            forall|g: ProcessGuid| #[trigger]
                set@.dom().contains(g) <==> by_registry.contains(g) || (exists|k: int|
                    0 <= k < i && (#[trigger] guids@[k]) == g && schedules(nodes[g])),
        decreases guids.len() - i,
    {
        let ghost before = set@.dom();
        let guid: ProcessGuid = guids[i];
        proof {
            assert(guids@.to_set().contains(guids@[i as int]));
        }
        if let Some(node) = fx_get(&tree.nodes, &guid) {
            assert(nodes[guid] == node@);
            if let Some(name) = &node.image_name {
                let lower = to_lowercase(name.as_str());
                if same_text(lower.as_str(), "schtasks.exe") || same_text(lower.as_str(), "at.exe") {
                    fx_insert(&mut set, guid, ());
                }
            }
        }
        proof {
            assert(set@.dom() =~= if schedules(nodes[guid]) {
                before.insert(guid)
            } else {
                before
            });
            assert forall|g: ProcessGuid| #[trigger]
                set@.dom().contains(g) <==> by_registry.contains(g) || (exists|k: int|
                    0 <= k < i + 1 && (#[trigger] guids@[k]) == g && schedules(nodes[g])) by {
                if before.contains(g) && !by_registry.contains(g) {
                    let k = choose|k: int|
                        0 <= k < i && (#[trigger] guids@[k]) == g && schedules(nodes[g]);
                    assert(guids@[k] == g);
                }
                if g == guid && schedules(nodes[guid]) {
                    assert(guids@[i as int] == g);
                }
                if exists|k: int|
                    0 <= k < i + 1 && (#[trigger] guids@[k]) == g && schedules(nodes[g]) {
                    let k = choose|k: int|
                        0 <= k < i + 1 && (#[trigger] guids@[k]) == g && schedules(nodes[g]);
                    if k < i {
                        assert(guids@[k] == g);
                        assert(before.contains(g));
                    }
                }
            }
        }
        i += 1;
    }
    proof {
        assert(nodes.dom() =~= tree.nodes@.dom());
        assert forall|g: ProcessGuid| #[trigger]
            set@.dom().contains(g) <==> (exists|i: int|
                0 <= i < events@.len() && persists(#[trigger] events@[i], g)) || (
            nodes.contains_key(g) && schedules(nodes[g])) by {
            if nodes.contains_key(g) && schedules(nodes[g]) {
                assert(guids@.to_set().contains(g));
                let k = choose|k: int| 0 <= k < guids@.len() && guids@[k] == g;
                assert(guids@[k] == g);
            }
            if exists|k: int|
                0 <= k < guids@.len() && (#[trigger] guids@[k]) == g && schedules(nodes[g]) {
                assert(guids@.to_set().contains(g));
            }
        }
    }
    set
}

/// Whether a node is a real process of a user.
pub open spec fn runs_as(n: ProcessText, user: Seq<char>) -> bool {
    !n.is_synthetic && n.user == Some(user)
}

/// Whether a list holds the users of the real processes, in ascending order.
pub open spec fn users_of(nodes: Map<ProcessGuid, ProcessText>, users: Seq<Seq<char>>) -> bool {
    &&& ascending_texts(users)
    &&& forall|t: Seq<char>| #[trigger]
        users.contains(t) <==> exists|g: ProcessGuid| #[trigger]
            nodes.contains_key(g) && runs_as(nodes[g], t)
}

/// The users of the real processes, in ascending order.
pub fn process_users(tree: &ProcessTree) -> (users: Vec<String>)
    ensures
        users_of(tree@.nodes, texts(users@)),
{
    let ghost nodes = tree@.nodes;
    let guids = fx_keys(&tree.nodes);
    let mut found: Vec<String> = Vec::new();
    let mut i: usize = 0;
    assert(texts(found@) =~= Seq::empty());
    while i < guids.len()
        invariant
            i <= guids.len(),
            nodes == tree@.nodes,
            guids@.to_set() == tree.nodes@.dom(),
            texts(found@).no_duplicates(),
            forall|t: Seq<char>| #[trigger]
                texts(found@).contains(t) <==> exists|k: int|
                    0 <= k < i && runs_as(nodes[#[trigger] guids@[k]], t),
        decreases guids.len() - i,
    {
        let ghost before = texts(found@);
        let guid: ProcessGuid = guids[i];
        proof {
            assert(guids@.to_set().contains(guids@[i as int]));
        }
        if let Some(node) = fx_get(&tree.nodes, &guid) {
            assert(nodes[guid] == node@);
            if !node.is_synthetic {
                if let Some(user) = &node.user {
                    add_text(&mut found, user.as_str());
                    proof {
                        lemma_with_text(before, user@);
                    }
                }
            }
        }
        proof {
            assert forall|t: Seq<char>| #[trigger]
                texts(found@).contains(t) <==> exists|k: int|
                    0 <= k < i + 1 && runs_as(nodes[#[trigger] guids@[k]], t) by {
                if before.contains(t) {
                    let k = choose|k: int| 0 <= k < i && runs_as(nodes[#[trigger] guids@[k]], t);
                    assert(runs_as(nodes[guids@[k]], t));
                }
                if runs_as(nodes[guids@[i as int]], t) {
                    assert(texts(found@).contains(t));
                }
                if exists|k: int| 0 <= k < i + 1 && runs_as(nodes[#[trigger] guids@[k]], t) {
                    let k = choose|k: int|
                        0 <= k < i + 1 && runs_as(nodes[#[trigger] guids@[k]], t);
                    if k < i {
                        assert(before.contains(t));
                    }
                }
            }
        }
        i += 1;
    }
    proof {
        assert(nodes.dom() =~= tree.nodes@.dom());
        assert forall|t: Seq<char>| #[trigger]
            texts(found@).contains(t) <==> exists|g: ProcessGuid| #[trigger]
                nodes.contains_key(g) && runs_as(nodes[g], t) by {
            if texts(found@).contains(t) {
                let k = choose|k: int|
                    0 <= k < guids@.len() && runs_as(nodes[#[trigger] guids@[k]], t);
                assert(guids@.to_set().contains(guids@[k]));
                assert(nodes.contains_key(guids@[k]));
            }
            if exists|g: ProcessGuid| #[trigger] nodes.contains_key(g) && runs_as(nodes[g], t) {
                let g = choose|g: ProcessGuid| #[trigger]
                    nodes.contains_key(g) && runs_as(nodes[g], t);
                assert(guids@.to_set().contains(g));
                let k = choose|k: int| 0 <= k < guids@.len() && guids@[k] == g;
                assert(runs_as(nodes[guids@[k]], t));
            }
        }
    }
    sorted_texts(&found)
}

// ---------------------------------------------------------------------------
// Rule matches
// ---------------------------------------------------------------------------

/// Whether a set holds the processes of matches.
pub open spec fn matched(matches: Seq<SigmaMatch>, set: Set<ProcessGuid>) -> bool {
    forall|g: ProcessGuid| #[trigger]
        set.contains(g) <==> exists|i: int|
            0 <= i < matches.len() && (#[trigger] matches[i]).process_guid == Some(g)
}

/// The processes of matches.
fn matched_processes(matches: &Vec<SigmaMatch>) -> (set: GuidSet)
    ensures
        matched(matches@, set@.dom()),
{
    let mut set: GuidSet = fx_new();
    let mut i: usize = 0;
    while i < matches.len()
        invariant
            i <= matches.len(),
            forall|g: ProcessGuid| #[trigger]
                set@.dom().contains(g) <==> exists|k: int|
                    0 <= k < i && (#[trigger] matches@[k]).process_guid == Some(g),
        decreases matches.len() - i,
    {
        let ghost before = set@.dom();
        if let Some(g) = matches[i].process_guid {
            fx_insert(&mut set, g, ());
        }
        proof {
            assert forall|g: ProcessGuid| #[trigger]
                set@.dom().contains(g) <==> exists|k: int|
                    0 <= k < i + 1 && (#[trigger] matches@[k]).process_guid == Some(g) by {
                if before.contains(g) {
                    let k = choose|k: int|
                        0 <= k < i && (#[trigger] matches@[k]).process_guid == Some(g);
                    assert(matches@[k].process_guid == Some(g));
                }
                if matches@[i as int].process_guid == Some(g) {
                    assert(set@.dom().contains(g));
                }
                if exists|k: int|
                    0 <= k < i + 1 && (#[trigger] matches@[k]).process_guid == Some(g) {
                    let k = choose|k: int|
                        0 <= k < i + 1 && (#[trigger] matches@[k]).process_guid == Some(g);
                    if k < i {
                        assert(before.contains(g));
                    }
                }
            }
        }
        i += 1;
    }
    set
}

impl AppState {
    /// Whether the matches are those of the rules among the events.
    pub open spec fn rules_applied(&self) -> bool {
        &&& matches_text(self.sigma_matches@) == matches_of_rules(
            self.sigma_rules@,
            self.event_store.events@,
            self.rodeo,
        )
        &&& matched(self.sigma_matches@, self.sigma_match_guids@.dom())
    }

    /// Applies the rules to the events.
    pub fn apply_rules(&mut self)
        requires
            old(self).wf(),
        ensures
            final(self).wf(),
            final(self).rules_applied(),
            *final(self) == (AppState {
                sigma_matches: final(self).sigma_matches,
                sigma_match_guids: final(self).sigma_match_guids,
                ..*old(self)
            }),
    {
        self.sigma_matches = evaluate_rules(
            self.sigma_rules.as_slice(),
            &self.event_store,
            &self.rodeo,
        );
        self.sigma_match_guids = matched_processes(&self.sigma_matches);
    }

    /// Adds rules to those that are there, and applies all of them where a log has
    /// been loaded.
    pub fn load_rules(&mut self, rules: Vec<SigmaRule>)
        requires
            old(self).wf(),
        ensures
            final(self).wf(),
            final(self).sigma_rules@ == old(self).sigma_rules@ + rules@,
            old(self).file_metadata is Some ==> final(self).rules_applied(),
            old(self).file_metadata is None ==> *final(self) == (AppState {
                sigma_rules: final(self).sigma_rules,
                ..*old(self)
            }),
            *final(self) == (AppState {
                sigma_rules: final(self).sigma_rules,
                sigma_matches: final(self).sigma_matches,
                sigma_match_guids: final(self).sigma_match_guids,
                ..*old(self)
            }),
    {
        let mut added = rules;
        self.sigma_rules.append(&mut added);
        if self.file_metadata.is_some() {
            self.apply_rules();
        }
    }

    /// Drops all rules and their matches.
    pub fn clear_rules(&mut self)
        ensures
            final(self).sigma_rules@.len() == 0,
            final(self).sigma_matches@.len() == 0,
            final(self).sigma_match_guids@.dom() == Set::<ProcessGuid>::empty(),
            *final(self) == (AppState {
                sigma_rules: final(self).sigma_rules,
                sigma_matches: final(self).sigma_matches,
                sigma_match_guids: final(self).sigma_match_guids,
                ..*old(self)
            }),
    {
        self.sigma_rules = Vec::new();
        self.sigma_matches = Vec::new();
        self.sigma_match_guids = fx_new();
    }
}

// ---------------------------------------------------------------------------
// After loading
// ---------------------------------------------------------------------------

/// Whether metadata describes a log.
pub open spec fn describes(
    m: FileMetadata,
    path: Seq<char>,
    events: Seq<SysmonEvent>,
    tree: TreeText,
    r: SharedRodeo,
) -> bool {
    &&& m.path@ == path
    &&& m.total_records == events.len()
    &&& m.unique_processes == tree.nodes.dom().len()
    &&& tallied(m.event_type_counts@, events)
    &&& spans(events, m.time_range)
    &&& hosts_of(events, r, texts(m.computer_names@))
}

impl AppState {
    /// Whether everything that is worked out of a log agrees with it, and nothing
    /// is filtered by it.
    pub open spec fn summarised(&self, path: Seq<char>) -> bool {
        let events = self.event_store.events@;
        &&& self.file_metadata matches Some(m) && describes(
            m,
            path,
            events,
            self.process_tree@,
            self.rodeo,
        )
        &&& days_of(events, self.available_dates@)
        &&& techniques_of(events, texts(self.available_mitre@))
        &&& networking(events, self.network_processes@.dom())
        &&& persisting(events, self.process_tree@.nodes, self.persistence_processes@.dom())
        &&& users_of(self.process_tree@.nodes, texts(self.available_users@))
        &&& self.rules_applied()
        &&& !self.time_filter_active
        &&& self.time_filter_from_date_idx == 0
        &&& self.time_filter_from_hm == (0u32, 0u32)
        &&& self.time_filter_to_date_idx == crate::state::clamped(
            usize::MAX,
            self.available_dates@.len() as int,
        )
        &&& self.time_filter_to_hm == (23u32, 59u32)
        &&& self.time_range_filter is None
        &&& self.mitre_filter@.len() == 0
        &&& self.special_filter.cleared()
    }

    /// The metadata of a log.
    fn metadata(&self, path: &str) -> (m: FileMetadata)
        requires
            self.wf(),
        ensures
            describes(m, path@, self.event_store.events@, self.process_tree@, self.rodeo),
    {
        FileMetadata {
            path: path.to_owned(),
            total_records: self.event_store.len() as u64,
            unique_processes: self.process_tree.len(),
            event_type_counts: self.event_store.event_type_counts(),
            time_range: time_span(&self.event_store.events),
            computer_names: event_hosts(&self.event_store.events, &self.rodeo),
        }
    }

    /// Works out what the panels and the filters need, once all events are there.
    pub fn compute_file_metadata(&mut self, path: &str)
        requires
            old(self).wf(),
        ensures
            final(self).wf(),
            final(self).summarised(path@),
            *final(self) == (AppState {
                file_metadata: final(self).file_metadata,
                available_dates: final(self).available_dates,
                time_filter_active: false,
                time_filter_from_date_idx: 0,
                time_filter_from_hm: (0, 0),
                time_filter_to_date_idx: final(self).time_filter_to_date_idx,
                time_filter_to_hm: (23, 59),
                time_range_filter: None,
                sigma_matches: final(self).sigma_matches,
                sigma_match_guids: final(self).sigma_match_guids,
                available_mitre: final(self).available_mitre,
                mitre_filter: final(self).mitre_filter,
                network_processes: final(self).network_processes,
                persistence_processes: final(self).persistence_processes,
                available_users: final(self).available_users,
                special_filter: final(self).special_filter,
                ..*old(self)
            }),
    {
        self.file_metadata = Some(self.metadata(path));
        self.available_dates = event_days(&self.event_store.events);
        self.time_filter_active = false;
        self.reset_time_filter();
        self.time_range_filter = None;
        self.apply_rules();
        self.available_mitre = event_techniques(&self.event_store.events);
        self.mitre_filter = Vec::new();
        self.network_processes = network_users(&self.event_store.events);
        self.persistence_processes = persistence_users(
            &self.event_store.events,
            &self.process_tree,
        );
        self.available_users = process_users(&self.process_tree);
        self.special_filter = SpecialFilter::default();
    }

    /// Whether the state is that of before with the loading ended: the tree is
    /// sorted, and what the panels and the filters need is worked out.
    pub open spec fn finished_from(&self, before: AppState, path: Seq<char>) -> bool {
        &&& finalised(before.process_tree@, self.process_tree@)
        &&& self.summarised(path)
        &&& *self == (AppState {
            process_tree: self.process_tree,
            loading_progress: None,
            file_metadata: self.file_metadata,
            available_dates: self.available_dates,
            time_filter_active: false,
            time_filter_from_date_idx: 0,
            time_filter_from_hm: (0, 0),
            time_filter_to_date_idx: self.time_filter_to_date_idx,
            time_filter_to_hm: (23, 59),
            time_range_filter: None,
            sigma_matches: self.sigma_matches,
            sigma_match_guids: self.sigma_match_guids,
            available_mitre: self.available_mitre,
            mitre_filter: self.mitre_filter,
            network_processes: self.network_processes,
            persistence_processes: self.persistence_processes,
            available_users: self.available_users,
            special_filter: self.special_filter,
            ..before
        })
    }

    /// Ends the loading: sorts the tree and works out what the panels and the
    /// filters need.
    pub fn finish_loading(&mut self, path: &str)
        requires
            old(self).wf(),
        ensures
            final(self).wf(),
            final(self).finished_from(*old(self), path@),
    {
        self.process_tree.finalise();
        self.loading_progress = None;
        self.compute_file_metadata(path);
    }
}

// ---------------------------------------------------------------------------
// Receiving what was read
// ---------------------------------------------------------------------------

/// The number of batches that are taken in for one frame of the window, so that
/// none takes too long.
pub const MAX_BATCHES_PER_FRAME: usize = 20;

/// What a look at the reading gives.
pub enum Arrival {
    /// A batch of events.
    Batch(Vec<SysmonEvent>),
    /// The reading came to its end, with a number of errors.
    Done { error_count: usize },
    /// Nothing new yet.
    Nothing,
    /// The reading broke off.
    Closed,
}

/// What to do after an arrival.
#[derive(Debug, Clone, Copy, PartialEq, Eq, Structural)]
pub enum Polling {
    /// Look again at once.
    Again,
    /// Look again for the next frame.
    Later,
    /// The log is loaded.
    Over,
}

impl AppState {
    /// Whether the state is that of before with an arrival dealt with, the one
    /// after `taken` batches for this frame, and what is to be done next.
    pub open spec fn received_from(
        &self,
        before: AppState,
        arrival: Arrival,
        taken: usize,
        bytes_read: u64,
        path: Seq<char>,
        next: Polling,
    ) -> bool {
        match arrival {
            Arrival::Batch(batch) => {
                &&& self.grown_from(before, batch@, bytes_read)
                &&& next == if taken + 1 < MAX_BATCHES_PER_FRAME {
                    Polling::Again
                } else {
                    Polling::Later
                }
            },
            Arrival::Done { error_count } => {
                &&& self.finished_from(
                    AppState { parse_error_count: error_count, ..before },
                    path,
                )
                &&& next == Polling::Over
            },
            Arrival::Nothing => {
                &&& *self == (AppState { loading_progress: Some(bytes_read), ..before })
                &&& next == Polling::Later
            },
            Arrival::Closed => self.finished_from(before, path) && next == Polling::Over,
        }
    }

    /// Deals with what a look at the reading of a log gives. `taken` batches have
    /// been taken in for this frame before.
    pub fn receive(&mut self, arrival: Arrival, taken: usize, bytes_read: u64, path: &str) -> (next:
        Polling)
        requires
            old(self).wf(),
            taken < MAX_BATCHES_PER_FRAME,
            arrival matches Arrival::Batch(batch) ==> all_held(batch@, old(self).rodeo),
        ensures
            final(self).wf(),
            final(self).received_from(*old(self), arrival, taken, bytes_read, path@, next),
    {
        match arrival {
            Arrival::Batch(batch) => {
                self.take_in(batch, bytes_read);
                if taken + 1 < MAX_BATCHES_PER_FRAME {
                    Polling::Again
                } else {
                    Polling::Later
                }
            },
            Arrival::Done { error_count } => {
                self.parse_error_count = error_count;
                self.finish_loading(path);
                Polling::Over
            },
            Arrival::Nothing => {
                self.loading_progress = Some(bytes_read);
                Polling::Later
            },
            Arrival::Closed => {
                self.finish_loading(path);
                Polling::Over
            },
        }
    }
}

} // verus!
