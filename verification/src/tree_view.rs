//! The process tree as it is shown: which processes pass the filters, and what
//! their rows say.

use crate::event::SysmonEvent;
use crate::event_store::{law_positions_are_exact, Group};
use crate::fxmap::{fx_insert, fx_keys, fx_new};
use crate::guid::{has_guid, ProcessGuid};
use crate::numbers::{pid_or, pid_text};
use crate::panels::{in_range, within};
use crate::process_tree::{ProcessNode, ProcessText, ProcessTree};
use crate::sets::{guid_in, has_text, GuidSet};
use crate::state::{AppState, SpecialFilter};
use crate::text::{
    contains, lowercase, occurs_in, same_text, str_or, text_or, texts, to_lowercase,
};
use vstd::prelude::*;

verus! {

// ---------------------------------------------------------------------------
// Filtering a process
// ---------------------------------------------------------------------------

/// Whether a process has one of the chosen integrity levels.
pub open spec fn integrity_fits(f: SpecialFilter, n: ProcessText) -> bool {
    let level = lowercase(text_or(n.integrity_level, ""@));
    ||| f.integrity_system && level == "system"@
    ||| f.integrity_high && level == "high"@
    ||| f.integrity_medium && level == "medium"@
    ||| f.integrity_low && level == "low"@
}

/// Whether one of the events of a process refers to a chosen technique.
pub open spec fn technique_fits(events: Seq<SysmonEvent>, g: ProcessGuid, chosen: Seq<Seq<char>>) -> bool {
    exists|i: int|
        0 <= i < events.len() && (#[trigger] events[i]).process_guid == Some(g)
            && chosen_technique(events[i], chosen)
}

/// Whether an event refers to a chosen technique.
pub open spec fn chosen_technique(e: SysmonEvent, chosen: Seq<Seq<char>>) -> bool {
    e.mitre_technique matches Some(m) && chosen.contains(m.id@)
}

impl AppState {
    /// Whether the time filter narrows the tree.
    pub open spec fn by_time(&self) -> bool {
        self.time_filter_active && self.time_range_filter is Some
    }

    /// Whether a process passes every filter category that is active. Processes
    /// that are not in the tree pass.
    pub open spec fn node_passes(&self, g: ProcessGuid) -> bool {
        let f = self.special_filter;
        let n = self.process_tree@.nodes[g];
        self.process_tree@.nodes.contains_key(g) ==> {
            &&& f.by_integrity() ==> integrity_fits(f, n)
            &&& f.users_checked@.len() > 0 ==> texts(f.users_checked@).contains(
                text_or(n.user, ""@),
            )
            &&& f.network ==> self.network_processes@.contains_key(g)
            &&& f.persistence ==> self.persistence_processes@.contains_key(g)
            &&& self.mitre_filter@.len() > 0 ==> technique_fits(
                self.event_store.events@,
                g,
                texts(self.mitre_filter@),
            )
            &&& self.by_time() ==> !n.is_synthetic && within(self.time_range_filter, n.start_time)
        }
    }
}

/// Without active filters every process passes.
pub proof fn law_no_filter_hides_nothing(s: AppState, g: ProcessGuid)
    requires
        s.special_filter.cleared(),
        s.mitre_filter@.len() == 0,
        !s.time_filter_active,
    ensures
        s.node_passes(g),
{
}

/// Each category narrows on its own: where some categories are switched off and
/// the others stay as they are, every process that passed still passes.
pub proof fn law_switching_filters_off_hides_nothing(s: AppState, t: AppState, g: ProcessGuid)
    requires
        t.process_tree == s.process_tree,
        t.event_store == s.event_store,
        t.network_processes == s.network_processes,
        t.persistence_processes == s.persistence_processes,
        t.special_filter.by_integrity() ==> t.special_filter.integrity_system
            == s.special_filter.integrity_system && t.special_filter.integrity_high
            == s.special_filter.integrity_high && t.special_filter.integrity_medium
            == s.special_filter.integrity_medium && t.special_filter.integrity_low
            == s.special_filter.integrity_low,
        t.special_filter.users_checked@.len() > 0 ==> t.special_filter.users_checked
            == s.special_filter.users_checked,
        t.special_filter.network ==> s.special_filter.network,
        t.special_filter.persistence ==> s.special_filter.persistence,
        t.mitre_filter@.len() > 0 ==> t.mitre_filter == s.mitre_filter,
        t.by_time() ==> s.by_time() && t.time_range_filter == s.time_range_filter,
        s.node_passes(g),
    ensures
        t.node_passes(g),
{
}

/// Whether a process has one of the chosen integrity levels.
fn has_integrity(f: &SpecialFilter, node: &ProcessNode) -> (r: bool)
    ensures
        r == integrity_fits(*f, node@),
{
    let level = to_lowercase(str_or(&node.integrity_level, ""));
    (f.integrity_system && same_text(level.as_str(), "system")) || (f.integrity_high && same_text(
        level.as_str(),
        "high",
    )) || (f.integrity_medium && same_text(level.as_str(), "medium")) || (f.integrity_low
        && same_text(level.as_str(), "low"))
}

impl AppState {
    /// Whether one of the events of a process refers to a checked technique.
    fn has_technique(&self, guid: &ProcessGuid) -> (r: bool)
        requires
            self.event_store.wf(),
        ensures
            r == technique_fits(self.event_store.events@, *guid, texts(self.mitre_filter@)),
    {
        let ghost events = self.event_store.events@;
        let ghost chosen = texts(self.mitre_filter@);
        let at = self.event_store.events_for_process(guid);
        let total: usize = self.event_store.events.len();
        proof {
            law_positions_are_exact(events, Group::Process(*guid));
        }
        let mut i: usize = 0;
        while i < at.len()
            invariant
                i <= at.len(),
                events == self.event_store.events@,
                chosen == texts(self.mitre_filter@),
                forall|k: int|
                    0 <= k < at@.len() ==> (#[trigger] at@[k]) < events.len()
                        && events[at@[k] as int].process_guid == Some(*guid),
                forall|k: int|
                    0 <= k < i ==> !chosen_technique(events[(#[trigger] at@[k]) as int], chosen),
            decreases at.len() - i,
        {
            let k: usize = at[i];
            assert(at@[i as int] < events.len());
            if let Some(m) = &self.event_store.events[k].mitre_technique {
                if has_text(&self.mitre_filter, m.id.as_str()) {
                    assert(chosen_technique(events[k as int], chosen));
                    return true;
                }
            }
            i += 1;
        }
        proof {
            assert forall|k: int|
                0 <= k < events.len() && (#[trigger] events[k]).process_guid == Some(
                    *guid,
                ) implies !chosen_technique(events[k], chosen) by {
                assert(crate::event_store::belongs(events[k], Group::Process(*guid)));
                assert(at@.contains(k as usize));
                let j = choose|j: int| 0 <= j < at@.len() && at@[j] == k as usize;
                assert(!chosen_technique(events[at@[j] as int], chosen));
            }
        }
        false
    }

    /// Whether a process passes every filter category that is active.
    pub fn node_passes_event_filter(&self, guid: &ProcessGuid) -> (r: bool)
        requires
            self.event_store.wf(),
        ensures
            r == self.node_passes(*guid),
    {
        let f = &self.special_filter;
        let by_technique = self.mitre_filter.len() > 0;
        let by_time = self.time_filter_active && self.time_range_filter.is_some();
        if !f.any_active() && !by_technique && !by_time {
            return true;
        }
        let node = match self.process_tree.get(guid) {
            Some(n) => n,
            None => {
                return true;
            },
        };
        if f.any_integrity_active() && !has_integrity(f, node) {
            return false;
        }
        if f.users_checked.len() > 0 && !has_text(&f.users_checked, str_or(&node.user, "")) {
            return false;
        }
        if f.network && !guid_in(&self.network_processes, guid) {
            return false;
        }
        if f.persistence && !guid_in(&self.persistence_processes, guid) {
            return false;
        }
        if by_technique && !self.has_technique(guid) {
            return false;
        }
        if by_time && (node.is_synthetic || !in_range(&self.time_range_filter, &node.start_time)) {
            return false;
        }
        true
    }
}

// ---------------------------------------------------------------------------
// Descendants
// ---------------------------------------------------------------------------

/// Whether a process has a child.
pub open spec fn is_child(
    nodes: Map<ProcessGuid, ProcessText>,
    parent: ProcessGuid,
    child: ProcessGuid,
) -> bool {
    nodes.contains_key(parent) && nodes[parent].children.contains(child)
}

/// Whether each process of a list but the first is a child of the one before it.
pub open spec fn is_path(nodes: Map<ProcessGuid, ProcessText>, path: Seq<ProcessGuid>) -> bool
    decreases path.len(),
{
    if path.len() <= 1 {
        path.len() == 1
    } else {
        is_child(nodes, path.drop_last().last(), path.last()) && is_path(nodes, path.drop_last())
    }
}

/// Whether a process is another one or a descendant of it.
pub open spec fn is_below(
    nodes: Map<ProcessGuid, ProcessText>,
    top: ProcessGuid,
    g: ProcessGuid,
) -> bool {
    exists|path: Seq<ProcessGuid>| #[trigger]
        is_path(nodes, path) && path[0] == top && path.last() == g
}

/// Whether a process or one of its descendants passes a test.
pub open spec fn any_below(
    nodes: Map<ProcessGuid, ProcessText>,
    top: ProcessGuid,
    test: spec_fn(ProcessGuid) -> bool,
) -> bool {
    exists|g: ProcessGuid| #[trigger] is_below(nodes, top, g) && test(g)
}

/// A process is below itself, and a child of what is below is below.
proof fn lemma_below(
    nodes: Map<ProcessGuid, ProcessText>,
    top: ProcessGuid,
    g: ProcessGuid,
    child: ProcessGuid,
)
    ensures
        is_below(nodes, top, top),
        is_below(nodes, top, g) && is_child(nodes, g, child) ==> is_below(nodes, top, child),
{
    assert(is_path(nodes, seq![top]));
    if is_below(nodes, top, g) && is_child(nodes, g, child) {
        let path = choose|path: Seq<ProcessGuid>| #[trigger]
            is_path(nodes, path) && path[0] == top && path.last() == g;
        let longer = path.push(child);
        assert(longer.drop_last() =~= path);
        assert(is_path(nodes, longer));
    }
}

/// A set that is closed under children and holds the start of a path holds its
/// end.
proof fn lemma_closed(
    nodes: Map<ProcessGuid, ProcessText>,
    done: Set<ProcessGuid>,
    path: Seq<ProcessGuid>,
)
    requires
        is_path(nodes, path),
        done.contains(path[0]),
        forall|p: ProcessGuid, c: ProcessGuid|
            done.contains(p) && #[trigger] is_child(nodes, p, c) ==> done.contains(c),
    ensures
        done.contains(path.last()),
    decreases path.len(),
{
    if path.len() > 1 {
        lemma_closed(nodes, done, path.drop_last());
        assert(is_child(nodes, path.drop_last().last(), path.last()));
    }
}

/// A path with a parent of its start put in front.
proof fn lemma_path_from_parent(
    nodes: Map<ProcessGuid, ProcessText>,
    parent: ProcessGuid,
    path: Seq<ProcessGuid>,
)
    requires
        is_path(nodes, path),
        is_child(nodes, parent, path[0]),
    ensures
        is_path(nodes, seq![parent] + path),
    decreases path.len(),
{
    let longer = seq![parent] + path;
    assert(longer.drop_last() =~= seq![parent] + path.drop_last());
    if path.len() > 1 {
        lemma_path_from_parent(nodes, parent, path.drop_last());
    } else {
        assert(longer.drop_last() =~= seq![parent]);
        assert(is_path(nodes, seq![parent]));
        assert(longer.last() == path[0]);
        assert(longer.drop_last().last() == parent);
    }
}

/// What passes below a child passes below its parent.
pub proof fn law_parents_keep_their_matches(
    nodes: Map<ProcessGuid, ProcessText>,
    parent: ProcessGuid,
    child: ProcessGuid,
    test: spec_fn(ProcessGuid) -> bool,
)
    requires
        is_child(nodes, parent, child),
        any_below(nodes, child, test),
    ensures
        any_below(nodes, parent, test),
{
    let g = choose|g: ProcessGuid| #[trigger] is_below(nodes, child, g) && test(g);
    let path = choose|path: Seq<ProcessGuid>| #[trigger]
        is_path(nodes, path) && path[0] == child && path.last() == g;
    lemma_path_from_parent(nodes, parent, path);
    let longer = seq![parent] + path;
    assert(longer[0] == parent);
    assert(longer.last() == g);
    assert(is_below(nodes, parent, g));
}

/// Whether a process or one of its descendants passes a test. Every process is
/// looked at once, even where a log makes a process its own descendant.
fn search_below<F: Fn(ProcessGuid) -> bool>(
    tree: &ProcessTree,
    top: ProcessGuid,
    check: &F,
    Ghost(test): Ghost<spec_fn(ProcessGuid) -> bool>,
) -> (r: bool)
    requires
        forall|g: ProcessGuid| #[trigger] call_requires(check, (g,)),
        forall|g: ProcessGuid, b: bool| #[trigger]
            call_ensures(check, (g,), b) ==> b == test(g),
    ensures
        r == any_below(tree@.nodes, top, test),
{
    let ghost nodes = tree@.nodes;
    let count: usize = tree.len();
    let mut seen: GuidSet = fx_new();
    let mut waiting: Vec<ProcessGuid> = Vec::new();
    let ghost mut done: Set<ProcessGuid> = Set::empty();
    waiting.push(top);
    proof {
        lemma_below(nodes, top, top, top);
        assert(waiting@[0] == top);
    }
    while waiting.len() > 0
        invariant
            forall|g: ProcessGuid| #[trigger] call_requires(check, (g,)),
            forall|g: ProcessGuid, b: bool| #[trigger]
                call_ensures(check, (g,), b) ==> b == test(g),
            nodes == tree@.nodes,
            nodes.dom().finite(),
            forall|g: ProcessGuid| #[trigger]
                seen@.contains_key(g) <==> done.contains(g) && nodes.contains_key(g),
            done.contains(top) || waiting@.contains(top),
            forall|k: int| 0 <= k < waiting@.len() ==> is_below(nodes, top, #[trigger] waiting@[k]),
            forall|g: ProcessGuid| #[trigger] done.contains(g) ==> !test(g),
            forall|p: ProcessGuid, c: ProcessGuid|
                done.contains(p) && #[trigger] is_child(nodes, p, c) ==> done.contains(c)
                    || waiting@.contains(c),
        decreases nodes.dom().difference(seen@.dom()).len(), waiting@.len(),
    {
        let ghost before = waiting@;
        let ghost were_seen = seen@.dom();
        let ghost was_done = done;
        let g: ProcessGuid = match waiting.pop() {
            Some(g) => g,
            None => {
                return false;
            },
        };
        proof {
            assert(before.last() == g);
            assert(is_below(nodes, top, before[before.len() - 1]));
            assert forall|x: ProcessGuid| before.contains(x) && x != g implies waiting@.contains(
                x,
            ) by {
                let k = choose|k: int| 0 <= k < before.len() && before[k] == x;
                assert(waiting@[k] == x);
            }
        }
        if guid_in(&seen, &g) {
            continue;
        }
        if check(g) {
            return true;
        }
        proof {
            done = done.insert(g);
        }
        let ghost rest = waiting@;
        if let Some(node) = tree.get(&g) {
            fx_insert(&mut seen, g, ());
            let children: &Vec<ProcessGuid> = &node.children;
            let mut i: usize = 0;
            while i < children.len()
                invariant
                    i <= children.len(),
                    nodes.contains_key(g),
                    children@ == nodes[g].children,
                    is_below(nodes, top, g),
                    rest.len() <= waiting@.len(),
                    forall|k: int| 0 <= k < rest.len() ==> waiting@[k] == rest[k],
                    forall|k: int|
                        0 <= k < waiting@.len() ==> is_below(nodes, top, #[trigger] waiting@[k]),
                    forall|k: int| 0 <= k < i ==> waiting@.contains(#[trigger] children@[k]),
                decreases children.len() - i,
            {
                let ghost earlier = waiting@;
                waiting.push(children[i]);
                proof {
                    assert(is_child(nodes, g, children@[i as int]));
                    lemma_below(nodes, top, g, children@[i as int]);
                    assert(waiting@[earlier.len() as int] == children@[i as int]);
                    assert forall|x: ProcessGuid| earlier.contains(x) implies waiting@.contains(
                        x,
                    ) by {
                        let k = choose|k: int| 0 <= k < earlier.len() && earlier[k] == x;
                        assert(waiting@[k] == x);
                    }
                }
                i += 1;
            }
            proof {
                let gone = nodes.dom().difference(were_seen);
                assert(gone.contains(g));
                assert(nodes.dom().difference(seen@.dom()) =~= gone.remove(g));
                assert forall|c: ProcessGuid| #[trigger] is_child(nodes, g, c) implies waiting@.contains(
                    c,
                ) by {
                    let k = choose|k: int| 0 <= k < children@.len() && children@[k] == c;
                    assert(waiting@.contains(children@[k]));
                }
            }
        }
        proof {
            assert forall|x: ProcessGuid| rest.contains(x) implies waiting@.contains(x) by {
                let k = choose|k: int| 0 <= k < rest.len() && rest[k] == x;
                assert(waiting@[k] == x);
            }
            assert forall|p: ProcessGuid, c: ProcessGuid|
                done.contains(p) && #[trigger] is_child(nodes, p, c) implies done.contains(c)
                || waiting@.contains(c) by {
                if p != g {
                    assert(was_done.contains(p));
                }
            }
        }
    }
    proof {
        if any_below(nodes, top, test) {
            let g = choose|g: ProcessGuid| #[trigger] is_below(nodes, top, g) && test(g);
            let path = choose|path: Seq<ProcessGuid>| #[trigger]
                is_path(nodes, path) && path[0] == top && path.last() == g;
            lemma_closed(nodes, done, path);
        }
    }
    false
}

impl ProcessTree {
    /// A process and all of its descendants. Every process is taken up once, even
    /// where a log makes a process its own descendant.
    pub fn family(&self, guid: ProcessGuid) -> (found: GuidSet)
        ensures
            forall|g: ProcessGuid| #[trigger]
                found@.contains_key(g) <==> is_below(self@.nodes, guid, g),
    {
        let ghost nodes = self@.nodes;
        let count: usize = self.len();
        let mut found: GuidSet = fx_new();
        let mut waiting: Vec<ProcessGuid> = Vec::new();
        waiting.push(guid);
        proof {
            lemma_below(nodes, guid, guid, guid);
            assert(waiting@[0] == guid);
        }
        while waiting.len() > 0
            invariant
                nodes == self@.nodes,
                nodes.dom().finite(),
                found@.contains_key(guid) || waiting@.contains(guid),
                forall|k: int|
                    0 <= k < waiting@.len() ==> is_below(nodes, guid, #[trigger] waiting@[k]),
                forall|g: ProcessGuid| #[trigger]
                    found@.contains_key(g) ==> is_below(nodes, guid, g),
                forall|p: ProcessGuid, c: ProcessGuid|
                    found@.contains_key(p) && #[trigger] is_child(nodes, p, c)
                        ==> found@.contains_key(c) || waiting@.contains(c),
            decreases nodes.dom().difference(found@.dom()).len(), waiting@.len(),
        {
            let ghost before = waiting@;
            let ghost were_found = found@.dom();
            let g: ProcessGuid = match waiting.pop() {
                Some(g) => g,
                None => {
                    return found;
                },
            };
            proof {
                assert(before.last() == g);
                assert(is_below(nodes, guid, before[before.len() - 1]));
                assert forall|x: ProcessGuid| before.contains(x) && x != g implies waiting@.contains(
                    x,
                ) by {
                    let k = choose|k: int| 0 <= k < before.len() && before[k] == x;
                    assert(waiting@[k] == x);
                }
            }
            if guid_in(&found, &g) {
                continue;
            }
            fx_insert(&mut found, g, ());
            let ghost rest = waiting@;
            if let Some(node) = self.get(&g) {
                push_children(&mut waiting, &node.children);
                proof {
                    let gone = nodes.dom().difference(were_found);
                    assert(gone.contains(g));
                    assert(nodes.dom().difference(found@.dom()) =~= gone.remove(g));
                    assert forall|k: int| 0 <= k < waiting@.len() implies is_below(
                        nodes,
                        guid,
                        #[trigger] waiting@[k],
                    ) by {
                        if k >= rest.len() {
                            let c = node.children@[k - rest.len()];
                            assert(is_child(nodes, g, c));
                            lemma_below(nodes, guid, g, c);
                        } else {
                            assert(waiting@[k] == rest[k]);
                        }
                    }
                    assert forall|c: ProcessGuid| #[trigger] is_child(nodes, g, c) implies waiting@.contains(
                        c,
                    ) by {
                        let k = choose|k: int|
                            0 <= k < node.children@.len() && node.children@[k] == c;
                        assert(waiting@[rest.len() + k] == c);
                    }
                }
            } else {
                assert(nodes.dom().difference(found@.dom()) =~= nodes.dom().difference(
                    were_found,
                ));
            }
            proof {
                assert forall|x: ProcessGuid| rest.contains(x) implies waiting@.contains(x) by {
                    let k = choose|k: int| 0 <= k < rest.len() && rest[k] == x;
                    assert(waiting@[k] == x);
                }
                assert forall|p: ProcessGuid, c: ProcessGuid|
                    found@.contains_key(p) && #[trigger] is_child(nodes, p, c) implies found@.contains_key(
                    c,
                ) || waiting@.contains(c) by {
                    if p != g {
                        assert(were_found.contains(p));
                    }
                }
            }
        }
        proof {
            assert forall|g: ProcessGuid| is_below(nodes, guid, g) implies #[trigger] found@.contains_key(
                g,
            ) by {
                let path = choose|path: Seq<ProcessGuid>| #[trigger]
                    is_path(nodes, path) && path[0] == guid && path.last() == g;
                lemma_closed(nodes, found@.dom(), path);
            }
        }
        found
    }
}

/// Adds processes to a list.
fn push_children(list: &mut Vec<ProcessGuid>, children: &Vec<ProcessGuid>)
    ensures
        final(list)@ == old(list)@ + children@,
{
    let mut i: usize = 0;
    assert(list@ =~= list@ + children@.take(0));
    while i < children.len()
        invariant
            i <= children.len(),
            list@ == old(list)@ + children@.take(i as int),
        decreases children.len() - i,
    {
        list.push(children[i]);
        i += 1;
        assert(list@ =~= old(list)@ + children@.take(i as int));
    }
    assert(children@.take(children@.len() as int) =~= children@);
}

// ---------------------------------------------------------------------------
// Searching for text
// ---------------------------------------------------------------------------

/// Whether the file name, the command line, the user or the number of a process
/// holds a text. `unnamed` stands for a missing file name.
pub open spec fn text_matches(n: ProcessText, filter: Seq<char>, unnamed: Seq<char>) -> bool {
    ||| occurs_in(lowercase(text_or(n.image_name, unnamed)), filter)
    ||| occurs_in(lowercase(text_or(n.command_line, ""@)), filter)
    ||| occurs_in(lowercase(text_or(n.user, ""@)), filter)
    ||| occurs_in(pid_or(n.pid, ""@), filter)
}

/// Whether the file name, the command line, the user or the number of a process
/// holds a text.
fn node_matches(node: &ProcessNode, filter: &str, unnamed: &str) -> (r: bool)
    ensures
        r == text_matches(node@, filter@, unnamed@),
{
    contains(to_lowercase(str_or(&node.image_name, unnamed)).as_str(), filter) || contains(
        to_lowercase(str_or(&node.command_line, "")).as_str(),
        filter,
    ) || contains(to_lowercase(str_or(&node.user, "")).as_str(), filter) || contains(
        pid_text(node.pid, "").as_str(),
        filter,
    )
}

impl AppState {
    /// Whether a process in the tree matches a search text.
    pub open spec fn matches_text(&self, g: ProcessGuid, filter: Seq<char>) -> bool {
        self.process_tree@.nodes.contains_key(g) && text_matches(
            self.process_tree@.nodes[g],
            filter,
            ""@,
        )
    }

    /// Whether a process or one of its descendants matches a search text.
    pub open spec fn text_below(&self, g: ProcessGuid, filter: Seq<char>) -> bool {
        any_below(self.process_tree@.nodes, g, |x: ProcessGuid| self.matches_text(x, filter))
    }

    /// Whether a process or one of its descendants in the tree passes the
    /// filters.
    pub open spec fn passes_below(&self, g: ProcessGuid) -> bool {
        any_below(self.process_tree@.nodes, g, |x: ProcessGuid| self.node_passes(x))
    }

    /// Whether this node or any descendant passes the filters, so that ancestors
    /// of a match stay reachable.
    pub fn subtree_passes_event_filter(&self, guid: ProcessGuid) -> (r: bool)
        requires
            self.event_store.wf(),
        ensures
            r == self.passes_below(guid),
    {
        let ghost test = |x: ProcessGuid| self.node_passes(x);
        let check = |g: ProcessGuid| -> (b: bool)
            requires
                self.event_store.wf(),
            ensures
                b == self.node_passes(g),
            {
                self.node_passes_event_filter(&g)
            };
        search_below(&self.process_tree, guid, &check, Ghost(test))
    }

    /// Whether any node in the subtree of a process matches a search text, which
    /// is given in lower case.
    pub fn subtree_matches_filter(&self, guid: ProcessGuid, filter: &str) -> (r: bool)
        ensures
            r == self.text_below(guid, filter@),
    {
        let ghost test = |x: ProcessGuid| self.matches_text(x, filter@);
        let check = |g: ProcessGuid| -> (b: bool)
            ensures
                b == self.matches_text(g, filter@),
            {
                match self.process_tree.get(&g) {
                    Some(node) => node_matches(node, filter, ""),
                    None => false,
                }
            };
        search_below(&self.process_tree, guid, &check, Ghost(test))
    }

    /// Chooses every process for the timeline that matches the search text or has
    /// a descendant that does.
    pub fn check_all_for_timeline(&mut self)
        ensures
            forall|g: ProcessGuid| #[trigger]
                final(self).timeline_checked@.contains_key(g) <==> old(
                    self,
                ).timeline_checked@.contains_key(g) || (old(
                    self,
                ).process_tree@.nodes.contains_key(g) && (lowercase(
                    old(self).search_filter@,
                ).len() == 0 || old(self).text_below(g, lowercase(old(self).search_filter@)))),
            *final(self) == (AppState {
                timeline_checked: final(self).timeline_checked,
                ..*old(self)
            }),
    {
        let filter = to_lowercase(self.search_filter.as_str());
        let guids = fx_keys(&self.process_tree.nodes);
        let mut chosen: Vec<ProcessGuid> = Vec::new();
        let mut i: usize = 0;
        while i < guids.len()
            invariant
                i <= guids.len(),
                filter@ == lowercase(self.search_filter@),
                forall|g: ProcessGuid| #[trigger]
                    chosen@.contains(g) <==> exists|k: int|
                        0 <= k < i && (#[trigger] guids@[k]) == g && (filter@.len() == 0
                            || self.text_below(g, filter@)),
            decreases guids.len() - i,
        {
            let ghost before = chosen@;
            let take = filter.as_str().is_empty() || self.subtree_matches_filter(
                guids[i],
                filter.as_str(),
            );
            if take {
                chosen.push(guids[i]);
            }
            proof {
                assert forall|g: ProcessGuid| #[trigger]
                    chosen@.contains(g) <==> exists|k: int|
                        0 <= k < i + 1 && (#[trigger] guids@[k]) == g && (filter@.len() == 0
                            || self.text_below(g, filter@)) by {
                    if before.contains(g) {
                        let j = choose|j: int| 0 <= j < before.len() && before[j] == g;
                        assert(chosen@[j] == g);
                        let k = choose|k: int|
                            0 <= k < i && (#[trigger] guids@[k]) == g && (filter@.len() == 0
                                || self.text_below(g, filter@));
                        assert(guids@[k] == g);
                    }
                    if g == guids@[i as int] && take {
                        assert(chosen@[before.len() as int] == g);
                    }
                    if chosen@.contains(g) && !before.contains(g) {
                        let j = choose|j: int| 0 <= j < chosen@.len() && chosen@[j] == g;
                        if j < before.len() {
                            assert(before[j] == g);
                        }
                        assert(g == guids@[i as int]);
                    }
                    if exists|k: int|
                        0 <= k < i + 1 && (#[trigger] guids@[k]) == g && (filter@.len() == 0
                            || self.text_below(g, filter@)) {
                        let k = choose|k: int|
                            0 <= k < i + 1 && (#[trigger] guids@[k]) == g && (filter@.len() == 0
                                || self.text_below(g, filter@));
                        if k < i {
                            assert(guids@[k] == g);
                            assert(before.contains(g));
                        }
                    }
                }
            }
            i += 1;
        }
        let ghost start = *self;
        let mut k: usize = 0;
        while k < chosen.len()
            invariant
                k <= chosen.len(),
                *self == (AppState { timeline_checked: self.timeline_checked, ..start }),
                forall|g: ProcessGuid| #[trigger]
                    self.timeline_checked@.contains_key(g) <==> start.timeline_checked@.contains_key(
                        g,
                    ) || chosen@.take(k as int).contains(g),
            decreases chosen.len() - k,
        {
            let ghost before = self.timeline_checked@;
            let g: ProcessGuid = chosen[k];
            fx_insert(&mut self.timeline_checked, g, ());
            proof {
                let s = chosen@.take(k as int);
                let t = chosen@.take(k + 1);
                assert(t =~= s.push(g));
                assert forall|x: ProcessGuid| #[trigger]
                    self.timeline_checked@.contains_key(x) <==> start.timeline_checked@.contains_key(
                        x,
                    ) || t.contains(x) by {
                    if s.contains(x) {
                        let j = choose|j: int| 0 <= j < s.len() && s[j] == x;
                        assert(t[j] == x);
                    }
                    if x == g {
                        assert(t[k as int] == x);
                    }
                    if t.contains(x) && x != g {
                        let j = choose|j: int| 0 <= j < t.len() && t[j] == x;
                        assert(s[j] == x);
                    }
                    assert(before.contains_key(x) <==> start.timeline_checked@.contains_key(x)
                        || s.contains(x));
                }
            }
            k += 1;
        }
        proof {
            assert(chosen@.take(chosen@.len() as int) =~= chosen@);
            assert(start.process_tree@.nodes.dom() =~= start.process_tree.nodes@.dom());
            assert forall|g: ProcessGuid| #[trigger]
                self.timeline_checked@.contains_key(g) <==> start.timeline_checked@.contains_key(g)
                    || (start.process_tree@.nodes.contains_key(g) && (lowercase(
                    start.search_filter@,
                ).len() == 0 || start.text_below(g, lowercase(start.search_filter@)))) by {
                if chosen@.contains(g) {
                    let k = choose|k: int|
                        0 <= k < guids@.len() && (#[trigger] guids@[k]) == g && (filter@.len() == 0
                            || start.text_below(g, filter@));
                    assert(guids@.to_set().contains(guids@[k]));
                }
                if start.process_tree@.nodes.contains_key(g) {
                    assert(guids@.to_set().contains(g));
                    let k = choose|k: int| 0 <= k < guids@.len() && guids@[k] == g;
                    assert(guids@[k] == g);
                }
            }
        }
    }
}

// ---------------------------------------------------------------------------
// The visible processes, for moving the selection
// ---------------------------------------------------------------------------

impl AppState {
    /// Whether a node is on the selected host.
    pub open spec fn on_host(&self, n: ProcessText) -> bool {
        self.selected_host matches Some(host) ==> n.computer == host@
    }

    /// Whether a node is listed for moving the selection: on the selected host,
    /// matching the search text and passing the filters itself.
    pub open spec fn listed(&self, g: ProcessGuid) -> bool {
        let n = self.process_tree@.nodes[g];
        let filter = lowercase(self.search_filter@);
        &&& self.on_host(n)
        &&& filter.len() == 0 || text_matches(n, filter, "?"@)
        &&& self.node_passes(g)
    }
}

/// The listed processes from one on, in pre-order: the process itself, and below
/// it those of its children where it is open. `rest` are the processes not met on
/// the way, so that a process is not listed below itself.
pub open spec fn visible_from(
    s: AppState,
    open: Set<ProcessGuid>,
    g: ProcessGuid,
    rest: Set<ProcessGuid>,
) -> Seq<ProcessGuid>
    decreases rest.len(), 0nat,
{
    if !rest.finite() || !rest.contains(g) || !s.listed(g) {
        Seq::empty()
    } else if open.contains(g) {
        seq![g] + visible_all(s, open, s.process_tree@.nodes[g].children, rest.remove(g))
    } else {
        seq![g]
    }
}

/// The listed processes from each of a list on.
pub open spec fn visible_all(
    s: AppState,
    open: Set<ProcessGuid>,
    list: Seq<ProcessGuid>,
    rest: Set<ProcessGuid>,
) -> Seq<ProcessGuid>
    decreases rest.len(), list.len() + 1,
{
    if list.len() == 0 {
        Seq::empty()
    } else {
        visible_all(s, open, list.drop_last(), rest) + visible_from(s, open, list.last(), rest)
    }
}

/// What is visible from a process on is listed.
proof fn lemma_visible_from(
    s: AppState,
    open: Set<ProcessGuid>,
    g: ProcessGuid,
    rest: Set<ProcessGuid>,
    x: ProcessGuid,
)
    requires
        visible_from(s, open, g, rest).contains(x),
    ensures
        rest.contains(x),
        s.listed(x),
    decreases rest.len(), 0nat,
{
    if x != g {
        let below = visible_all(s, open, s.process_tree@.nodes[g].children, rest.remove(g));
        let k = choose|k: int|
            0 <= k < visible_from(s, open, g, rest).len() && visible_from(s, open, g, rest)[k] == x;
        assert(below[k - 1] == x);
        lemma_visible_all(s, open, s.process_tree@.nodes[g].children, rest.remove(g), x);
    }
}

/// What is visible from some processes on is listed.
proof fn lemma_visible_all(
    s: AppState,
    open: Set<ProcessGuid>,
    list: Seq<ProcessGuid>,
    rest: Set<ProcessGuid>,
    x: ProcessGuid,
)
    requires
        visible_all(s, open, list, rest).contains(x),
    ensures
        rest.contains(x),
        s.listed(x),
    decreases rest.len(), list.len() + 1,
{
    let all = visible_all(s, open, list, rest);
    let front = visible_all(s, open, list.drop_last(), rest);
    let last = visible_from(s, open, list.last(), rest);
    let k = choose|k: int| 0 <= k < all.len() && all[k] == x;
    if k < front.len() {
        assert(front[k] == x);
        lemma_visible_all(s, open, list.drop_last(), rest, x);
    } else {
        assert(last[k - front.len()] == x);
        lemma_visible_from(s, open, list.last(), rest, x);
    }
}

/// The arrow keys only ever reach processes of the tree that are on the host,
/// match the search text and pass the filters.
pub proof fn law_visible_processes_are_listed(s: AppState, open: Set<ProcessGuid>, g: ProcessGuid)
    requires
        s.visible(open).contains(g),
    ensures
        s.process_tree@.nodes.contains_key(g),
        s.listed(g),
{
    lemma_visible_all(s, open, s.process_tree@.roots, s.process_tree@.nodes.dom(), g);
}

impl AppState {
    /// The visible processes, in pre-order.
    pub open spec fn visible(&self, open: Set<ProcessGuid>) -> Seq<ProcessGuid> {
        visible_all(*self, open, self.process_tree@.roots, self.process_tree@.nodes.dom())
    }

    /// Whether a node is listed.
    fn is_listed(&self, guid: &ProcessGuid, node: &ProcessNode, filter: &str) -> (r: bool)
        requires
            self.event_store.wf(),
            filter@ == lowercase(self.search_filter@),
            self.process_tree@.nodes.contains_key(*guid),
            self.process_tree@.nodes[*guid] == node@,
        ensures
            r == self.listed(*guid),
    {
        if let Some(host) = &self.selected_host {
            if !same_text(node.computer.as_str(), host.as_str()) {
                return false;
            }
        }
        if !filter.is_empty() && !node_matches(node, filter, "?") {
            return false;
        }
        self.node_passes_event_filter(guid)
    }

    /// Adds the listed processes from one on, in pre-order.
    fn collect_visible_preorder(
        &self,
        open: &GuidSet,
        guid: ProcessGuid,
        filter: &str,
        path: &mut Vec<ProcessGuid>,
        out: &mut Vec<ProcessGuid>,
    )
        requires
            self.event_store.wf(),
            self.process_tree@.nodes.dom().finite(),
            filter@ == lowercase(self.search_filter@),
        ensures
            final(path)@ == old(path)@,
            final(out)@ == old(out)@ + visible_from(
                *self,
                open@.dom(),
                guid,
                self.process_tree@.nodes.dom().difference(old(path)@.to_set()),
            ),
        decreases
            self.process_tree@.nodes.dom().difference(old(path)@.to_set()).len(),
    {
        let ghost rest = self.process_tree@.nodes.dom().difference(path@.to_set());
        let ghost start = out@;
        let ghost way = path@;
        assert(start + Seq::<ProcessGuid>::empty() =~= start);
        let node = match self.process_tree.get(&guid) {
            Some(n) => n,
            None => {
                return;
            },
        };
        if has_guid(path, &guid) {
            assert(path@.to_set().contains(guid));
            return;
        }
        assert(!path@.to_set().contains(guid));
        if !self.is_listed(&guid, node, filter) {
            return;
        }
        out.push(guid);
        assert(out@ =~= start + seq![guid]);
        if guid_in(open, &guid) {
            let ghost inner = rest.remove(guid);
            let ghost head = out@;
            path.push(guid);
            proof {
                assert(path@.to_set() =~= way.to_set().insert(guid)) by {
                    assert forall|x: ProcessGuid|
                        path@.to_set().contains(x) <==> way.to_set().insert(guid).contains(x) by {
                        if way.contains(x) {
                            let k = choose|k: int| 0 <= k < way.len() && way[k] == x;
                            assert(path@[k] == x);
                        }
                        if x == guid {
                            assert(path@[way.len() as int] == x);
                        }
                        if path@.contains(x) && x != guid {
                            let k = choose|k: int| 0 <= k < path@.len() && path@[k] == x;
                            assert(way[k] == x);
                        }
                    }
                }
                assert(self.process_tree@.nodes.dom().difference(path@.to_set()) =~= inner);
            }
            let children: &Vec<ProcessGuid> = &node.children;
            let mut i: usize = 0;
            assert(children@.take(0) =~= Seq::empty());
            assert(head + Seq::<ProcessGuid>::empty() =~= head);
            while i < children.len()
                invariant
                    i <= children.len(),
                    self.event_store.wf(),
                    self.process_tree@.nodes.dom().finite(),
                    filter@ == lowercase(self.search_filter@),
                    way == old(path)@,
                    rest == self.process_tree@.nodes.dom().difference(way.to_set()),
                    path@ == way.push(guid),
                    inner == self.process_tree@.nodes.dom().difference(path@.to_set()),
                    inner.len() < rest.len(),
                    out@ == head + visible_all(
                        *self,
                        open@.dom(),
                        children@.take(i as int),
                        inner,
                    ),
                decreases children.len() - i,
            {
                assert(children@.take(i + 1).drop_last() =~= children@.take(i as int));
                assert(children@.take(i + 1).last() == children@[i as int]);
                self.collect_visible_preorder(open, children[i], filter, path, out);
                i += 1;
                assert(out@ =~= head + visible_all(
                    *self,
                    open@.dom(),
                    children@.take(i as int),
                    inner,
                ));
            }
            path.pop();
            proof {
                assert(path@ =~= way);
                assert(children@.take(children@.len() as int) =~= children@);
                assert(out@ =~= start + visible_from(*self, open@.dom(), guid, rest));
            }
        } else {
            assert(out@ =~= start + visible_from(*self, open@.dom(), guid, rest));
        }
    }

    /// The visible processes, in pre-order, where the processes of a set are open.
    pub fn compute_flat_visible(&self, open: &GuidSet) -> (out: Vec<ProcessGuid>)
        requires
            self.event_store.wf(),
        ensures
            out@ == self.visible(open@.dom()),
    {
        let count: usize = self.process_tree.len();
        let filter = to_lowercase(self.search_filter.as_str());
        let roots = self.process_tree.roots();
        let ghost rest = self.process_tree@.nodes.dom();
        let mut path: Vec<ProcessGuid> = Vec::new();
        let mut out: Vec<ProcessGuid> = Vec::new();
        let mut i: usize = 0;
        proof {
            assert(roots@.take(0) =~= Seq::empty());
            assert(rest.difference(path@.to_set()) =~= rest);
        }
        while i < roots.len()
            invariant
                i <= roots.len(),
                self.event_store.wf(),
                self.process_tree@.nodes.dom().finite(),
                filter@ == lowercase(self.search_filter@),
                path@ == Seq::<ProcessGuid>::empty(),
                rest == self.process_tree@.nodes.dom(),
                rest.difference(path@.to_set()) == rest,
                out@ == visible_all(*self, open@.dom(), roots@.take(i as int), rest),
            decreases roots.len() - i,
        {
            assert(roots@.take(i + 1).drop_last() =~= roots@.take(i as int));
            assert(roots@.take(i + 1).last() == roots@[i as int]);
            self.collect_visible_preorder(open, roots[i], filter.as_str(), &mut path, &mut out);
            i += 1;
        }
        assert(roots@.take(roots@.len() as int) =~= roots@);
        out
    }
}

} // verus!
