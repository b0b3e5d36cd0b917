//! The rows of the process tree.

use crate::clock::{show_instant, shown_instant};
use crate::event::SysmonEvent;
use crate::event_store::{belongs, law_positions_are_exact, positions, Group};
use crate::guid::{digits_text, guid_hex, opt_guid_eq, ProcessGuid};
use crate::numbers::{pid_or, pid_text};
use crate::process_tree::{ProcessNode, ProcessText};
use crate::sets::guid_in;
use crate::state::AppState;
use crate::text::{
    contains, lowercase, occurs_in, owned_or, push_text, same_text, str_or, string_of, text_or,
    to_lowercase, to_uppercase, uppercase,
};
use crate::tree_view::{is_child, law_parents_keep_their_matches};
use vstd::prelude::*;

verus! {

/// How a row of the process tree is tinted.
#[derive(Debug, Clone, Copy, PartialEq, Eq, Structural)]
pub enum NodeShade {
    /// The process was inferred from a child.
    Synthetic,
    /// Other processes accessed the process or injected into it.
    InjectionTarget,
    /// The process runs as SYSTEM.
    System,
    /// The process has ended.
    Terminated,
    Normal,
}

/// A row of the process tree. `S` is how texts are held.
pub struct TreeRow<S = String> {
    /// The name and number of the process, behind the marks that it has.
    pub label: S,
    pub shade: NodeShade,
    pub image: S,
    pub command_line: S,
    pub user: S,
    pub started: S,
    /// The identifier of the process as 32 digits.
    pub guid: S,
    pub is_selected: bool,
    /// Whether the process is chosen for the timeline.
    pub is_checked: bool,
}

impl TreeRow {
    /// The row as text.
    pub open spec fn view(&self) -> TreeRow<Seq<char>> {
        TreeRow {
            label: self.label@,
            shade: self.shade,
            image: self.image@,
            command_line: self.command_line@,
            user: self.user@,
            started: self.started@,
            guid: self.guid@,
            is_selected: self.is_selected,
            is_checked: self.is_checked,
        }
    }
}

/// What is shown for a process of the tree. `S` is how texts are held and `L` how
/// lists of processes are.
pub enum TreeStep<S = String, L = Vec<ProcessGuid>> {
    /// Neither the process nor anything below it.
    Hidden,
    /// No row for the process itself, but what is below it.
    Through { children: L },
    /// A row, and what is below it where it is open.
    Row { row: TreeRow<S>, children: L },
}

impl TreeStep {
    /// What is shown, as text.
    pub open spec fn view(&self) -> TreeStep<Seq<char>, Seq<ProcessGuid>> {
        match self {
            TreeStep::Hidden => TreeStep::Hidden,
            TreeStep::Through { children } => TreeStep::Through { children: children@ },
            TreeStep::Row { row, children } => TreeStep::Row { row: row@, children: children@ },
        }
    }
}

/// Whether one of the events of a process refers to a technique.
pub open spec fn is_tagged(events: Seq<SysmonEvent>, g: ProcessGuid) -> bool {
    exists|i: int|
        0 <= i < events.len() && (#[trigger] events[i]).process_guid == Some(g)
            && events[i].mitre_technique is Some
}

/// Whether a user is SYSTEM.
pub open spec fn is_system(user: Seq<char>) -> bool {
    occurs_in(uppercase(user), "SYSTEM"@)
}

/// Whether a user is SYSTEM.
pub fn runs_as_system(user: &str) -> (r: bool)
    ensures
        r == is_system(user@),
{
    contains(to_uppercase(user).as_str(), "SYSTEM")
}

/// The tint of a node: the first of the properties that it has.
pub open spec fn shade_of(n: ProcessText, is_target: bool) -> NodeShade {
    if n.is_synthetic {
        NodeShade::Synthetic
    } else if is_target {
        NodeShade::InjectionTarget
    } else if is_system(text_or(n.user, "-"@)) {
        NodeShade::System
    } else if n.end_time is Some {
        NodeShade::Terminated
    } else {
        NodeShade::Normal
    }
}

/// A text with a mark in front where there is one.
pub open spec fn marked(mark: Seq<char>, on: bool, t: Seq<char>) -> Seq<char> {
    if on {
        mark + t
    } else {
        t
    }
}

/// The name and number of a process, behind its marks.
pub open spec fn label_of(n: ProcessText, tagged: bool, alerted: bool, noted: bool) -> Seq<char> {
    let base = text_or(n.image_name, "?"@) + " ("@ + pid_or(n.pid, "?"@) + if n.is_synthetic {
        ") [synthetic]"@
    } else {
        ")"@
    };
    marked("🔖 "@, noted, marked("⚠ "@, alerted, marked("⚑ "@, tagged, base)))
}

/// The name and number of a process, behind its marks.
fn label_text(node: &ProcessNode, tagged: bool, alerted: bool, noted: bool) -> (s: String)
    ensures
        s@ == label_of(node@, tagged, alerted, noted),
{
    let mut out: Vec<char> = Vec::new();
    if noted {
        push_text(&mut out, "🔖 ");
    }
    if alerted {
        push_text(&mut out, "⚠ ");
    }
    if tagged {
        push_text(&mut out, "⚑ ");
    }
    push_text(&mut out, str_or(&node.image_name, "?"));
    push_text(&mut out, " (");
    push_text(&mut out, pid_text(node.pid, "?").as_str());
    if node.is_synthetic {
        push_text(&mut out, ") [synthetic]");
    } else {
        push_text(&mut out, ")");
    }
    assert(out@ =~= label_of(node@, tagged, alerted, noted));
    string_of(out.as_slice())
}

impl AppState {
    /// The row of a process.
    pub open spec fn row_of(&self, g: ProcessGuid) -> TreeRow<Seq<char>> {
        let n = self.process_tree@.nodes[g];
        let events = self.event_store.events@;
        TreeRow {
            label: label_of(
                n,
                is_tagged(events, g),
                self.sigma_match_guids@.contains_key(g),
                self.bookmarks@.contains_key(g),
            ),
            shade: shade_of(n, positions(events, Group::Target(g)).len() > 0),
            image: text_or(n.image, "?"@),
            command_line: text_or(n.command_line, "-"@),
            user: text_or(n.user, "-"@),
            started: shown_instant(n.start_time, "%Y-%m-%d %H:%M:%S UTC"@),
            guid: digits_text(g@),
            is_selected: self.selected_process == Some(g),
            is_checked: self.timeline_checked@.contains_key(g),
        }
    }

    /// What is shown for a process. A process on another host, or without a match
    /// at or below it, is hidden with all that is below it. One that fails the
    /// filters but has a descendant that passes gets no row of its own.
    pub open spec fn step_of(&self, g: ProcessGuid) -> TreeStep<Seq<char>, Seq<ProcessGuid>> {
        let filter = lowercase(self.search_filter@);
        let n = self.process_tree@.nodes[g];
        if !self.process_tree@.nodes.contains_key(g) {
            TreeStep::Hidden
        } else if !self.on_host(n) {
            TreeStep::Hidden
        } else if filter.len() > 0 && !self.text_below(g, filter) {
            TreeStep::Hidden
        } else if !self.passes_below(g) {
            TreeStep::Hidden
        } else if !self.node_passes(g) {
            TreeStep::Through { children: n.children }
        } else {
            TreeStep::Row { row: self.row_of(g), children: n.children }
        }
    }

    /// Whether one of the events of a process refers to a technique.
    fn has_tag(&self, guid: &ProcessGuid) -> (r: bool)
        requires
            self.event_store.wf(),
        ensures
            r == is_tagged(self.event_store.events@, *guid),
    {
        let ghost events = self.event_store.events@;
        let at = self.event_store.events_for_process(guid);
        let total: usize = self.event_store.events.len();
        proof {
            law_positions_are_exact(events, Group::Process(*guid));
        }
        let mut i: usize = 0;
        while i < at.len()
            invariant
                i <= at.len(),
                events == self.event_store.events@,
                forall|k: int|
                    0 <= k < at@.len() ==> (#[trigger] at@[k]) < events.len()
                        && events[at@[k] as int].process_guid == Some(*guid),
                forall|k: int|
                    0 <= k < i ==> events[(#[trigger] at@[k]) as int].mitre_technique is None,
            decreases at.len() - i,
        {
            let k: usize = at[i];
            assert(at@[i as int] < events.len());
            if self.event_store.events[k].mitre_technique.is_some() {
                assert(events[k as int].mitre_technique is Some);
                return true;
            }
            i += 1;
        }
        proof {
            assert forall|k: int|
                0 <= k < events.len() && (#[trigger] events[k]).process_guid == Some(
                    *guid,
                ) implies events[k].mitre_technique is None by {
                assert(belongs(events[k], Group::Process(*guid)));
                assert(at@.contains(k as usize));
                let j = choose|j: int| 0 <= j < at@.len() && at@[j] == k as usize;
                assert(events[at@[j] as int].mitre_technique is None);
            }
        }
        false
    }

    /// Makes the row of a process.
    fn tree_row(&self, guid: &ProcessGuid, node: &ProcessNode) -> (row: TreeRow)
        requires
            self.event_store.wf(),
            self.process_tree@.nodes.contains_key(*guid),
            self.process_tree@.nodes[*guid] == node@,
        ensures
            row@ == self.row_of(*guid),
    {
        let is_target = self.event_store.events_targeting_process(guid).len() > 0;
        let user = owned_or(&node.user, "-");
        let shade = if node.is_synthetic {
            NodeShade::Synthetic
        } else if is_target {
            NodeShade::InjectionTarget
        } else if runs_as_system(user.as_str()) {
            NodeShade::System
        } else if node.end_time.is_some() {
            NodeShade::Terminated
        } else {
            NodeShade::Normal
        };
        TreeRow {
            label: label_text(
                node,
                self.has_tag(guid),
                guid_in(&self.sigma_match_guids, guid),
                self.is_bookmarked(guid),
            ),
            shade,
            image: owned_or(&node.image, "?"),
            command_line: owned_or(&node.command_line, "-"),
            user,
            started: show_instant(&node.start_time, "%Y-%m-%d %H:%M:%S UTC"),
            guid: guid_hex(guid),
            is_selected: opt_guid_eq(&self.selected_process, &Some(*guid)),
            is_checked: guid_in(&self.timeline_checked, guid),
        }
    }

    /// What is shown for a process of the tree.
    pub fn tree_step(&self, guid: &ProcessGuid) -> (step: TreeStep)
        requires
            self.event_store.wf(),
        ensures
            step@ == self.step_of(*guid),
    {
        let node = match self.process_tree.get(guid) {
            Some(n) => n,
            None => {
                return TreeStep::Hidden;
            },
        };
        if let Some(host) = &self.selected_host {
            if !same_text(node.computer.as_str(), host.as_str()) {
                return TreeStep::Hidden;
            }
        }
        let filter = to_lowercase(self.search_filter.as_str());
        if !filter.as_str().is_empty() && !self.subtree_matches_filter(*guid, filter.as_str()) {
            return TreeStep::Hidden;
        }
        if !self.subtree_passes_event_filter(*guid) {
            return TreeStep::Hidden;
        }
        let children = copied(&node.children);
        if !self.node_passes_event_filter(guid) {
            return TreeStep::Through { children };
        }
        TreeStep::Row { row: self.tree_row(guid, node), children }
    }
}

/// A copy of a list of processes.
fn copied(list: &Vec<ProcessGuid>) -> (r: Vec<ProcessGuid>)
    ensures
        r@ == list@,
{
    let mut r: Vec<ProcessGuid> = Vec::new();
    let mut i: usize = 0;
    while i < list.len()
        invariant
            i <= list.len(),
            r@ == list@.take(i as int),
        decreases list.len() - i,
    {
        r.push(list[i]);
        i += 1;
        assert(r@ =~= list@.take(i as int));
    }
    assert(list@.take(list@.len() as int) =~= list@);
    r
}

/// On one host, where a process is shown or led through, its parent is too: the
/// way to a match stays open.
pub proof fn law_the_way_to_a_match_stays_open(s: AppState, parent: ProcessGuid, child: ProcessGuid)
    requires
        is_child(s.process_tree@.nodes, parent, child),
        s.process_tree@.nodes[parent].computer == s.process_tree@.nodes[child].computer,
        !(s.step_of(child) is Hidden),
    ensures
        !(s.step_of(parent) is Hidden),
{
    let nodes = s.process_tree@.nodes;
    let filter = lowercase(s.search_filter@);
    if filter.len() > 0 {
        law_parents_keep_their_matches(
            nodes,
            parent,
            child,
            |x: ProcessGuid| s.matches_text(x, filter),
        );
    }
    law_parents_keep_their_matches(nodes, parent, child, |x: ProcessGuid| s.node_passes(x));
}

} // verus!
