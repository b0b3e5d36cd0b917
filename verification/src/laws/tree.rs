//! Laws of the process tree: what creation and termination events leave in it.

use crate::event::{EventDetail, EventText};
use crate::guid::ProcessGuid;
use crate::order::{goes_before, picked, sorts};
use crate::process_tree::{
    all_adopted, attached, created, file_name_of, finalised, fresh_node, is_separator,
    promoted_node, sorted_by_start, start_times, terminated, well_formed, without_guid, ProcessNode,
    ProcessText, TreeText,
};
use crate::types::Timestamp;
use vstd::prelude::*;

verus! {

// ---------------------------------------------------------------------------
// Lists
// ---------------------------------------------------------------------------

/// An item that a list does not hold stays out of it when it is taken out.
proof fn lemma_without_absent(s: Seq<ProcessGuid>, g: ProcessGuid)
    requires
        !s.contains(g),
    ensures
        without_guid(s, g) == s,
    decreases s.len(),
{
    if s.len() > 0 {
        let f = s.drop_last();
        assert(s[s.len() - 1] == s.last());
        if f.contains(g) {
            let i = choose|i: int| 0 <= i < f.len() && f[i] == g;
            assert(s[i] == g);
        }
        lemma_without_absent(f, g);
        assert(without_guid(s, g) =~= s);
    }
}

/// Taking an item out of a list that ends in it leaves what stood before.
proof fn lemma_without_last(s: Seq<ProcessGuid>, g: ProcessGuid)
    requires
        !s.contains(g),
    ensures
        without_guid(s.push(g), g) == s,
{
    lemma_without_absent(s, g);
    assert(s.push(g).drop_last() =~= s);
}

// ---------------------------------------------------------------------------
// Image names
// ---------------------------------------------------------------------------

/// A path is what stands before its file name, which is nothing or ends in a
/// separator, and the file name, which holds no separator.
pub proof fn law_a_path_ends_in_its_file_name(path: Seq<char>)
    ensures
        ({
            let name = file_name_of(path);
            let n = path.len() - name.len();
            &&& 0 <= n
            &&& path == path.take(n) + name
            &&& n > 0 ==> (path[n - 1] == '\\' || path[n - 1] == '/')
            &&& !name.contains('\\')
            &&& !name.contains('/')
        }),
    decreases path.len(),
{
    let name = file_name_of(path);
    if path.len() > 0 && !is_separator(path.last()) {
        let f = path.drop_last();
        law_a_path_ends_in_its_file_name(f);
        let inner = file_name_of(f);
        let n = path.len() - name.len();
        assert(f.take(n) =~= path.take(n));
        assert(f == f.take(n) + inner);
        assert(path =~= f.push(path.last()));
        assert(path =~= path.take(n) + name);
        if n > 0 {
            assert(path[n - 1] == f[n - 1]);
        }
        assert forall|c: char| (c == '\\' || c == '/') implies !#[trigger] name.contains(c) by {
            if name.contains(c) {
                let i = choose|i: int| 0 <= i < name.len() && name[i] == c;
                if i < inner.len() {
                    assert(inner[i] == c);
                    assert(inner.contains(c));
                }
            }
        }
    } else {
        assert(path =~= path.take(path.len() as int) + name);
    }
}

// ---------------------------------------------------------------------------
// Creation
// ---------------------------------------------------------------------------

/// Children that are put below their parent change in nothing but their parent,
/// the parent in nothing but its children, and the rest in nothing.
proof fn lemma_adoption(t: TreeText, parent: ProcessGuid, children: Seq<ProcessGuid>, g: ProcessGuid)
    requires
        t.nodes.contains_key(g),
    ensures
        ({
            let u = all_adopted(t, parent, children);
            &&& u.nodes.contains_key(g)
            &&& u.nodes[g] == (ProcessNode {
                parent_guid: u.nodes[g].parent_guid,
                children: u.nodes[g].children,
                ..t.nodes[g]
            })
            &&& g != parent ==> u.nodes[g].children == t.nodes[g].children
            &&& u.nodes[g].parent_guid == if children.contains(g) {
                Some(parent)
            } else {
                t.nodes[g].parent_guid
            }
        }),
    decreases children.len(),
{
    if children.len() > 0 {
        let front = children.drop_last();
        lemma_adoption(t, parent, front, g);
        let last = children.last();
        assert(children[children.len() - 1] == last);
        if front.contains(g) {
            let i = choose|i: int| 0 <= i < front.len() && front[i] == g;
            assert(children[i] == g);
        }
        if children.contains(g) && g != last {
            let i = choose|i: int| 0 <= i < children.len() && children[i] == g;
            assert(front[i] == g);
        }
    } else {
        assert(!children.contains(g));
    }
}

/// The node of a process before it is attached.
spec fn node_for(t: TreeText, e: EventText, guid: ProcessGuid) -> ProcessText {
    if t.nodes.contains_key(guid) {
        promoted_node(t.nodes[guid], e)
    } else {
        fresh_node(guid, e)
    }
}

/// The tree once the node of a process is attached.
spec fn hung(t: TreeText, e: EventText, guid: ProcessGuid) -> TreeText {
    attached(TreeText { nodes: t.nodes.insert(guid, node_for(t, e, guid)), ..t }, guid)
}

/// What an attached tree comes to.
proof fn lemma_created(t: TreeText, e: EventText, guid: ProcessGuid, g: ProcessGuid)
    requires
        well_formed(t),
        e.process_guid == Some(guid),
        hung(t, e, guid).nodes.contains_key(g),
    ensures
        ({
            let h = hung(t, e, guid);
            let u = created(t, e);
            &&& u.nodes.contains_key(g)
            &&& u.nodes[g] == (ProcessNode {
                parent_guid: u.nodes[g].parent_guid,
                children: u.nodes[g].children,
                ..h.nodes[g]
            })
            &&& g != guid ==> u.nodes[g].children == h.nodes[g].children
            &&& u.nodes[g].parent_guid == if h.pending.contains_key(guid)
                && h.pending[guid].contains(g) {
                Some(guid)
            } else {
                h.nodes[g].parent_guid
            }
        }),
{
    let h = hung(t, e, guid);
    if h.pending.contains_key(guid) {
        lemma_adoption(
            TreeText { pending: h.pending.remove(guid), ..h },
            guid,
            h.pending[guid],
            g,
        );
    }
}

/// Nothing but what waited before waits for a process once it was created, unless
/// the process is its own parent.
proof fn lemma_waiting(t: TreeText, e: EventText, guid: ProcessGuid)
    requires
        well_formed(t),
    ensures
        ({
            let h = hung(t, e, guid);
            &&& h.pending.contains_key(guid) ==> t.pending.contains_key(guid) && h.pending[guid]
                == t.pending[guid] && !h.pending[guid].contains(guid)
        }),
{
}

/// The creation event of a process leaves what it says in the node of the process:
/// number, image, command line, time and the rest, whether the process was known
/// or not. The end of the process and that it has children are kept.
pub proof fn law_creation_fills_the_node(t: TreeText, e: EventText, guid: ProcessGuid)
    requires
        well_formed(t),
        e.process_guid == Some(guid),
    ensures
        created(t, e).nodes.contains_key(guid),
        ({
            let n = created(t, e).nodes[guid];
            &&& n.guid == guid
            &&& n.pid == e.process_id
            &&& n.image == e.image
            &&& n.image_name is Some == (e.image is Some)
            &&& e.image is Some ==> n.image_name == Some(file_name_of(e.image->Some_0))
            &&& n.start_time == e.time_created
            &&& n.computer == e.computer
            &&& !n.is_synthetic
            &&& e.user is Some ==> n.user == e.user
            &&& n.end_time == if t.nodes.contains_key(guid) {
                t.nodes[guid].end_time
            } else {
                None
            }
            &&& e.detail matches EventDetail::ProcessCreate {
                command_line,
                hashes,
                parent_process_guid,
                parent_process_id,
                parent_image,
                parent_command_line,
                parent_user,
                logon_id,
                integrity_level,
                file_version,
                description,
                product,
                company,
                original_file_name,
                ..
            } ==> {
                &&& n.command_line == command_line
                &&& n.hashes == hashes
                &&& n.parent_guid == parent_process_guid
                &&& n.parent_pid == parent_process_id
                &&& n.parent_image == parent_image
                &&& n.parent_command_line == parent_command_line
                &&& n.logon_id == logon_id
                &&& n.integrity_level == integrity_level
                &&& n.file_version == file_version
                &&& n.description == description
                &&& n.product == product
                &&& n.company == company
                &&& n.original_file_name == original_file_name
                &&& e.user is None ==> n.user == if t.nodes.contains_key(guid) {
                    parent_user
                } else {
                    None
                }
            }
        }),
{
    lemma_waiting(t, e, guid);
    lemma_created(t, e, guid, guid);
}

/// A parent that has not been seen gets a placeholder that is what the creation of
/// its child says of it: number, image and command line of the parent, and the
/// child as its only child.
pub proof fn law_placeholders_are_what_the_child_says(
    t: TreeText,
    e: EventText,
    guid: ProcessGuid,
    parent: ProcessGuid,
)
    requires
        well_formed(t),
        e.process_guid == Some(guid),
        e.detail matches EventDetail::ProcessCreate { parent_process_guid, .. }
            && parent_process_guid == Some(parent),
        parent != guid,
        !t.nodes.contains_key(parent),
    ensures
        created(t, e).nodes.contains_key(parent),
        e.detail matches EventDetail::ProcessCreate {
            parent_process_id,
            parent_image,
            parent_command_line,
            ..
        } ==> {
            let n = created(t, e).nodes[parent];
            &&& n.guid == parent
            &&& n.pid == parent_process_id
            &&& n.image == parent_image
            &&& n.image_name is Some == (parent_image is Some)
            &&& parent_image is Some ==> n.image_name == Some(file_name_of(parent_image->Some_0))
            &&& n.command_line == parent_command_line
            &&& n.is_synthetic
            &&& n.children == seq![guid]
            &&& n.start_time == e.time_created
            &&& n.end_time is None
            &&& n.computer == e.computer
            &&& n.parent_guid is None
            &&& n.parent_pid is None
            &&& n.parent_image is None
            &&& n.parent_command_line is None
            &&& n.user is None
            &&& n.hashes is None
            &&& n.integrity_level is None
            &&& n.logon_id is None
            &&& n.file_version is None
            &&& n.description is None
            &&& n.product is None
            &&& n.company is None
            &&& n.original_file_name is None
        },
{
    lemma_waiting(t, e, guid);
    let h = hung(t, e, guid);
    assert(h.nodes.contains_key(parent));
    lemma_created(t, e, guid, parent);
    if h.pending.contains_key(guid) && h.pending[guid].contains(parent) {
        assert(t.pending[guid].contains(parent));
        assert(t.nodes.contains_key(parent));
    }
}

/// The creation of a process leaves the other processes alone: none is lost, they
/// change in nothing but their links, only the parent that the event names gets a
/// child, and only those that waited for the process get a parent. What the tree
/// gains is the process and the parent it names.
pub proof fn law_creation_leaves_the_others(
    t: TreeText,
    e: EventText,
    guid: ProcessGuid,
    g: ProcessGuid,
)
    requires
        well_formed(t),
        e.process_guid == Some(guid),
        g != guid,
    ensures
        ({
            let u = created(t, e);
            let named = created(t, e).nodes[guid].parent_guid == Some(g);
            &&& u.nodes.contains_key(g) <==> t.nodes.contains_key(g) || named
            &&& t.nodes.contains_key(g) ==> {
                &&& u.nodes[g] == (ProcessNode {
                    parent_guid: u.nodes[g].parent_guid,
                    children: u.nodes[g].children,
                    ..t.nodes[g]
                })
                &&& !named ==> u.nodes[g].children == t.nodes[g].children
                &&& named && !t.nodes[g].children.contains(guid) ==> u.nodes[g].children == t
                    .nodes[g].children.push(guid)
                &&& named && t.nodes[g].children.contains(guid) ==> u.nodes[g].children == t
                    .nodes[g].children
                &&& !(t.pending.contains_key(guid) && t.pending[guid].contains(g))
                    ==> u.nodes[g].parent_guid == t.nodes[g].parent_guid
            }
        }),
{
    lemma_waiting(t, e, guid);
    let h = hung(t, e, guid);
    lemma_created(t, e, guid, guid);
    if h.nodes.contains_key(g) {
        lemma_created(t, e, guid, g);
    } else if h.pending.contains_key(guid) {
        let rest = TreeText { pending: h.pending.remove(guid), ..h };
        lemma_adoption_adds_none(rest, guid, h.pending[guid], g);
    }
}

proof fn lemma_adoption_adds_none(
    t: TreeText,
    parent: ProcessGuid,
    children: Seq<ProcessGuid>,
    g: ProcessGuid,
)
    requires
        !t.nodes.contains_key(g),
    ensures
        !all_adopted(t, parent, children).nodes.contains_key(g),
    decreases children.len(),
{
    if children.len() > 0 {
        lemma_adoption_adds_none(t, parent, children.drop_last(), g);
    }
}

/// It does not matter whether a parent or its child is seen first: once both are
/// created, the tree is the same.
pub proof fn law_parents_may_come_late(
    t: TreeText,
    child: EventText,
    parent: EventText,
    c: ProcessGuid,
    p: ProcessGuid,
)
    requires
        well_formed(t),
        child.process_guid == Some(c),
        parent.process_guid == Some(p),
        c != p,
        !t.nodes.contains_key(c),
        !t.nodes.contains_key(p),
        child.detail matches EventDetail::ProcessCreate { parent_process_guid, .. }
            && parent_process_guid == Some(p),
        parent.detail matches EventDetail::ProcessCreate { parent_process_guid, .. }
            && parent_process_guid != Some(c) && parent_process_guid != Some(p),
        parent.user is Some,
    ensures
        created(created(t, child), parent) == created(created(t, parent), child),
{
    let late = created(created(t, child), parent);
    let early = created(created(t, parent), child);
    assert(!t.pending.contains_key(c) && !t.pending.contains_key(p));
    assert(!t.roots.contains(c) && !t.roots.contains(p));
    lemma_without_absent(t.roots, c);
    lemma_without_absent(t.roots, p);
    // the child first
    let first = created(t, child);
    assert(first == hung(t, child, c));
    assert(first.roots == t.roots.push(p));
    assert(first.pending == t.pending.insert(p, seq![c])) by {
        assert(Seq::<ProcessGuid>::empty().push(c) =~= seq![c]);
    }
    assert(first.nodes[p].children == seq![c]);
    let second = hung(first, parent, p);
    let rest = TreeText { pending: second.pending.remove(p), ..second };
    assert(second.pending.contains_key(p));
    assert(second.pending[p] == seq![c]);
    assert(seq![c].drop_last() =~= Seq::<ProcessGuid>::empty());
    assert(all_adopted(rest, p, Seq::empty()) == rest);
    assert(late == crate::process_tree::adopted(rest, p, c));
    assert(seq![c].contains(c)) by {
        assert(seq![c][0] == c);
    }
    // the parent first
    let one = created(t, parent);
    assert(one == hung(t, parent, p));
    assert(!one.pending.contains_key(c));
    assert(early == hung(one, child, c));
    assert(Seq::<ProcessGuid>::empty().push(c) =~= seq![c]);
    assert(late.nodes[p] == early.nodes[p]);
    assert(late.nodes[c] == early.nodes[c]);
    lemma_without_last(t.roots, p);
    let r = one.roots;
    assert(!r.contains(c)) by {
        if r.contains(c) {
            let i = choose|i: int| 0 <= i < r.len() && r[i] == c;
            assert(i < t.roots.len() ==> t.roots[i] == c);
        }
    }
    lemma_without_absent(r, c);
    assert(second.roots == r);
    assert(late.roots == early.roots);
    assert(late.nodes =~= early.nodes);
    assert(late.pending =~= early.pending);
}

// ---------------------------------------------------------------------------
// Termination
// ---------------------------------------------------------------------------

/// The end of a process is noted in its node, and nothing else changes. The last
/// end that is seen counts, and an end before a later creation event is kept.
pub proof fn law_an_end_is_noted(t: TreeText, guid: ProcessGuid, end: Timestamp, e: EventText)
    requires
        well_formed(t),
    ensures
        ({
            let u = terminated(t, guid, end);
            &&& u.nodes.dom() == t.nodes.dom()
            &&& u.roots == t.roots
            &&& u.pending == t.pending
            &&& t.nodes.contains_key(guid) ==> u.nodes[guid].end_time == Some(end) && u.nodes[guid]
                == (ProcessNode { end_time: u.nodes[guid].end_time, ..t.nodes[guid] })
            &&& forall|g: ProcessGuid| #[trigger]
                t.nodes.contains_key(g) && g != guid ==> u.nodes[g] == t.nodes[g]
        }),
        t.nodes.contains_key(guid) && e.process_guid == Some(guid) ==> created(
            terminated(t, guid, end),
            e,
        ).nodes[guid].end_time == Some(end),
{
    let u = terminated(t, guid, end);
    assert(u.nodes.dom() =~= t.nodes.dom());
    if t.nodes.contains_key(guid) && e.process_guid == Some(guid) {
        crate::process_tree::law_termination_keeps_the_tree(t, guid, end);
        law_creation_fills_the_node(u, e, guid);
    }
}

// ---------------------------------------------------------------------------
// Finalisation
// ---------------------------------------------------------------------------

/// Whether one time comes after another.
pub open spec fn is_after(a: Timestamp, b: Timestamp) -> bool {
    a.secs > b.secs || (a.secs == b.secs && a.nanos > b.nanos)
}

/// Once a tree is finalised, no root and no child of any process stands before one
/// that started earlier, and none is lost.
pub proof fn law_finalised_lists_are_in_order_of_time(t: TreeText, u: TreeText, i: int, j: int)
    requires
        well_formed(t),
        finalised(t, u),
        t.roots.len() <= usize::MAX,
        0 <= i < j,
    ensures
        j < u.roots.len() ==> !is_after(
            t.nodes[u.roots[i]].start_time,
            t.nodes[u.roots[j]].start_time,
        ),
        forall|g: ProcessGuid| #[trigger]
            t.nodes.contains_key(g) && j < u.nodes[g].children.len() ==> !is_after(
                t.nodes[u.nodes[g].children[i]].start_time,
                t.nodes[u.nodes[g].children[j]].start_time,
            ),
        u.roots.len() == t.roots.len(),
        forall|g: ProcessGuid| #[trigger]
            t.nodes.contains_key(g) ==> u.nodes[g].children.len() == t.nodes[g].children.len(),
{
    lemma_sorted_list(t, t.roots, u.roots, i, j);
    assert forall|g: ProcessGuid| #[trigger] t.nodes.contains_key(g) implies u.nodes[g].children.len()
        == t.nodes[g].children.len() && (j < u.nodes[g].children.len() ==> !is_after(
        t.nodes[u.nodes[g].children[i]].start_time,
        t.nodes[u.nodes[g].children[j]].start_time,
    )) by {
        assert forall|c: ProcessGuid| #[trigger]
            t.nodes[g].children.contains(c) implies t.nodes.contains_key(c) by {}
        lemma_sorted_list(t, t.nodes[g].children, u.nodes[g].children, i, j);
    }
}

proof fn lemma_sorted_list(
    t: TreeText,
    s: Seq<ProcessGuid>,
    out: Seq<ProcessGuid>,
    i: int,
    j: int,
)
    requires
        sorted_by_start(t.nodes, s, out),
        forall|g: ProcessGuid| #[trigger] s.contains(g) ==> t.nodes.contains_key(g),
        0 <= i < j,
    ensures
        out.len() == s.len(),
        j < out.len() ==> !is_after(t.nodes[out[i]].start_time, t.nodes[out[j]].start_time),
{
    let keys = start_times(t.nodes, s);
    let order = choose|order: Seq<usize>| #[trigger]
        sorts(start_times(t.nodes, s), order) && out == picked(s, order);
    if j < out.len() {
        let (a, b) = (order[i], order[j]);
        assert(goes_before(keys, a, b));
        assert(s.contains(s[a as int]) && s.contains(s[b as int]));
        assert(keys[a as int] == Some(t.nodes[out[i]].start_time));
        assert(keys[b as int] == Some(t.nodes[out[j]].start_time));
    }
}

} // verus!
