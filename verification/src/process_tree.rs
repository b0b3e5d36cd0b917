//! The process tree, rebuilt from creation and termination events.

use crate::event::{opt_interned, DetailText, EventDetail, EventText, SysmonEvent};
use crate::fxmap::{fx_get, fx_insert, fx_keys, fx_len, fx_new, fx_remove, FxHashMap};
use crate::guid::{guid_eq, has_guid, ProcessGuid};
use crate::interner::{resolve, SharedRodeo};
use crate::order::{goes_before, picked, sorted_order, sorts};
use crate::text::{chars_of, clone_opt, opt_text, string_of};
use crate::types::Timestamp;
use lasso::Spur;
use vstd::prelude::*;
use vstd::slice::slice_subrange;

verus! {

// ---------------------------------------------------------------------------
// Nodes
// ---------------------------------------------------------------------------

/// A node in the process tree. `S` is how texts are held and `L` how the list of
/// children is.
pub struct ProcessNode<S = String, L = Vec<ProcessGuid>> {
    pub guid: ProcessGuid,
    pub pid: Option<u32>,
    pub image: Option<S>,
    /// The file name of the image (e.g. "svchost.exe").
    pub image_name: Option<S>,
    pub command_line: Option<S>,
    pub parent_guid: Option<ProcessGuid>,
    pub parent_pid: Option<u32>,
    pub parent_image: Option<S>,
    pub parent_command_line: Option<S>,
    /// Children in order of arrival, sorted by start time on finalisation.
    pub children: L,
    pub start_time: Timestamp,
    /// Filled by the termination of the process.
    pub end_time: Option<Timestamp>,
    pub user: Option<S>,
    pub hashes: Option<S>,
    pub integrity_level: Option<S>,
    pub logon_id: Option<S>,
    pub computer: S,
    pub file_version: Option<S>,
    pub description: Option<S>,
    pub product: Option<S>,
    pub company: Option<S>,
    pub original_file_name: Option<S>,
    /// True if the node was made up from the parent fields of a child, its own
    /// creation event not having been seen.
    pub is_synthetic: bool,
}

/// A node as text.
pub type ProcessText = ProcessNode<Seq<char>, Seq<ProcessGuid>>;

impl ProcessNode {
    /// The node as text.
    pub open spec fn view(&self) -> ProcessText {
        ProcessNode {
            guid: self.guid,
            pid: self.pid,
            image: opt_text(self.image),
            image_name: opt_text(self.image_name),
            command_line: opt_text(self.command_line),
            parent_guid: self.parent_guid,
            parent_pid: self.parent_pid,
            parent_image: opt_text(self.parent_image),
            parent_command_line: opt_text(self.parent_command_line),
            children: self.children@,
            start_time: self.start_time,
            end_time: self.end_time,
            user: opt_text(self.user),
            hashes: opt_text(self.hashes),
            integrity_level: opt_text(self.integrity_level),
            logon_id: opt_text(self.logon_id),
            computer: self.computer@,
            file_version: opt_text(self.file_version),
            description: opt_text(self.description),
            product: opt_text(self.product),
            company: opt_text(self.company),
            original_file_name: opt_text(self.original_file_name),
            is_synthetic: self.is_synthetic,
        }
    }
}

/// Whether a character separates the parts of a path.
pub open spec fn is_separator(c: char) -> bool {
    c == '\\' || c == '/'
}

/// What follows the last separator of a path; all of it where there is none.
pub open spec fn file_name_of(path: Seq<char>) -> Seq<char>
    decreases path.len(),
{
    if path.len() == 0 || is_separator(path.last()) {
        Seq::empty()
    } else {
        file_name_of(path.drop_last()).push(path.last())
    }
}

/// The file name of an image path.
pub open spec fn image_name_of(image: Option<Seq<char>>) -> Option<Seq<char>> {
    match image {
        Some(p) => Some(file_name_of(p)),
        None => None,
    }
}

/// What follows the last separator of a path.
pub fn file_name(path: &str) -> (r: String)
    ensures
        r@ == file_name_of(path@),
{
    let v = chars_of(path);
    let mut n: usize = v.len();
    assert(v@.skip(n as int) =~= Seq::empty());
    assert(v@.take(n as int) =~= v@);
    assert(file_name_of(v@.take(n as int)) + v@.skip(n as int) =~= file_name_of(v@));
    while n > 0 && v[n - 1] != '\\' && v[n - 1] != '/'
        invariant
            n <= v.len(),
            file_name_of(v@.take(n as int)) + v@.skip(n as int) == file_name_of(v@),
        decreases n,
    {
        let ghost t = v@.take(n as int);
        assert(t.drop_last() =~= v@.take(n - 1));
        assert(t.last() == v@[n - 1]);
        assert(file_name_of(t.drop_last()).push(t.last()) + v@.skip(n as int) =~= file_name_of(
            v@.take(n - 1),
        ) + v@.skip(n - 1));
        n -= 1;
    }
    assert(n > 0 ==> v@.take(n as int).last() == v@[n - 1]);
    assert(file_name_of(v@.take(n as int)) =~= Seq::empty());
    assert(v@.subrange(n as int, v@.len() as int) =~= file_name_of(v@));
    string_of(slice_subrange(v.as_slice(), n, v.len()))
}

/// The file name of an image path.
fn image_name_from(image: &Option<String>) -> (r: Option<String>)
    ensures
        opt_text(r) == image_name_of(opt_text(*image)),
{
    match image {
        Some(p) => Some(file_name(p.as_str())),
        None => None,
    }
}

// ---------------------------------------------------------------------------
// The model of the tree
// ---------------------------------------------------------------------------

/// A tree as text: its nodes, its roots, and the children that wait for the
/// creation event of their parent.
pub struct TreeText {
    pub nodes: Map<ProcessGuid, ProcessText>,
    pub roots: Seq<ProcessGuid>,
    pub pending: Map<ProcessGuid, Seq<ProcessGuid>>,
}

/// A list with an item added at the end, unless it holds it already.
pub open spec fn with_guid(s: Seq<ProcessGuid>, g: ProcessGuid) -> Seq<ProcessGuid> {
    if s.contains(g) {
        s
    } else {
        s.push(g)
    }
}

/// A list without an item.
pub open spec fn without_guid(s: Seq<ProcessGuid>, g: ProcessGuid) -> Seq<ProcessGuid>
    decreases s.len(),
{
    if s.len() == 0 {
        s
    } else if s.last() == g {
        without_guid(s.drop_last(), g)
    } else {
        without_guid(s.drop_last(), g).push(s.last())
    }
}

/// The node of a process seen for the first time, from its creation event.
pub open spec fn fresh_node(guid: ProcessGuid, e: EventText) -> ProcessText {
    let base = ProcessNode {
        guid,
        pid: e.process_id,
        image: e.image,
        image_name: image_name_of(e.image),
        command_line: None,
        parent_guid: None,
        parent_pid: None,
        parent_image: None,
        parent_command_line: None,
        children: Seq::empty(),
        start_time: e.time_created,
        end_time: None,
        user: e.user,
        hashes: None,
        integrity_level: None,
        logon_id: None,
        computer: e.computer,
        file_version: None,
        description: None,
        product: None,
        company: None,
        original_file_name: None,
        is_synthetic: false,
    };
    with_details(base, e.detail)
}

/// A node with what a creation event says of the process and its parent.
pub open spec fn with_details(n: ProcessText, detail: DetailText) -> ProcessText {
    match detail {
        EventDetail::ProcessCreate {
            command_line,
            hashes,
            parent_process_guid,
            parent_process_id,
            parent_image,
            parent_command_line,
            logon_id,
            integrity_level,
            file_version,
            description,
            product,
            company,
            original_file_name,
            ..
        } => ProcessNode {
            command_line,
            hashes,
            parent_guid: parent_process_guid,
            parent_pid: parent_process_id,
            parent_image,
            parent_command_line,
            logon_id,
            integrity_level,
            file_version,
            description,
            product,
            company,
            original_file_name,
            ..n
        },
        _ => n,
    }
}

/// A node that was known before, brought up to date by its creation event: it
/// keeps its children and its end, and the user of its parent stands in for its
/// own where that is missing.
pub open spec fn promoted_node(n: ProcessText, e: EventText) -> ProcessText {
    let base = ProcessNode {
        is_synthetic: false,
        pid: e.process_id,
        image_name: image_name_of(e.image),
        image: e.image,
        user: match (e.user, e.detail) {
            (None, EventDetail::ProcessCreate { parent_user, .. }) => parent_user,
            _ => e.user,
        },
        computer: e.computer,
        start_time: e.time_created,
        ..n
    };
    with_details(base, e.detail)
}

/// The placeholder for a parent that has not been seen, from what a child says
/// of it.
pub open spec fn placeholder(guid: ProcessGuid, child: ProcessText) -> ProcessText {
    ProcessNode {
        guid,
        pid: child.parent_pid,
        image: child.parent_image,
        image_name: image_name_of(child.parent_image),
        command_line: child.parent_command_line,
        parent_guid: None,
        parent_pid: None,
        parent_image: None,
        parent_command_line: None,
        children: seq![child.guid],
        start_time: child.start_time,
        end_time: None,
        user: None,
        hashes: None,
        integrity_level: None,
        logon_id: None,
        computer: child.computer,
        file_version: None,
        description: None,
        product: None,
        company: None,
        original_file_name: None,
        is_synthetic: true,
    }
}

/// The tree with a node's list of children extended.
pub open spec fn with_child(
    nodes: Map<ProcessGuid, ProcessText>,
    parent: ProcessGuid,
    child: ProcessGuid,
) -> Map<ProcessGuid, ProcessText> {
    nodes.insert(
        parent,
        ProcessNode { children: with_guid(nodes[parent].children, child), ..nodes[parent] },
    )
}

/// The tree with a node attached to its parent: among the roots where it has
/// none, and below a placeholder where the parent has not been seen. A node with
/// a parent is no root, even if it was one while only its children were known.
pub open spec fn attached(t: TreeText, guid: ProcessGuid) -> TreeText {
    match t.nodes[guid].parent_guid {
        None => TreeText { roots: with_guid(t.roots, guid), ..t },
        Some(p) => if t.nodes.contains_key(p) {
            TreeText {
                nodes: with_child(t.nodes, p, guid),
                roots: without_guid(t.roots, guid),
                ..t
            }
        } else {
            TreeText {
                nodes: t.nodes.insert(p, placeholder(p, t.nodes[guid])),
                roots: with_guid(without_guid(t.roots, guid), p),
                pending: t.pending.insert(
                    p,
                    (if t.pending.contains_key(p) {
                        t.pending[p]
                    } else {
                        Seq::empty()
                    }).push(guid),
                ),
            }
        },
    }
}

/// The tree with a child that waited put below its parent and taken from the
/// roots.
pub open spec fn adopted(t: TreeText, parent: ProcessGuid, child: ProcessGuid) -> TreeText {
    let nodes = if t.nodes.contains_key(child) {
        t.nodes.insert(
            child,
            ProcessNode { parent_guid: Some(parent), ..t.nodes[child] },
        )
    } else {
        t.nodes
    };
    TreeText {
        nodes: if nodes.contains_key(parent) {
            with_child(nodes, parent, child)
        } else {
            nodes
        },
        roots: without_guid(t.roots, child),
        pending: t.pending,
    }
}

/// The tree with children that waited put below their parent, one by one.
pub open spec fn all_adopted(
    t: TreeText,
    parent: ProcessGuid,
    children: Seq<ProcessGuid>,
) -> TreeText
    decreases children.len(),
{
    if children.len() == 0 {
        t
    } else {
        adopted(all_adopted(t, parent, children.drop_last()), parent, children.last())
    }
}

/// The tree after the creation of a process. Events without a process are
/// passed over.
pub open spec fn created(t: TreeText, e: EventText) -> TreeText {
    match e.process_guid {
        None => t,
        Some(guid) => {
            let node = if t.nodes.contains_key(guid) {
                promoted_node(t.nodes[guid], e)
            } else {
                fresh_node(guid, e)
            };
            let placed = attached(TreeText { nodes: t.nodes.insert(guid, node), ..t }, guid);
            if placed.pending.contains_key(guid) {
                all_adopted(
                    TreeText { pending: placed.pending.remove(guid), ..placed },
                    guid,
                    placed.pending[guid],
                )
            } else {
                placed
            }
        },
    }
}

/// The tree after the end of a process; unknown processes are passed over.
pub open spec fn terminated(t: TreeText, guid: ProcessGuid, end_time: Timestamp) -> TreeText {
    if t.nodes.contains_key(guid) {
        TreeText {
            nodes: t.nodes.insert(
                guid,
                ProcessNode { end_time: Some(end_time), ..t.nodes[guid] },
            ),
            ..t
        }
    } else {
        t
    }
}

/// The start times of processes; none for those that are not in the tree.
pub open spec fn start_times(nodes: Map<ProcessGuid, ProcessText>, s: Seq<ProcessGuid>) -> Seq<
    Option<Timestamp>,
> {
    s.map_values(
        |g: ProcessGuid|
            if nodes.contains_key(g) {
                Some(nodes[g].start_time)
            } else {
                None
            },
    )
}

/// Whether `out` is a list sorted by start time, those that started together
/// left in their order.
pub open spec fn sorted_by_start(
    nodes: Map<ProcessGuid, ProcessText>,
    s: Seq<ProcessGuid>,
    out: Seq<ProcessGuid>,
) -> bool {
    exists|order: Seq<usize>| #[trigger]
        sorts(start_times(nodes, s), order) && out == picked(s, order)
}

/// Whether `u` is the tree `t` finalised: nothing waits any more, and the roots
/// and the children of every node are sorted by start time.
pub open spec fn finalised(t: TreeText, u: TreeText) -> bool {
    &&& u.pending.dom() == Set::<ProcessGuid>::empty()
    &&& sorted_by_start(t.nodes, t.roots, u.roots)
    &&& u.nodes.dom() == t.nodes.dom()
    &&& forall|g: ProcessGuid| #[trigger]
        t.nodes.contains_key(g) ==> u.nodes[g] == (ProcessNode {
            children: u.nodes[g].children,
            ..t.nodes[g]
        }) && sorted_by_start(t.nodes, t.nodes[g].children, u.nodes[g].children)
}

// ---------------------------------------------------------------------------
// Well-formed trees
// ---------------------------------------------------------------------------

/// Whether a node hangs in the tree: among the roots where it has no parent, and
/// otherwise among the children of its parent, which is in the tree.
pub open spec fn linked(t: TreeText, g: ProcessGuid) -> bool {
    match t.nodes[g].parent_guid {
        None => t.roots.contains(g),
        Some(p) => t.nodes.contains_key(p) && t.nodes[p].children.contains(g),
    }
}

/// Whether the parts of a tree fit: roots, children and those that wait are
/// nodes, no list holds a process twice, no process waits for itself, and those
/// that wait for a parent stand among its children already.
pub open spec fn consistent(t: TreeText) -> bool {
    &&& forall|g: ProcessGuid| #[trigger]
        t.nodes.contains_key(g) ==> t.nodes[g].guid == g && t.nodes[g].children.no_duplicates()
    &&& t.roots.no_duplicates()
    &&& forall|g: ProcessGuid| #[trigger] t.roots.contains(g) ==> t.nodes.contains_key(g)
    &&& forall|g: ProcessGuid, c: ProcessGuid|
        t.nodes.contains_key(g) && #[trigger] t.nodes[g].children.contains(c)
            ==> t.nodes.contains_key(c)
    &&& forall|p: ProcessGuid| #[trigger] t.pending.contains_key(p) ==> t.nodes.contains_key(p)
    &&& forall|p: ProcessGuid, c: ProcessGuid|
        t.pending.contains_key(p) && #[trigger] t.pending[p].contains(c) ==> t.nodes.contains_key(
            c,
        ) && c != p && t.nodes[p].children.contains(c)
}

/// Whether a tree is consistent, every node hangs in it, and no root has a
/// parent.
pub open spec fn well_formed(t: TreeText) -> bool {
    &&& consistent(t)
    &&& forall|g: ProcessGuid| #[trigger] t.nodes.contains_key(g) ==> linked(t, g)
    &&& forall|g: ProcessGuid| #[trigger]
        t.roots.contains(g) ==> t.nodes[g].parent_guid is None
}

/// What a list holds once an item was added.
proof fn lemma_with_guid(s: Seq<ProcessGuid>, g: ProcessGuid)
    requires
        s.no_duplicates(),
    ensures
        with_guid(s, g).no_duplicates(),
        forall|x: ProcessGuid| #[trigger]
            with_guid(s, g).contains(x) <==> s.contains(x) || x == g,
{
    let r = with_guid(s, g);
    if !s.contains(g) {
        assert forall|x: ProcessGuid| #[trigger] r.contains(x) <==> s.contains(x) || x == g by {
            if s.contains(x) {
                let i = choose|i: int| 0 <= i < s.len() && s[i] == x;
                assert(r[i] == x);
            }
            if x == g {
                assert(r[s.len() as int] == x);
            }
            if r.contains(x) {
                let i = choose|i: int| 0 <= i < r.len() && r[i] == x;
                if i < s.len() {
                    assert(s[i] == x);
                }
            }
        }
    }
}

/// What a list holds once an item was taken out.
proof fn lemma_without_guid(s: Seq<ProcessGuid>, g: ProcessGuid)
    ensures
        forall|x: ProcessGuid| #[trigger]
            without_guid(s, g).contains(x) <==> s.contains(x) && x != g,
        s.no_duplicates() ==> without_guid(s, g).no_duplicates(),
    decreases s.len(),
{
    if s.len() > 0 {
        let f = s.drop_last();
        lemma_without_guid(f, g);
        let r = without_guid(s, g);
        let rf = without_guid(f, g);
        assert forall|x: ProcessGuid| #[trigger] r.contains(x) <==> s.contains(x) && x != g by {
            if s.contains(x) && x != g {
                let i = choose|i: int| 0 <= i < s.len() && s[i] == x;
                if i < f.len() {
                    assert(f[i] == x);
                    assert(rf.contains(x));
                    let j = choose|j: int| 0 <= j < rf.len() && rf[j] == x;
                    assert(r[j] == x);
                } else {
                    assert(r[rf.len() as int] == x);
                }
            }
            if r.contains(x) {
                let j = choose|j: int| 0 <= j < r.len() && r[j] == x;
                if j < rf.len() {
                    assert(rf[j] == x);
                    assert(rf.contains(x));
                    let i = choose|i: int| 0 <= i < f.len() && f[i] == x;
                    assert(s[i] == x);
                } else {
                    assert(s[s.len() - 1] == x);
                }
            }
        }
        if s.no_duplicates() {
            assert(f.no_duplicates());
            if s.last() != g {
                if rf.contains(s.last()) {
                    let i = choose|i: int| 0 <= i < f.len() && f[i] == s.last();
                    assert(s[i] == s[s.len() - 1]);
                }
                assert forall|i: int, j: int|
                    0 <= i < r.len() && 0 <= j < r.len() && i != j implies r[i] != r[j] by {
                    if i < rf.len() {
                        assert(rf.contains(rf[i]));
                    }
                    if j < rf.len() {
                        assert(rf.contains(rf[j]));
                    }
                }
            }
        }
    }
}

/// Attaching a node whose parent link is the only one missing makes the tree
/// well formed.
proof fn lemma_attached(t: TreeText, guid: ProcessGuid)
    requires
        consistent(t),
        t.nodes.contains_key(guid),
        forall|g: ProcessGuid| #[trigger] t.nodes.contains_key(g) && g != guid ==> linked(t, g),
        forall|g: ProcessGuid| #[trigger]
            t.roots.contains(g) && g != guid ==> t.nodes[g].parent_guid is None,
    ensures
        well_formed(attached(t, guid)),
        attached(t, guid).nodes.contains_key(guid),
{
    let u = attached(t, guid);
    lemma_without_guid(t.roots, guid);
    match t.nodes[guid].parent_guid {
        None => {
            lemma_with_guid(t.roots, guid);
            assert forall|g: ProcessGuid| #[trigger] u.nodes.contains_key(g) implies linked(u, g) by {
                assert(t.nodes.contains_key(g));
            }
        },
        Some(p) => {
            if t.nodes.contains_key(p) {
                lemma_with_guid(t.nodes[p].children, guid);
                assert forall|g: ProcessGuid| #[trigger] u.nodes.contains_key(g) implies linked(
                    u,
                    g,
                ) by {
                    assert(t.nodes.contains_key(g));
                    if g == guid {
                        assert(u.nodes[p].children.contains(guid));
                    }
                }
                assert forall|g: ProcessGuid, c: ProcessGuid|
                    u.nodes.contains_key(g) && #[trigger] u.nodes[g].children.contains(
                        c,
                    ) implies u.nodes.contains_key(c) by {
                    if c != guid {
                        assert(t.nodes.contains_key(g));
                        assert(t.nodes[g].children.contains(c));
                    }
                }
                assert forall|g: ProcessGuid| #[trigger] u.nodes.contains_key(g) implies u
                    .nodes[g].guid == g && u.nodes[g].children.no_duplicates() by {
                    assert(t.nodes.contains_key(g));
                }
                assert forall|q: ProcessGuid, c: ProcessGuid|
                    u.pending.contains_key(q) && #[trigger] u.pending[q].contains(
                        c,
                    ) implies u.nodes.contains_key(c) && c != q && u.nodes[q].children.contains(
                    c,
                ) by {
                    assert(t.pending[q].contains(c));
                    assert(t.nodes[q].children.contains(c));
                }
            } else {
                lemma_with_guid(without_guid(t.roots, guid), p);
                let child = t.nodes[guid];
                assert(u.nodes[p].children =~= seq![guid]);
                assert(u.nodes[p].children[0] == guid);
                assert forall|g: ProcessGuid| #[trigger] u.nodes.contains_key(g) implies linked(
                    u,
                    g,
                ) by {
                    if g != p {
                        assert(t.nodes.contains_key(g));
                        if g == guid {
                            assert(u.nodes[p].children.contains(guid));
                        }
                    }
                }
                assert forall|g: ProcessGuid, c: ProcessGuid|
                    u.nodes.contains_key(g) && #[trigger] u.nodes[g].children.contains(
                        c,
                    ) implies u.nodes.contains_key(c) by {
                    if g != p {
                        assert(t.nodes.contains_key(g));
                        assert(t.nodes[g].children.contains(c));
                    }
                }
                let had = if t.pending.contains_key(p) {
                    t.pending[p]
                } else {
                    Seq::empty()
                };
                assert forall|q: ProcessGuid, c: ProcessGuid|
                    u.pending.contains_key(q) && #[trigger] u.pending[q].contains(
                        c,
                    ) implies u.nodes.contains_key(c) && c != q && u.nodes[q].children.contains(
                    c,
                ) by {
                    assert(u.nodes[p].children.contains(guid));
                    if q == p {
                        let i = choose|i: int|
                            0 <= i < u.pending[q].len() && u.pending[q][i] == c;
                        if i < had.len() {
                            assert(had[i] == c);
                            assert(t.pending[p].contains(c));
                        }
                    } else {
                        assert(t.pending[q].contains(c));
                    }
                }
            }
        },
    }
}

/// Putting a child below its parent keeps a tree well formed.
proof fn lemma_adopted(t: TreeText, parent: ProcessGuid, child: ProcessGuid)
    requires
        well_formed(t),
        t.nodes.contains_key(parent),
        t.nodes.contains_key(child),
        child != parent,
    ensures
        well_formed(adopted(t, parent, child)),
        adopted(t, parent, child).nodes.dom() == t.nodes.dom(),
        adopted(t, parent, child).pending == t.pending,
{
    let u = adopted(t, parent, child);
    lemma_without_guid(t.roots, child);
    lemma_with_guid(t.nodes[parent].children, child);
    assert(u.nodes.dom() =~= t.nodes.dom());
    assert(u.nodes[parent].children == with_guid(t.nodes[parent].children, child));
    assert forall|g: ProcessGuid| #[trigger] u.nodes.contains_key(g) implies u.nodes[g].guid == g
        && u.nodes[g].children.no_duplicates() by {
        assert(t.nodes.contains_key(g));
    }
    assert forall|g: ProcessGuid, c: ProcessGuid|
        u.nodes.contains_key(g) && #[trigger] u.nodes[g].children.contains(
            c,
        ) implies u.nodes.contains_key(c) by {
        assert(t.nodes.contains_key(g));
        if c != child {
            assert(t.nodes[g].children.contains(c));
        }
    }
    assert forall|q: ProcessGuid, c: ProcessGuid|
        u.pending.contains_key(q) && #[trigger] u.pending[q].contains(
            c,
        ) implies u.nodes.contains_key(c) && c != q && u.nodes[q].children.contains(c) by {
        assert(t.pending[q].contains(c));
        assert(t.nodes[q].children.contains(c));
    }
    assert forall|g: ProcessGuid| #[trigger] u.nodes.contains_key(g) implies linked(u, g) by {
        assert(t.nodes.contains_key(g));
        if g == child {
            assert(u.nodes[child].parent_guid == Some(parent));
            assert(u.nodes[parent].children.contains(child));
        } else {
            assert(linked(t, g));
            assert(u.nodes[g].parent_guid == t.nodes[g].parent_guid);
            if let Some(p) = t.nodes[g].parent_guid {
                assert(t.nodes[p].children.contains(g));
                assert(u.nodes[p].children.contains(g));
            }
        }
    }
}

/// Putting all children that waited below their parent keeps a tree well formed.
proof fn lemma_all_adopted(t: TreeText, parent: ProcessGuid, children: Seq<ProcessGuid>)
    requires
        well_formed(t),
        t.nodes.contains_key(parent),
        forall|i: int|
            0 <= i < children.len() ==> t.nodes.contains_key(#[trigger] children[i])
                && children[i] != parent,
    ensures
        well_formed(all_adopted(t, parent, children)),
        all_adopted(t, parent, children).nodes.dom() == t.nodes.dom(),
        all_adopted(t, parent, children).pending == t.pending,
    decreases children.len(),
{
    if children.len() > 0 {
        let front = children.drop_last();
        assert forall|i: int| 0 <= i < front.len() implies t.nodes.contains_key(
            #[trigger] front[i],
        ) && front[i] != parent by {
            assert(front[i] == children[i]);
        }
        lemma_all_adopted(t, parent, front);
        let u = all_adopted(t, parent, front);
        let c = children[children.len() - 1];
        assert(t.nodes.contains_key(c));
        assert(u.nodes.dom().contains(c));
        assert(u.nodes.dom().contains(parent));
        lemma_adopted(u, parent, c);
    }
}

/// The tree as it stands right before the new node is attached.
proof fn lemma_placed(t: TreeText, guid: ProcessGuid, node: ProcessText)
    requires
        well_formed(t),
        node.guid == guid,
        t.nodes.contains_key(guid) ==> node.children == t.nodes[guid].children,
        !t.nodes.contains_key(guid) ==> node.children.len() == 0,
    ensures
        consistent(TreeText { nodes: t.nodes.insert(guid, node), ..t }),
        forall|g: ProcessGuid| #[trigger]
            t.nodes.insert(guid, node).contains_key(g) && g != guid ==> linked(
                TreeText { nodes: t.nodes.insert(guid, node), ..t },
                g,
            ),
        forall|g: ProcessGuid| #[trigger]
            t.roots.contains(g) && g != guid ==> t.nodes.insert(guid, node)[g].parent_guid is None,
{
    let u = TreeText { nodes: t.nodes.insert(guid, node), ..t };
    assert forall|g: ProcessGuid, c: ProcessGuid|
        u.nodes.contains_key(g) && #[trigger] u.nodes[g].children.contains(
            c,
        ) implies u.nodes.contains_key(c) by {
        assert(t.nodes[g].children.contains(c));
    }
    assert forall|g: ProcessGuid| #[trigger] u.nodes.contains_key(g) && g != guid implies linked(
        u,
        g,
    ) by {
        assert(t.nodes.contains_key(g));
        assert(linked(t, g));
    }
    assert forall|p: ProcessGuid, c: ProcessGuid|
        u.pending.contains_key(p) && #[trigger] u.pending[p].contains(
            c,
        ) implies u.nodes.contains_key(c) && c != p && u.nodes[p].children.contains(c) by {
        assert(t.pending[p].contains(c));
        assert(t.nodes[p].children.contains(c));
    }
}

/// The creation of a process keeps a tree well formed, in whatever order parents
/// and children arrive: every process hangs below its parent or among the roots,
/// and no root has a parent.
pub proof fn law_creation_keeps_the_tree(t: TreeText, e: EventText)
    requires
        well_formed(t),
    ensures
        well_formed(created(t, e)),
        e.process_guid matches Some(g) ==> created(t, e).nodes.contains_key(g),
{
    if let Some(guid) = e.process_guid {
        let node = if t.nodes.contains_key(guid) {
            promoted_node(t.nodes[guid], e)
        } else {
            fresh_node(guid, e)
        };
        lemma_placed(t, guid, node);
        let before = TreeText { nodes: t.nodes.insert(guid, node), ..t };
        lemma_attached(before, guid);
        let placed = attached(before, guid);
        if placed.pending.contains_key(guid) {
            let rest = TreeText { pending: placed.pending.remove(guid), ..placed };
            assert(consistent(rest)) by {
                assert forall|p: ProcessGuid, c: ProcessGuid|
                    rest.pending.contains_key(p) && #[trigger] rest.pending[p].contains(
                        c,
                    ) implies rest.nodes.contains_key(c) && c != p
                    && rest.nodes[p].children.contains(c) by {
                    assert(placed.pending[p].contains(c));
                }
            }
            assert forall|g: ProcessGuid| #[trigger] rest.nodes.contains_key(g) implies linked(
                rest,
                g,
            ) by {
                assert(placed.nodes.contains_key(g));
                assert(linked(placed, g));
            }
            let waiting = placed.pending[guid];
            assert forall|i: int| 0 <= i < waiting.len() implies rest.nodes.contains_key(
                #[trigger] waiting[i],
            ) && waiting[i] != guid by {
                assert(placed.pending[guid].contains(waiting[i]));
            }
            lemma_all_adopted(rest, guid, waiting);
            assert(all_adopted(rest, guid, waiting).nodes.dom().contains(guid));
        }
    }
}

/// The end of a process changes nothing but its end time.
pub proof fn law_termination_keeps_the_tree(t: TreeText, guid: ProcessGuid, end_time: Timestamp)
    requires
        well_formed(t),
    ensures
        well_formed(terminated(t, guid, end_time)),
        terminated(t, guid, end_time).nodes.dom() == t.nodes.dom(),
{
    let u = terminated(t, guid, end_time);
    assert(u.nodes.dom() =~= t.nodes.dom());
    assert forall|g: ProcessGuid| #[trigger] u.nodes.contains_key(g) implies linked(u, g) by {
        assert(t.nodes.contains_key(g));
        assert(linked(t, g));
    }
    assert forall|g: ProcessGuid, c: ProcessGuid|
        u.nodes.contains_key(g) && #[trigger] u.nodes[g].children.contains(
            c,
        ) implies u.nodes.contains_key(c) by {
        assert(t.nodes[g].children.contains(c));
    }
    assert forall|p: ProcessGuid, c: ProcessGuid|
        u.pending.contains_key(p) && #[trigger] u.pending[p].contains(
            c,
        ) implies u.nodes.contains_key(c) && c != p && u.nodes[p].children.contains(c) by {
        assert(t.pending[p].contains(c));
        assert(t.nodes[p].children.contains(c));
    }
}

/// A list sorted by start time holds the same processes.
proof fn lemma_sorted_keeps(
    nodes: Map<ProcessGuid, ProcessText>,
    s: Seq<ProcessGuid>,
    out: Seq<ProcessGuid>,
)
    requires
        sorted_by_start(nodes, s, out),
        s.no_duplicates(),
        s.len() <= usize::MAX,
    ensures
        out.no_duplicates(),
        forall|g: ProcessGuid| #[trigger] out.contains(g) <==> s.contains(g),
{
    let order = choose|order: Seq<usize>| #[trigger]
        sorts(start_times(nodes, s), order) && out == picked(s, order);
    crate::order::lemma_distinct(start_times(nodes, s), order);
    assert forall|g: ProcessGuid| #[trigger] out.contains(g) <==> s.contains(g) by {
        if s.contains(g) {
            let i = choose|i: int| 0 <= i < s.len() && s[i] == g;
            assert(order.contains(i as usize));
            let j = choose|j: int| 0 <= j < order.len() && order[j] == i as usize;
            assert(out[j] == g);
        }
        if out.contains(g) {
            let j = choose|j: int| 0 <= j < out.len() && out[j] == g;
            assert(s[order[j] as int] == g);
        }
    }
}

/// Finalisation keeps every process and every link, and leaves nothing waiting.
pub proof fn law_finalisation_keeps_the_tree(t: TreeText, u: TreeText)
    requires
        well_formed(t),
        finalised(t, u),
        t.roots.len() <= usize::MAX,
        forall|g: ProcessGuid| #[trigger]
            t.nodes.contains_key(g) ==> t.nodes[g].children.len() <= usize::MAX,
    ensures
        well_formed(u),
        u.nodes.dom() == t.nodes.dom(),
        forall|g: ProcessGuid| #[trigger] u.roots.contains(g) <==> t.roots.contains(g),
        forall|g: ProcessGuid, c: ProcessGuid|
            t.nodes.contains_key(g) ==> (#[trigger] u.nodes[g].children.contains(c) <==> t
                .nodes[g].children.contains(c)),
{
    lemma_sorted_keeps(t.nodes, t.roots, u.roots);
    assert forall|g: ProcessGuid, c: ProcessGuid| t.nodes.contains_key(g) implies (
    #[trigger] u.nodes[g].children.contains(c) <==> t.nodes[g].children.contains(c)) by {
        lemma_sorted_keeps(t.nodes, t.nodes[g].children, u.nodes[g].children);
    }
    assert forall|g: ProcessGuid| #[trigger] u.nodes.contains_key(g) implies u.nodes[g].guid == g
        && u.nodes[g].children.no_duplicates() by {
        assert(t.nodes.contains_key(g));
        lemma_sorted_keeps(t.nodes, t.nodes[g].children, u.nodes[g].children);
    }
    assert forall|g: ProcessGuid| #[trigger] u.nodes.contains_key(g) implies linked(u, g) by {
        assert(t.nodes.contains_key(g));
        assert(linked(t, g));
        if let Some(p) = t.nodes[g].parent_guid {
            assert(t.nodes.contains_key(p));
            assert(u.nodes[p].children.contains(g));
        }
    }
    assert forall|g: ProcessGuid, c: ProcessGuid|
        u.nodes.contains_key(g) && #[trigger] u.nodes[g].children.contains(
            c,
        ) implies u.nodes.contains_key(c) by {
        assert(t.nodes.contains_key(g));
        assert(t.nodes[g].children.contains(c));
    }
}

/// Sorting a list by start time twice is the same as sorting it once.
proof fn lemma_sorted_twice(
    nodes: Map<ProcessGuid, ProcessText>,
    others: Map<ProcessGuid, ProcessText>,
    s: Seq<ProcessGuid>,
    once: Seq<ProcessGuid>,
    twice: Seq<ProcessGuid>,
)
    requires
        sorted_by_start(nodes, s, once),
        sorted_by_start(others, once, twice),
        s.len() <= usize::MAX,
        others.dom() == nodes.dom(),
        forall|g: ProcessGuid| #[trigger]
            nodes.contains_key(g) ==> others[g].start_time == nodes[g].start_time,
    ensures
        twice == once,
{
    let times = start_times(nodes, s);
    let order = choose|order: Seq<usize>| #[trigger]
        sorts(start_times(nodes, s), order) && once == picked(s, order);
    let again = start_times(others, once);
    let second = choose|second: Seq<usize>| #[trigger]
        sorts(start_times(others, once), second) && twice == picked(once, second);
    let same = Seq::new(once.len(), |i: int| i as usize);
    assert forall|i: int| 0 <= i < once.len() implies #[trigger] again[i] == times[order[i] as int] by {
        let g = once[i];
        assert(g == s[order[i] as int]);
        assert(others.dom().contains(g) == nodes.dom().contains(g));
    }
    assert forall|i: int, j: int| 0 <= i < j < same.len() implies goes_before(
        again,
        #[trigger] same[i],
        #[trigger] same[j],
    ) by {
        assert(goes_before(times, order[i], order[j]));
        assert(again[i] == times[order[i] as int]);
        assert(again[j] == times[order[j] as int]);
    }
    assert forall|p: usize| 0 <= p < once.len() implies #[trigger] same.contains(p) by {
        assert(same[p as int] == p);
    }
    assert(sorts(again, same));
    crate::order::law_sorting_is_unique(again, second, same);
    assert(twice =~= once);
}

/// Finalising a tree that is finalised already changes nothing.
pub proof fn law_finalising_again_changes_nothing(t: TreeText, u: TreeText, v: TreeText)
    requires
        finalised(t, u),
        finalised(u, v),
        t.roots.len() <= usize::MAX,
        forall|g: ProcessGuid| #[trigger]
            t.nodes.contains_key(g) ==> t.nodes[g].children.len() <= usize::MAX,
    ensures
        v == u,
{
    assert forall|g: ProcessGuid| #[trigger] t.nodes.contains_key(g) implies u.nodes[g].start_time
        == t.nodes[g].start_time by {}
    lemma_sorted_twice(t.nodes, u.nodes, t.roots, u.roots, v.roots);
    assert forall|g: ProcessGuid| #[trigger] u.nodes.contains_key(g) implies v.nodes[g]
        == u.nodes[g] by {
        assert(t.nodes.dom().contains(g));
        assert(t.nodes.contains_key(g));
        lemma_sorted_twice(
            t.nodes,
            u.nodes,
            t.nodes[g].children,
            u.nodes[g].children,
            v.nodes[g].children,
        );
    }
    assert(v.nodes =~= u.nodes);
    assert(v.pending =~= u.pending);
}

/// Adopting children that stand among those of their parent already leaves them
/// as they are.
proof fn lemma_adopted_already(
    t: TreeText,
    parent: ProcessGuid,
    children: Seq<ProcessGuid>,
)
    requires
        t.nodes.contains_key(parent),
        forall|i: int|
            0 <= i < children.len() ==> t.nodes[parent].children.contains(#[trigger] children[i])
                && children[i] != parent,
    ensures
        all_adopted(t, parent, children).nodes.contains_key(parent),
        all_adopted(t, parent, children).nodes[parent].children == t.nodes[parent].children,
    decreases children.len(),
{
    if children.len() > 0 {
        let front = children.drop_last();
        assert forall|i: int| 0 <= i < front.len() implies t.nodes[parent].children.contains(
            #[trigger] front[i],
        ) && front[i] != parent by {
            assert(front[i] == children[i]);
        }
        lemma_adopted_already(t, parent, front);
        assert(children[children.len() - 1] == children.last());
    }
}

/// The creation event of a placeholder leaves its children as they were, unless
/// the event says that the process is its own parent.
pub proof fn law_promotion_keeps_the_children(t: TreeText, e: EventText, guid: ProcessGuid)
    requires
        well_formed(t),
        t.nodes.contains_key(guid),
        e.process_guid == Some(guid),
        promoted_node(t.nodes[guid], e).parent_guid != Some(guid),
    ensures
        created(t, e).nodes.contains_key(guid),
        created(t, e).nodes[guid].children == t.nodes[guid].children,
        !created(t, e).nodes[guid].is_synthetic,
{
    let node = promoted_node(t.nodes[guid], e);
    lemma_placed(t, guid, node);
    let before = TreeText { nodes: t.nodes.insert(guid, node), ..t };
    lemma_attached(before, guid);
    let placed = attached(before, guid);
    assert(placed.nodes[guid].children == t.nodes[guid].children);
    if placed.pending.contains_key(guid) {
        let rest = TreeText { pending: placed.pending.remove(guid), ..placed };
        let waiting = placed.pending[guid];
        assert forall|i: int| 0 <= i < waiting.len() implies rest.nodes[guid].children.contains(
            #[trigger] waiting[i],
        ) && waiting[i] != guid by {
            assert(placed.pending[guid].contains(waiting[i]));
        }
        lemma_adopted_already(rest, guid, waiting);
        lemma_all_adopted_keeps(rest, guid, waiting, guid);
    }
}

/// Adoption leaves the parent of every other process and the mark of a
/// placeholder as they are.
proof fn lemma_all_adopted_keeps(
    t: TreeText,
    parent: ProcessGuid,
    children: Seq<ProcessGuid>,
    g: ProcessGuid,
)
    requires
        t.nodes.contains_key(g),
    ensures
        all_adopted(t, parent, children).nodes.contains_key(g),
        !children.contains(g) ==> all_adopted(t, parent, children).nodes[g].parent_guid
            == t.nodes[g].parent_guid,
        all_adopted(t, parent, children).nodes[g].is_synthetic == t.nodes[g].is_synthetic,
    decreases children.len(),
{
    if children.len() > 0 {
        let front = children.drop_last();
        lemma_all_adopted_keeps(t, parent, front, g);
        if !children.contains(g) {
            if front.contains(g) {
                let i = choose|i: int| 0 <= i < front.len() && front[i] == g;
                assert(children[i] == g);
            }
            assert(children[children.len() - 1] != g);
        }
    }
}

/// A creation puts its process into the tree and takes none out.
pub proof fn lemma_created_nodes(t: TreeText, e: EventText, g: ProcessGuid)
    requires
        t.nodes.contains_key(g) || e.process_guid == Some(g),
    ensures
        created(t, e).nodes.contains_key(g),
{
    if let Some(guid) = e.process_guid {
        let node = if t.nodes.contains_key(guid) {
            promoted_node(t.nodes[guid], e)
        } else {
            fresh_node(guid, e)
        };
        let placed = attached(TreeText { nodes: t.nodes.insert(guid, node), ..t }, guid);
        assert(placed.nodes.contains_key(g));
        if placed.pending.contains_key(guid) {
            lemma_all_adopted_keeps(
                TreeText { pending: placed.pending.remove(guid), ..placed },
                guid,
                placed.pending[guid],
                g,
            );
        }
    }
}

/// A process whose creation names a parent hangs below that parent, whether the
/// parent was seen before or not, and is no root.
pub proof fn law_child_hangs_below_its_parent(
    t: TreeText,
    e: EventText,
    guid: ProcessGuid,
    parent: ProcessGuid,
)
    requires
        well_formed(t),
        e.process_guid == Some(guid),
        e.detail matches EventDetail::ProcessCreate { parent_process_guid, .. }
            && parent_process_guid == Some(parent),
    ensures
        created(t, e).nodes[guid].parent_guid == Some(parent),
        created(t, e).nodes.contains_key(parent),
        created(t, e).nodes[parent].children.contains(guid),
        !created(t, e).roots.contains(guid),
{
    law_creation_keeps_the_tree(t, e);
    let node = if t.nodes.contains_key(guid) {
        promoted_node(t.nodes[guid], e)
    } else {
        fresh_node(guid, e)
    };
    let before = TreeText { nodes: t.nodes.insert(guid, node), ..t };
    lemma_placed(t, guid, node);
    lemma_attached(before, guid);
    let placed = attached(before, guid);
    assert(placed.nodes[guid].parent_guid == Some(parent));
    if placed.pending.contains_key(guid) {
        let rest = TreeText { pending: placed.pending.remove(guid), ..placed };
        assert(!placed.pending[guid].contains(guid));
        lemma_all_adopted_keeps(rest, guid, placed.pending[guid], guid);
    }
    assert(linked(created(t, e), guid));
}

/// A parent that has not been seen gets a placeholder, which is a root.
pub proof fn law_unseen_parent_gets_a_placeholder(
    t: TreeText,
    e: EventText,
    guid: ProcessGuid,
    parent: ProcessGuid,
)
    requires
        well_formed(t),
        e.process_guid == Some(guid),
        e.detail matches EventDetail::ProcessCreate { parent_process_guid, .. }
            && parent_process_guid == Some(parent),
        parent != guid,
        !t.nodes.contains_key(parent),
    ensures
        created(t, e).nodes.contains_key(parent),
        created(t, e).nodes[parent].is_synthetic,
        created(t, e).nodes[parent].parent_guid is None,
        created(t, e).roots.contains(parent),
{
    law_creation_keeps_the_tree(t, e);
    let node = if t.nodes.contains_key(guid) {
        promoted_node(t.nodes[guid], e)
    } else {
        fresh_node(guid, e)
    };
    let before = TreeText { nodes: t.nodes.insert(guid, node), ..t };
    lemma_placed(t, guid, node);
    lemma_attached(before, guid);
    let placed = attached(before, guid);
    assert(placed.nodes[parent] == placeholder(parent, before.nodes[guid]));
    if placed.pending.contains_key(guid) {
        let rest = TreeText { pending: placed.pending.remove(guid), ..placed };
        let waiting = placed.pending[guid];
        assert(!waiting.contains(parent)) by {
            if waiting.contains(parent) {
                assert(t.pending[guid].contains(parent));
            }
        }
        lemma_all_adopted_keeps(rest, guid, waiting, parent);
    }
    assert(linked(created(t, e), parent));
}

// ---------------------------------------------------------------------------
// The tree
// ---------------------------------------------------------------------------

/// The process forest: several roots are possible.
pub struct ProcessTree {
    /// All known nodes.
    pub nodes: FxHashMap<ProcessGuid, ProcessNode>,
    /// Nodes whose parent was never observed.
    pub roots: Vec<ProcessGuid>,
    /// Children waiting for the creation event of their parent.
    pub pending_children: FxHashMap<ProcessGuid, Vec<ProcessGuid>>,
}

/// The nodes of a map, as text.
pub open spec fn nodes_map(m: FxHashMap<ProcessGuid, ProcessNode>) -> Map<
    ProcessGuid,
    ProcessText,
> {
    m@.map_values(|n: ProcessNode| n@)
}

/// Putting a node into a map puts its text there.
proof fn lemma_node_insert(
    m: Map<ProcessGuid, ProcessNode>,
    after: Map<ProcessGuid, ProcessNode>,
    g: ProcessGuid,
    n: ProcessNode,
)
    requires
        after == m.insert(g, n) || after == m.remove(g).insert(g, n),
    ensures
        after.map_values(|n: ProcessNode| n@) == m.map_values(|n: ProcessNode| n@).insert(g, n@),
{
    assert(after.map_values(|n: ProcessNode| n@) =~= m.map_values(|n: ProcessNode| n@).insert(
        g,
        n@,
    ));
}

/// The text behind an optional key.
pub fn resolve_opt(r: &SharedRodeo, key: &Option<Spur>) -> (t: Option<String>)
    requires
        *key matches Some(k) ==> crate::interner::holds(*r, k),
    ensures
        opt_text(t) == opt_interned(*r, *key),
{
    match key {
        Some(k) => Some(resolve(r, k).to_owned()),
        None => None,
    }
}

/// Takes the details of a creation event into a node.
fn take_details(node: &mut ProcessNode, detail: &EventDetail)
    ensures
        final(node)@ == with_details(old(node)@, detail@),
{
    if let EventDetail::ProcessCreate {
        command_line,
        hashes,
        parent_process_guid,
        parent_process_id,
        parent_image,
        parent_command_line,
        logon_id,
        integrity_level,
        file_version,
        description,
        product,
        company,
        original_file_name,
        ..
    } = detail {
        node.command_line = clone_opt(command_line);
        node.hashes = clone_opt(hashes);
        node.parent_guid = *parent_process_guid;
        node.parent_pid = *parent_process_id;
        node.parent_image = clone_opt(parent_image);
        node.parent_command_line = clone_opt(parent_command_line);
        node.logon_id = clone_opt(logon_id);
        node.integrity_level = clone_opt(integrity_level);
        node.file_version = clone_opt(file_version);
        node.description = clone_opt(description);
        node.product = clone_opt(product);
        node.company = clone_opt(company);
        node.original_file_name = clone_opt(original_file_name);
    }
}

/// The node that a creation event makes, from the node known before.
fn node_from_event(
    known: Option<ProcessNode>,
    guid: ProcessGuid,
    event: &SysmonEvent,
    rodeo: &SharedRodeo,
) -> (node: ProcessNode)
    requires
        event.held_by(*rodeo),
    ensures
        node@ == (match known {
            Some(n) => promoted_node(n@, event.resolved(*rodeo)),
            None => fresh_node(guid, event.resolved(*rodeo)),
        }),
{
    let image = resolve_opt(rodeo, &event.image);
    let user = resolve_opt(rodeo, &event.user);
    let computer = resolve(rodeo, &event.computer).to_owned();
    let mut node = match known {
        Some(n) => {
            let mut existing = n;
            existing.is_synthetic = false;
            existing.pid = event.process_id;
            existing.image_name = image_name_from(&image);
            existing.image = image;
            existing.user = match user {
                Some(u) => Some(u),
                None => match &event.detail {
                    EventDetail::ProcessCreate { parent_user, .. } => clone_opt(parent_user),
                    _ => None,
                },
            };
            existing.computer = computer;
            existing.start_time = event.time_created;
            existing
        },
        None => ProcessNode {
            guid,
            pid: event.process_id,
            image_name: image_name_from(&image),
            image,
            command_line: None,
            parent_guid: None,
            parent_pid: None,
            parent_image: None,
            parent_command_line: None,
            children: Vec::new(),
            start_time: event.time_created,
            end_time: None,
            user,
            hashes: None,
            integrity_level: None,
            logon_id: None,
            computer,
            file_version: None,
            description: None,
            product: None,
            company: None,
            original_file_name: None,
            is_synthetic: false,
        },
    };
    take_details(&mut node, &event.detail);
    node
}

/// Adds an item to a list, unless it holds it already.
fn add_guid(list: &mut Vec<ProcessGuid>, g: ProcessGuid)
    ensures
        final(list)@ == with_guid(old(list)@, g),
{
    if !has_guid(list, &g) {
        list.push(g);
    }
}

/// Takes an item out of a list.
fn remove_guid(list: &Vec<ProcessGuid>, g: &ProcessGuid) -> (r: Vec<ProcessGuid>)
    ensures
        r@ == without_guid(list@, *g),
{
    let mut r: Vec<ProcessGuid> = Vec::new();
    let mut i: usize = 0;
    assert(list@.take(0) =~= Seq::empty());
    while i < list.len()
        invariant
            i <= list.len(),
            r@ == without_guid(list@.take(i as int), *g),
        decreases list.len() - i,
    {
        assert(list@.take(i + 1).drop_last() =~= list@.take(i as int));
        assert(list@.take(i + 1).last() == list@[i as int]);
        if !guid_eq(&list[i], g) {
            r.push(list[i]);
        }
        i += 1;
    }
    assert(list@.take(list@.len() as int) =~= list@);
    r
}

/// Sorts a list of processes by start time.
fn sort_by_start(nodes: &FxHashMap<ProcessGuid, ProcessNode>, list: &Vec<ProcessGuid>) -> (out: Vec<
    ProcessGuid,
>)
    ensures
        sorted_by_start(nodes_map(*nodes), list@, out@),
{
    let mut keys: Vec<Option<Timestamp>> = Vec::new();
    let mut i: usize = 0;
    let ghost times = start_times(nodes_map(*nodes), list@);
    while i < list.len()
        invariant
            i <= list.len(),
            times == start_times(nodes_map(*nodes), list@),
            keys@.len() == i,
            forall|j: int| 0 <= j < i ==> (#[trigger] keys@[j]) == times[j],
        decreases list.len() - i,
    {
        let key: Option<Timestamp> = match fx_get(nodes, &list[i]) {
            Some(n) => Some(n.start_time),
            None => None,
        };
        keys.push(key);
        i += 1;
    }
    assert(keys@ =~= times);
    let order = sorted_order(&keys);
    let mut out: Vec<ProcessGuid> = Vec::new();
    let mut k: usize = 0;
    while k < order.len()
        invariant
            k <= order.len(),
            sorts(times, order@),
            times.len() == list@.len(),
            out@.len() == k,
            forall|j: int| 0 <= j < k ==> (#[trigger] out@[j]) == list@[order@[j] as int],
        decreases order.len() - k,
    {
        out.push(list[order[k]]);
        k += 1;
    }
    assert(out@ =~= picked(list@, order@));
    out
}

impl ProcessTree {
    /// The tree as text.
    pub open spec fn view(&self) -> TreeText {
        TreeText {
            nodes: nodes_map(self.nodes),
            roots: self.roots@,
            pending: self.pending_children@.map_values(|v: Vec<ProcessGuid>| v@),
        }
    }

    /// Every node hangs in the tree, and its parts fit together.
    pub open spec fn wf(&self) -> bool {
        well_formed(self@)
    }

    /// A tree without nodes.
    pub fn new() -> (t: Self)
        ensures
            t.wf(),
            t@.nodes.dom() == Set::<ProcessGuid>::empty(),
            t@.roots.len() == 0,
            t@.pending.dom() == Set::<ProcessGuid>::empty(),
    {
        let t = ProcessTree {
            nodes: fx_new(),
            roots: Vec::new(),
            pending_children: fx_new(),
        };
        assert(t@.nodes.dom() =~= Set::<ProcessGuid>::empty());
        assert(t@.pending.dom() =~= Set::<ProcessGuid>::empty());
        t
    }

    /// Takes in the creation of a process.
    pub fn insert_process_create(&mut self, event: &SysmonEvent, rodeo: &SharedRodeo)
        requires
            old(self).wf(),
            event.held_by(*rodeo),
        ensures
            final(self)@ == created(old(self)@, event.resolved(*rodeo)),
            final(self).wf(),
    {
        proof {
            law_creation_keeps_the_tree(self@, event.resolved(*rodeo));
        }
        let guid: ProcessGuid = match event.process_guid {
            Some(g) => g,
            None => {
                return ;
            },
        };
        let ghost start = self@;
        let ghost before = self.nodes@;
        let known = fx_remove(&mut self.nodes, &guid);
        let node = node_from_event(known, guid, event, rodeo);
        let ghost text = node@;
        let ghost raw = node;
        let parent_guid = node.parent_guid;
        fx_insert(&mut self.nodes, guid, node);
        proof {
            lemma_node_insert(before, self.nodes@, guid, raw);
        }
        let ghost placed = TreeText { nodes: start.nodes.insert(guid, text), ..start };
        assert(self@ == placed);
        self.attach_to_parent(guid, parent_guid);
        let ghost hung = self@;
        assert(hung == attached(placed, guid));
        match fx_remove(&mut self.pending_children, &guid) {
            None => {
                assert(self@.pending =~= hung.pending);
            },
            Some(waiting) => {
                let ghost rest = TreeText { pending: hung.pending.remove(guid), ..hung };
                assert(self@.pending =~= rest.pending);
                assert(hung.pending[guid] == waiting@);
                let mut i: usize = 0;
                assert(waiting@.take(0) =~= Seq::empty());
                while i < waiting.len()
                    invariant
                        i <= waiting.len(),
                        self@ == all_adopted(rest, guid, waiting@.take(i as int)),
                    decreases waiting.len() - i,
                {
                    assert(waiting@.take(i + 1).drop_last() =~= waiting@.take(i as int));
                    assert(waiting@.take(i + 1).last() == waiting@[i as int]);
                    self.adopt(guid, waiting[i]);
                    i += 1;
                }
                assert(waiting@.take(waiting@.len() as int) =~= waiting@);
            },
        }
    }

    /// Puts a child that waited below its parent and takes it from the roots.
    fn adopt(&mut self, parent: ProcessGuid, child: ProcessGuid)
        ensures
            final(self)@ == adopted(old(self)@, parent, child),
    {
        let ghost start = self@;
        let ghost before = self.nodes@;
        if let Some(n) = fx_remove(&mut self.nodes, &child) {
            let mut node = n;
            node.parent_guid = Some(parent);
            let ghost raw = node;
            fx_insert(&mut self.nodes, child, node);
            proof {
                lemma_node_insert(before, self.nodes@, child, raw);
            }
        } else {
            assert(self.nodes@ =~= before);
        }
        self.add_child(parent, child);
        self.roots = remove_guid(&self.roots, &child);
    }

    /// Adds a child to a node, where the node is known.
    fn add_child(&mut self, parent: ProcessGuid, child: ProcessGuid)
        ensures
            final(self)@ == (TreeText {
                nodes: if old(self)@.nodes.contains_key(parent) {
                    with_child(old(self)@.nodes, parent, child)
                } else {
                    old(self)@.nodes
                },
                ..old(self)@
            }),
    {
        let ghost before = self.nodes@;
        if let Some(n) = fx_remove(&mut self.nodes, &parent) {
            let mut node = n;
            add_guid(&mut node.children, child);
            let ghost raw = node;
            fx_insert(&mut self.nodes, parent, node);
            proof {
                lemma_node_insert(before, self.nodes@, parent, raw);
            }
        } else {
            assert(self.nodes@ =~= before);
        }
    }

    /// Attaches a node to its parent, or adds it to the roots.
    fn attach_to_parent(&mut self, guid: ProcessGuid, parent_guid: Option<ProcessGuid>)
        requires
            old(self)@.nodes.contains_key(guid),
            old(self)@.nodes[guid].parent_guid == parent_guid,
            old(self)@.nodes[guid].guid == guid,
        ensures
            final(self)@ == attached(old(self)@, guid),
    {
        match parent_guid {
            None => {
                add_guid(&mut self.roots, guid);
            },
            Some(p) => {
                self.roots = remove_guid(&self.roots, &guid);
                if fx_get(&self.nodes, &p).is_some() {
                    self.add_child(p, guid);
                } else {
                    let ghost start = self@;
                    let ghost waiting = self.pending_children@;
                    let mut list: Vec<ProcessGuid> = match fx_remove(
                        &mut self.pending_children,
                        &p,
                    ) {
                        Some(v) => v,
                        None => Vec::new(),
                    };
                    list.push(guid);
                    fx_insert(&mut self.pending_children, p, list);
                    assert(self@.pending =~= attached(old(self)@, guid).pending);
                    self.ensure_synthetic_parent(p, guid);
                }
            },
        }
    }

    /// Makes up a parent node from what a child says of it.
    fn ensure_synthetic_parent(&mut self, parent_guid: ProcessGuid, child_guid: ProcessGuid)
        requires
            old(self)@.nodes.contains_key(child_guid),
            !old(self)@.nodes.contains_key(parent_guid),
            old(self)@.nodes[child_guid].guid == child_guid,
        ensures
            final(self)@ == (TreeText {
                nodes: old(self)@.nodes.insert(
                    parent_guid,
                    placeholder(parent_guid, old(self)@.nodes[child_guid]),
                ),
                roots: with_guid(old(self)@.roots, parent_guid),
                ..old(self)@
            }),
    {
        let ghost before = self.nodes@;
        let synthetic = match fx_get(&self.nodes, &child_guid) {
            Some(child) => {
                let mut children: Vec<ProcessGuid> = Vec::new();
                children.push(child_guid);
                assert(children@ =~= seq![child_guid]);
                ProcessNode {
                    guid: parent_guid,
                    pid: child.parent_pid,
                    image_name: image_name_from(&child.parent_image),
                    image: clone_opt(&child.parent_image),
                    command_line: clone_opt(&child.parent_command_line),
                    parent_guid: None,
                    parent_pid: None,
                    parent_image: None,
                    parent_command_line: None,
                    children,
                    start_time: child.start_time,
                    end_time: None,
                    user: None,
                    hashes: None,
                    integrity_level: None,
                    logon_id: None,
                    computer: child.computer.clone(),
                    file_version: None,
                    description: None,
                    product: None,
                    company: None,
                    original_file_name: None,
                    is_synthetic: true,
                }
            },
            None => {
                return ;
            },
        };
        let ghost raw = synthetic;
        fx_insert(&mut self.nodes, parent_guid, synthetic);
        proof {
            lemma_node_insert(before, self.nodes@, parent_guid, raw);
        }
        add_guid(&mut self.roots, parent_guid);
    }

    /// Takes in the end of a process.
    pub fn update_process_terminate(&mut self, guid: ProcessGuid, end_time: Timestamp)
        requires
            old(self).wf(),
        ensures
            final(self)@ == terminated(old(self)@, guid, end_time),
            final(self).wf(),
    {
        proof {
            law_termination_keeps_the_tree(self@, guid, end_time);
        }
        let ghost before = self.nodes@;
        if let Some(n) = fx_remove(&mut self.nodes, &guid) {
            let mut node = n;
            node.end_time = Some(end_time);
            let ghost raw = node;
            fx_insert(&mut self.nodes, guid, node);
            proof {
                lemma_node_insert(before, self.nodes@, guid, raw);
            }
        } else {
            assert(self.nodes@ =~= before);
        }
    }

    /// Finalises the tree once all events are in: sorts the roots and the
    /// children of every node by start time.
    pub fn finalise(&mut self)
        requires
            old(self).wf(),
        ensures
            finalised(old(self)@, final(self)@),
            final(self).wf(),
    {
        let ghost start = self@;
        let ghost old_nodes = self.nodes@;
        self.pending_children = fx_new();
        assert(self@.pending.dom() =~= Set::<ProcessGuid>::empty());
        let count: usize = self.roots.len();
        self.roots = sort_by_start(&self.nodes, &self.roots);
        let guids = fx_keys(&self.nodes);
        let mut i: usize = 0;
        while i < guids.len()
            invariant
                i <= guids.len(),
                old_nodes == old(self).nodes@,
                start == old(self)@,
                guids@.no_duplicates(),
                guids@.to_set() == old_nodes.dom(),
                self.nodes@.dom() == old_nodes.dom(),
                self.pending_children@.dom() == Set::<ProcessGuid>::empty(),
                sorted_by_start(start.nodes, start.roots, self.roots@),
                forall|g: ProcessGuid| #[trigger]
                    old_nodes.contains_key(g) ==> self.nodes@[g]@ == (ProcessNode {
                        children: self.nodes@[g]@.children,
                        ..old_nodes[g]@
                    }),
                forall|j: int|
                    0 <= j < i ==> sorted_by_start(
                        start.nodes,
                        start.nodes[#[trigger] guids@[j]].children,
                        self.nodes@[guids@[j]]@.children,
                    ),
                forall|j: int|
                    i <= j < guids@.len() ==> self.nodes@[#[trigger] guids@[j]]
                        == old_nodes[guids@[j]],
            decreases guids.len() - i,
        {
            let g: ProcessGuid = guids[i];
            let ghost before = self.nodes@;
            assert(guids@.to_set().contains(g));
            assert(old_nodes.contains_key(g));
            let sorted = match fx_get(&self.nodes, &g) {
                Some(n) => sort_by_start(&self.nodes, &n.children),
                None => Vec::new(),
            };
            assert(start_times(nodes_map(self.nodes), start.nodes[g].children) =~= start_times(
                start.nodes,
                start.nodes[g].children,
            ));
            assert(sorted_by_start(start.nodes, start.nodes[g].children, sorted@)) by {
                let order = choose|order: Seq<usize>| #[trigger]
                    sorts(start_times(nodes_map(self.nodes), start.nodes[g].children), order)
                        && sorted@ == picked(start.nodes[g].children, order);
                assert(sorts(start_times(start.nodes, start.nodes[g].children), order));
            }
            if let Some(n) = fx_remove(&mut self.nodes, &g) {
                let mut node = n;
                node.children = sorted;
                fx_insert(&mut self.nodes, g, node);
            }
            assert(self.nodes@.dom() =~= old_nodes.dom());
            i += 1;
        }
        proof {
            assert forall|g: ProcessGuid| #[trigger]
                start.nodes.contains_key(g) implies sorted_by_start(
                start.nodes,
                start.nodes[g].children,
                self@.nodes[g].children,
            ) by {
                assert(guids@.to_set().contains(g));
                let j = choose|j: int| 0 <= j < guids@.len() && guids@[j] == g;
                assert(guids@[j] == g);
            }
            assert(self@.nodes.dom() =~= start.nodes.dom());
            assert(self@.pending.dom() =~= Set::<ProcessGuid>::empty());
            assert forall|g: ProcessGuid| #[trigger] start.nodes.contains_key(g) implies start
                .nodes[g].children.len() <= usize::MAX by {
                assert(start.nodes[g].children == old_nodes[g].children@);
                assert(old_nodes[g].children.len() <= usize::MAX);
            }
            law_finalisation_keeps_the_tree(start, self@);
        }
    }

    /// The roots, sorted by start time once the tree is finalised.
    pub fn roots(&self) -> (r: &[ProcessGuid])
        ensures
            r@ == self@.roots,
    {
        self.roots.as_slice()
    }

    /// The children of a process; none for an unknown one.
    pub fn children_of(&self, guid: &ProcessGuid) -> (r: &[ProcessGuid])
        ensures
            r@ == (if self@.nodes.contains_key(*guid) {
                self@.nodes[*guid].children
            } else {
                Seq::empty()
            }),
    {
        match fx_get(&self.nodes, guid) {
            Some(n) => n.children.as_slice(),
            None => {
                let r: &[ProcessGuid] = &[];
                assert(r@ =~= Seq::empty());
                r
            },
        }
    }

    /// The node of a process.
    pub fn get(&self, guid: &ProcessGuid) -> (r: Option<&ProcessNode>)
        ensures
            match r {
                Some(n) => self@.nodes.contains_key(*guid) && self@.nodes[*guid] == n@,
                None => !self@.nodes.contains_key(*guid),
            },
    {
        fx_get(&self.nodes, guid)
    }

    /// The number of nodes.
    pub fn len(&self) -> (n: usize)
        ensures
            n == self@.nodes.dom().len(),
            self@.nodes.dom().finite(),
    {
        assert(self@.nodes.dom() =~= self.nodes@.dom());
        fx_len(&self.nodes)
    }

    /// Whether there are no nodes.
    pub fn is_empty(&self) -> (r: bool)
        ensures
            r == (self@.nodes.dom() == Set::<ProcessGuid>::empty()),
    {
        let n: usize = self.len();
        proof {
            if n == 0 {
                assert(self@.nodes.dom() =~= Set::<ProcessGuid>::empty());
            }
        }
        n == 0
    }
}

impl Default for ProcessTree {
    /// A tree without nodes.
    fn default() -> (t: Self)
        ensures
            t.wf(),
            t@.nodes.dom() == Set::<ProcessGuid>::empty(),
            t@.roots.len() == 0,
            t@.pending.dom() == Set::<ProcessGuid>::empty(),
    {
        ProcessTree::new()
    }
}

} // verus!
