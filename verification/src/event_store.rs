//! Events with indices by process, event type and target process.

use crate::event::SysmonEvent;
use crate::fxmap::{fx_get, fx_insert, fx_keys, fx_new, fx_remove, FxHashMap, FxKey};
use crate::guid::ProcessGuid;
use crate::order::{lemma_distinct, sorted_order};
use vstd::prelude::*;

verus! {

// ---------------------------------------------------------------------------
// Positions
// ---------------------------------------------------------------------------

/// A group of events.
pub enum Group {
    /// Those of a process.
    Process(ProcessGuid),
    /// Those of an event type.
    Type(u16),
    /// Those aimed at a process.
    Target(ProcessGuid),
    /// Those of a process that are of one of some event types.
    ProcessAndTypes(ProcessGuid, Seq<u16>),
    /// Those of a process that are of one of some event types, and those aimed at
    /// it.
    TypesOrTarget(ProcessGuid, Seq<u16>),
    /// Those of a number of processes.
    Processes(Set<ProcessGuid>),
}

/// Whether an event belongs to a group.
pub open spec fn belongs(e: SysmonEvent, g: Group) -> bool {
    match g {
        Group::Process(p) => e.process_guid == Some(p),
        Group::Type(id) => e.event_id == id,
        Group::Target(p) => e.detail.target() == Some(p),
        Group::ProcessAndTypes(p, ids) => e.process_guid == Some(p) && ids.contains(e.event_id),
        Group::TypesOrTarget(p, ids) => (e.process_guid == Some(p) && ids.contains(e.event_id))
            || e.detail.target() == Some(p),
        Group::Processes(set) => e.process_guid matches Some(p) && set.contains(p),
    }
}

/// The positions of the events of a group, in order.
pub open spec fn positions(events: Seq<SysmonEvent>, g: Group) -> Seq<usize>
    decreases events.len(),
{
    if events.len() == 0 {
        Seq::empty()
    } else {
        let front = positions(events.drop_last(), g);
        if belongs(events.last(), g) {
            front.push((events.len() - 1) as usize)
        } else {
            front
        }
    }
}

/// The positions of a group are exactly those at which its events stand, each
/// once and in ascending order.
pub proof fn law_positions_are_exact(events: Seq<SysmonEvent>, g: Group)
    requires
        events.len() <= usize::MAX,
    ensures
        forall|k: int|
            0 <= k < positions(events, g).len() ==> (#[trigger] positions(events, g)[k])
                < events.len() && belongs(events[positions(events, g)[k] as int], g),
        forall|i: int|
            0 <= i < events.len() && belongs(#[trigger] events[i], g) ==> positions(
                events,
                g,
            ).contains(i as usize),
        forall|j: int, k: int|
            0 <= j < k < positions(events, g).len() ==> (#[trigger] positions(events, g)[j]) < (
            #[trigger] positions(events, g)[k]),
    decreases events.len(),
{
    if events.len() > 0 {
        let front = events.drop_last();
        law_positions_are_exact(front, g);
        let p = positions(front, g);
        let q = positions(events, g);
        assert forall|k: int| 0 <= k < q.len() implies (#[trigger] q[k]) < events.len() && belongs(
            events[q[k] as int],
            g,
        ) by {
            if k < p.len() {
                assert(q[k] == p[k]);
                assert(front[p[k] as int] == events[p[k] as int]);
            }
        }
        assert forall|i: int|
            0 <= i < events.len() && belongs(#[trigger] events[i], g) implies q.contains(
            i as usize,
        ) by {
            if i < front.len() {
                assert(belongs(front[i], g));
                assert(p.contains(i as usize));
                let k = choose|k: int| 0 <= k < p.len() && p[k] == i as usize;
                assert(q[k] == i as usize);
            } else {
                assert(q[q.len() - 1] == i as usize);
            }
        }
        assert forall|j: int, k: int| 0 <= j < k < q.len() implies (#[trigger] q[j]) < (
        #[trigger] q[k]) by {
            assert(q[j] == p[j]);
            if k < p.len() {
                assert(q[k] == p[k]);
            } else {
                assert(p[j] < front.len());
            }
        }
    }
}

/// There are no more positions than events.
pub proof fn lemma_positions_len(events: Seq<SysmonEvent>, g: Group)
    ensures
        positions(events, g).len() <= events.len(),
    decreases events.len(),
{
    if events.len() > 0 {
        lemma_positions_len(events.drop_last(), g);
    }
}

/// Two ascending lists of the same positions are the same list.
proof fn lemma_ascending_unique(a: Seq<usize>, b: Seq<usize>)
    requires
        forall|i: int, j: int| 0 <= i < j < a.len() ==> a[i] < a[j],
        forall|i: int, j: int| 0 <= i < j < b.len() ==> b[i] < b[j],
        forall|p: usize| a.contains(p) <==> b.contains(p),
    ensures
        a == b,
    decreases a.len(),
{
    if a.len() == 0 {
        if b.len() > 0 {
            assert(b.contains(b[0]));
        }
        assert(a =~= b);
    } else {
        assert(a.contains(a.last()));
        assert(b.contains(a.last()));
        assert(b.contains(b.last()));
        let i = choose|i: int| 0 <= i < b.len() && b[i] == a.last();
        let j = choose|j: int| 0 <= j < a.len() && a[j] == b.last();
        assert(a.last() == b.last());
        let fa = a.drop_last();
        let fb = b.drop_last();
        assert forall|p: usize| fa.contains(p) <==> fb.contains(p) by {
            if fa.contains(p) {
                let k = choose|k: int| 0 <= k < fa.len() && fa[k] == p;
                assert(a[k] == p);
                assert(a.contains(p));
                let m = choose|m: int| 0 <= m < b.len() && b[m] == p;
                assert(fb[m] == p);
            }
            if fb.contains(p) {
                let k = choose|k: int| 0 <= k < fb.len() && fb[k] == p;
                assert(b[k] == p);
                assert(b.contains(p));
                let m = choose|m: int| 0 <= m < a.len() && a[m] == p;
                assert(fa[m] == p);
            }
        }
        lemma_ascending_unique(fa, fb);
        assert(a =~= fa.push(a.last()));
        assert(b =~= fb.push(b.last()));
    }
}

/// An ascending list of exactly the positions at which the events of a group
/// stand is the list of positions of the group.
pub proof fn law_positions_are_determined(events: Seq<SysmonEvent>, g: Group, p: Seq<usize>)
    requires
        events.len() <= usize::MAX,
        forall|j: int, k: int| 0 <= j < k < p.len() ==> p[j] < p[k],
        forall|k: int|
            0 <= k < p.len() ==> (#[trigger] p[k]) < events.len() && belongs(events[p[k] as int], g),
        forall|i: usize| i < events.len() && belongs(events[i as int], g) ==> #[trigger] p.contains(i),
    ensures
        p == positions(events, g),
{
    law_positions_are_exact(events, g);
    let q = positions(events, g);
    assert forall|i: usize| p.contains(i) <==> q.contains(i) by {
        if p.contains(i) {
            let k = choose|k: int| 0 <= k < p.len() && p[k] == i;
            assert(belongs(events[i as int], g));
        }
        if q.contains(i) {
            let k = choose|k: int| 0 <= k < q.len() && q[k] == i;
            assert(belongs(events[q[k] as int], g));
        }
    }
    lemma_ascending_unique(p, q);
}

/// A group has positions if and only if one of the events belongs to it.
proof fn lemma_positions_nonempty(events: Seq<SysmonEvent>, g: Group)
    ensures
        positions(events, g).len() > 0 <==> exists|i: int|
            0 <= i < events.len() && belongs(#[trigger] events[i], g),
    decreases events.len(),
{
    if events.len() > 0 {
        let front = events.drop_last();
        lemma_positions_nonempty(front, g);
        if exists|i: int| 0 <= i < front.len() && belongs(#[trigger] front[i], g) {
            let i = choose|i: int| 0 <= i < front.len() && belongs(#[trigger] front[i], g);
            assert(belongs(events[i], g));
        }
        if exists|i: int| 0 <= i < events.len() && belongs(#[trigger] events[i], g) {
            let i = choose|i: int| 0 <= i < events.len() && belongs(#[trigger] events[i], g);
            if i < front.len() {
                assert(belongs(front[i], g));
            }
        }
    }
}

/// The positions of the events of a process that are of one of some types are
/// found among its positions.
spec fn kept(events: Seq<SysmonEvent>, p: Seq<usize>, ids: Seq<u16>) -> Seq<usize>
    decreases p.len(),
{
    if p.len() == 0 {
        Seq::empty()
    } else {
        let front = kept(events, p.drop_last(), ids);
        if ids.contains(events[p.last() as int].event_id) {
            front.push(p.last())
        } else {
            front
        }
    }
}

/// What is kept does not depend on later events.
proof fn lemma_kept_prefix(events: Seq<SysmonEvent>, e: SysmonEvent, p: Seq<usize>, ids: Seq<u16>)
    requires
        forall|k: int| 0 <= k < p.len() ==> (#[trigger] p[k]) < events.len(),
    ensures
        kept(events.push(e), p, ids) == kept(events, p, ids),
    decreases p.len(),
{
    if p.len() > 0 {
        assert forall|k: int| 0 <= k < p.drop_last().len() implies (#[trigger] p.drop_last()[k])
            < events.len() by {
            assert(p.drop_last()[k] == p[k]);
        }
        lemma_kept_prefix(events, e, p.drop_last(), ids);
        assert(p[p.len() - 1] < events.len());
    }
}

/// Keeping those of some types among the positions of a process gives the
/// positions of the group of both.
proof fn lemma_kept(events: Seq<SysmonEvent>, guid: ProcessGuid, ids: Seq<u16>)
    requires
        events.len() <= usize::MAX,
    ensures
        kept(events, positions(events, Group::Process(guid)), ids) == positions(
            events,
            Group::ProcessAndTypes(guid, ids),
        ),
    decreases events.len(),
{
    if events.len() > 0 {
        let front = events.drop_last();
        let e = events.last();
        let p = positions(front, Group::Process(guid));
        lemma_kept(front, guid, ids);
        law_positions_are_exact(front, Group::Process(guid));
        assert(events =~= front.push(e));
        lemma_kept_prefix(front, e, p, ids);
        if belongs(e, Group::Process(guid)) {
            let q = positions(events, Group::Process(guid));
            assert(q.drop_last() =~= p);
        }
    }
}

// ---------------------------------------------------------------------------
// The store
// ---------------------------------------------------------------------------

/// Multi-index event store. Events are held in the order in which they were
/// inserted, and each index holds positions into that list.
pub struct EventStore {
    /// All events in insertion order.
    pub events: Vec<SysmonEvent>,
    /// Process to the positions of its events.
    pub by_process: FxHashMap<ProcessGuid, Vec<usize>>,
    /// Event number to the positions of the events with it.
    pub by_event_type: FxHashMap<u16, Vec<usize>>,
    /// Process to the positions of the cross-process events aimed at it.
    pub by_target_process: FxHashMap<ProcessGuid, Vec<usize>>,
}

/// Whether an index holds, under the key of each group that has events, the
/// positions of those events, and nothing else.
pub open spec fn indexed<K>(
    index: Map<K, Vec<usize>>,
    events: Seq<SysmonEvent>,
    group: spec_fn(K) -> Group,
) -> bool {
    forall|k: K| #[trigger]
        index.contains_key(k) == (positions(events, group(k)).len() > 0) && (index.contains_key(k)
            ==> index[k]@ == positions(events, group(k)))
}

/// Whether a list holds the number of events of each type that has any, in
/// ascending order of the event numbers.
pub open spec fn tallied(counts: Seq<(u16, usize)>, events: Seq<SysmonEvent>) -> bool {
    &&& forall|i: int|
        0 <= i < counts.len() ==> (#[trigger] counts[i]).1 == positions(
            events,
            Group::Type(counts[i].0),
        ).len() && counts[i].1 > 0
    &&& forall|i: int, j: int|
        0 <= i < j < counts.len() ==> (#[trigger] counts[i]).0 < (#[trigger] counts[j]).0
    &&& forall|id: u16|
        positions(events, Group::Type(id)).len() > 0 ==> exists|i: int|
            0 <= i < counts.len() && (#[trigger] counts[i]).0 == id
}

/// The positions under a key of an index; none where it has no entry.
fn listed<'a, K: FxKey>(index: &'a FxHashMap<K, Vec<usize>>, key: &K) -> (r: &'a [usize])
    ensures
        index@.contains_key(*key) ==> r@ == index@[*key]@,
        !index@.contains_key(*key) ==> r@.len() == 0,
{
    match fx_get(index, key) {
        Some(v) => v.as_slice(),
        None => &[],
    }
}

/// Adds a position to the entry of a key.
fn add_position<K: FxKey>(index: &mut FxHashMap<K, Vec<usize>>, key: K, at: usize)
    ensures
        added(old(index)@, final(index)@, key, at),
{
    let mut list: Vec<usize> = match fx_remove(index, &key) {
        Some(v) => v,
        None => Vec::new(),
    };
    list.push(at);
    fx_insert(index, key, list);
    assert(index@.dom() =~= old(index)@.dom().insert(key));
}

/// Whether `after` is an index with a position added to the entry of a key.
spec fn added<K>(before: Map<K, Vec<usize>>, after: Map<K, Vec<usize>>, key: K, at: usize) -> bool {
    &&& after.dom() == before.dom().insert(key)
    &&& forall|k: K| k != key && before.contains_key(k) ==> #[trigger] after[k] == before[k]
    &&& after[key]@ == (if before.contains_key(key) {
        before[key]@
    } else {
        Seq::empty()
    }).push(at)
}

/// An index to which the position of a new event was added under the key of its
/// group agrees with the events again.
proof fn lemma_indexed_push<K>(
    before: Map<K, Vec<usize>>,
    after: Map<K, Vec<usize>>,
    events: Seq<SysmonEvent>,
    e: SysmonEvent,
    group: spec_fn(K) -> Group,
    key: Option<K>,
)
    requires
        events.len() <= usize::MAX,
        indexed(before, events, group),
        forall|k: K| belongs(e, #[trigger] group(k)) == (key == Some(k)),
        key matches Some(k) ==> added(before, after, k, events.len() as usize),
        key is None ==> after == before,
    ensures
        indexed(after, events.push(e), group),
{
    let now = events.push(e);
    assert(now.drop_last() =~= events);
    assert forall|k: K| #[trigger]
        after.contains_key(k) == (positions(now, group(k)).len() > 0) && (after.contains_key(k)
            ==> after[k]@ == positions(now, group(k))) by {
        assert(before.contains_key(k) == (positions(events, group(k)).len() > 0));
        assert(belongs(e, group(k)) == (key == Some(k)));
        if key == Some(k) {
            assert(after[k]@ =~= positions(now, group(k)));
        }
    }
}

impl EventStore {
    /// Every index agrees with the events.
    pub open spec fn wf(&self) -> bool {
        &&& indexed(self.by_process@, self.events@, |p: ProcessGuid| Group::Process(p))
        &&& indexed(self.by_event_type@, self.events@, |id: u16| Group::Type(id))
        &&& indexed(self.by_target_process@, self.events@, |p: ProcessGuid| Group::Target(p))
    }

    /// A store without events.
    pub fn new() -> (s: Self)
        ensures
            s.wf(),
            s.events@.len() == 0,
    {
        EventStore {
            events: Vec::new(),
            by_process: fx_new(),
            by_event_type: fx_new(),
            by_target_process: fx_new(),
        }
    }

    /// A store without events that has room for some.
    pub fn with_capacity(n: usize) -> (s: Self)
        ensures
            s.wf(),
            s.events@.len() == 0,
    {
        EventStore {
            events: Vec::with_capacity(n),
            by_process: fx_new(),
            by_event_type: fx_new(),
            by_target_process: fx_new(),
        }
    }

    /// Adds an event and updates all indices.
    pub fn insert(&mut self, event: SysmonEvent)
        requires
            old(self).wf(),
        ensures
            final(self).wf(),
            final(self).events@ == old(self).events@.push(event),
    {
        let at: usize = self.events.len();
        let ghost before = self.events@;
        if let Some(guid) = event.process_guid {
            add_position(&mut self.by_process, guid, at);
        }
        add_position(&mut self.by_event_type, event.event_id, at);
        if let Some(target) = event.secondary_process_guid() {
            add_position(&mut self.by_target_process, target, at);
        }
        self.events.push(event);
        proof {
            let e = self.events@.last();
            lemma_indexed_push(
                old(self).by_process@,
                self.by_process@,
                before,
                e,
                |p: ProcessGuid| Group::Process(p),
                e.process_guid,
            );
            lemma_indexed_push(
                old(self).by_event_type@,
                self.by_event_type@,
                before,
                e,
                |id: u16| Group::Type(id),
                Some(e.event_id),
            );
            lemma_indexed_push(
                old(self).by_target_process@,
                self.by_target_process@,
                before,
                e,
                |p: ProcessGuid| Group::Target(p),
                e.detail.target(),
            );
        }
    }

    /// The positions of the events of a process.
    pub fn events_for_process(&self, guid: &ProcessGuid) -> (r: &[usize])
        requires
            self.wf(),
        ensures
            r@ == positions(self.events@, Group::Process(*guid)),
    {
        let r = listed(&self.by_process, guid);
        proof {
            let g = |p: ProcessGuid| Group::Process(p);
            assert(self.by_process@.contains_key(*guid) == (positions(
                self.events@,
                g(*guid),
            ).len() > 0));
            assert(r@ =~= positions(self.events@, g(*guid)));
        }
        r
    }

    /// The positions of the events with a number.
    pub fn events_for_type(&self, event_id: u16) -> (r: &[usize])
        requires
            self.wf(),
        ensures
            r@ == positions(self.events@, Group::Type(event_id)),
    {
        let r = listed(&self.by_event_type, &event_id);
        proof {
            let g = |id: u16| Group::Type(id);
            assert(self.by_event_type@.contains_key(event_id) == (positions(
                self.events@,
                g(event_id),
            ).len() > 0));
            assert(r@ =~= positions(self.events@, g(event_id)));
        }
        r
    }

    /// The positions of the cross-process events that a process is the target of.
    pub fn events_targeting_process(&self, guid: &ProcessGuid) -> (r: &[usize])
        requires
            self.wf(),
        ensures
            r@ == positions(self.events@, Group::Target(*guid)),
    {
        let r = listed(&self.by_target_process, guid);
        proof {
            let g = |p: ProcessGuid| Group::Target(p);
            assert(self.by_target_process@.contains_key(*guid) == (positions(
                self.events@,
                g(*guid),
            ).len() > 0));
            assert(r@ =~= positions(self.events@, g(*guid)));
        }
        r
    }

    /// The positions of the events of a process that have one of the numbers.
    pub fn events_for_process_and_types(&self, guid: &ProcessGuid, event_ids: &[u16]) -> (r: Vec<
        usize,
    >)
        requires
            self.wf(),
        ensures
            r@ == positions(self.events@, Group::ProcessAndTypes(*guid, event_ids@)),
    {
        let found = self.events_for_process(guid);
        let ghost p = positions(self.events@, Group::Process(*guid));
        let mut r: Vec<usize> = Vec::new();
        let mut i: usize = 0;
        let total: usize = self.events.len();
        proof {
            law_positions_are_exact(self.events@, Group::Process(*guid));
            assert(p.take(0) =~= Seq::empty());
        }
        while i < found.len()
            invariant
                i <= found.len(),
                found@ == p,
                forall|k: int| 0 <= k < p.len() ==> (#[trigger] p[k]) < self.events@.len(),
                r@ == kept(self.events@, p.take(i as int), event_ids@),
            decreases found.len() - i,
        {
            let at: usize = found[i];
            assert(p.take(i + 1).drop_last() =~= p.take(i as int));
            assert(p.take(i + 1).last() == at);
            assert(p[i as int] < self.events@.len());
            if has_number(event_ids, self.events[at].event_id) {
                r.push(at);
            }
            i += 1;
        }
        proof {
            assert(p.take(p.len() as int) =~= p);
            lemma_kept(self.events@, *guid, event_ids@);
        }
        r
    }

    /// The positions of the events of a process that have a number.
    pub fn events_for_process_and_type(&self, guid: &ProcessGuid, event_id: u16) -> (r: Vec<usize>)
        requires
            self.wf(),
        ensures
            r@ == positions(self.events@, Group::ProcessAndTypes(*guid, seq![event_id])),
    {
        let ids: [u16; 1] = [event_id];
        assert(ids@ =~= seq![event_id]);
        self.events_for_process_and_types(guid, ids.as_slice())
    }

    /// The number of events.
    pub fn len(&self) -> (n: usize)
        ensures
            n == self.events@.len(),
    {
        self.events.len()
    }

    /// Whether there are no events.
    pub fn is_empty(&self) -> (r: bool)
        ensures
            r == (self.events@.len() == 0),
    {
        self.events.len() == 0
    }

    /// The number of events of each type that has any, in ascending order of the
    /// event numbers.
    pub fn event_type_counts(&self) -> (counts: Vec<(u16, usize)>)
        requires
            self.wf(),
        ensures
            tallied(counts@, self.events@),
    {
        let ids = fx_keys(&self.by_event_type);
        let mut keys: Vec<u64> = Vec::new();
        let mut i: usize = 0;
        while i < ids.len()
            invariant
                i <= ids.len(),
                keys@.len() == i,
                forall|j: int| 0 <= j < i ==> (#[trigger] keys@[j]) == ids@[j] as u64,
            decreases ids.len() - i,
        {
            keys.push(ids[i] as u64);
            i += 1;
        }
        let order = sorted_order(&keys);
        proof {
            lemma_distinct(keys@, order@);
        }
        let mut counts: Vec<(u16, usize)> = Vec::new();
        let mut k: usize = 0;
        let ghost g = |id: u16| Group::Type(id);
        while k < order.len()
            invariant
                self.wf(),
                g == (|id: u16| Group::Type(id)),
                k <= order.len(),
                counts@.len() == k,
                keys@.len() == ids@.len(),
                crate::order::sorts(keys@, order@),
                ids@.to_set() == self.by_event_type@.dom(),
                forall|j: int| 0 <= j < k ==> (#[trigger] counts@[j]).0 == ids@[order@[j] as int],
                forall|j: int|
                    0 <= j < k ==> (#[trigger] counts@[j]).1 == positions(
                        self.events@,
                        Group::Type(counts@[j].0),
                    ).len() && counts@[j].1 > 0,
            decreases order.len() - k,
        {
            let at: usize = order[k];
            let id: u16 = ids[at];
            proof {
                assert(ids@.to_set().contains(ids@[at as int]));
                assert(self.by_event_type@.contains_key(id));
                assert(self.by_event_type@[id]@ == positions(self.events@, g(id)));
            }
            let n: usize = match fx_get(&self.by_event_type, &id) {
                Some(v) => v.len(),
                None => 0,
            };
            counts.push((id, n));
            k += 1;
        }
        proof {
            assert forall|i: int, j: int| 0 <= i < j < counts@.len() implies (
            #[trigger] counts@[i]).0 < (#[trigger] counts@[j]).0 by {
                let a = order@[i];
                let b = order@[j];
                assert(crate::order::goes_before(keys@, a, b));
                assert(keys@[a as int] <= keys@[b as int]);
                if ids@[a as int] == ids@[b as int] {
                    assert(a == b);
                }
            }
            assert forall|id: u16|
                positions(self.events@, Group::Type(id)).len() > 0 implies exists|i: int|
                0 <= i < counts@.len() && (#[trigger] counts@[i]).0 == id by {
                assert(positions(self.events@, g(id)).len() > 0);
                assert(self.by_event_type@.contains_key(id));
                assert(ids@.to_set().contains(id));
                let at = choose|at: int| 0 <= at < ids@.len() && ids@[at] == id;
                assert(order@.contains(at as usize));
                let i = choose|i: int| 0 <= i < order@.len() && order@[i] == at as usize;
                assert(counts@[i].0 == id);
            }
        }
        counts
    }
}

impl Default for EventStore {
    /// A store without events.
    fn default() -> (s: Self)
        ensures
            s.wf(),
            s.events@.len() == 0,
    {
        EventStore::new()
    }
}

/// Whether a list holds a number.
pub fn has_number(list: &[u16], n: u16) -> (found: bool)
    ensures
        found == list@.contains(n),
{
    let mut i: usize = 0;
    while i < list.len()
        invariant
            i <= list.len(),
            forall|j: int| 0 <= j < i ==> list@[j] != n,
        decreases list.len() - i,
    {
        if list[i] == n {
            return true;
        }
        i += 1;
    }
    false
}

// ---------------------------------------------------------------------------
// Laws
// ---------------------------------------------------------------------------

/// The sum of the counts of a list.
pub open spec fn total_count(counts: Seq<(u16, usize)>) -> int
    decreases counts.len(),
{
    if counts.len() == 0 {
        0
    } else {
        total_count(counts.drop_last()) + counts.last().1
    }
}

/// The sum of the numbers of events of given types.
spec fn type_total(events: Seq<SysmonEvent>, ids: Seq<u16>) -> int
    decreases ids.len(),
{
    if ids.len() == 0 {
        0
    } else {
        type_total(events, ids.drop_last()) + positions(events, Group::Type(ids.last())).len()
    }
}

/// One more event adds one to the sum over distinct types, if its type is one of
/// them.
proof fn lemma_type_total_push(events: Seq<SysmonEvent>, ids: Seq<u16>)
    requires
        events.len() > 0,
        ids.no_duplicates(),
    ensures
        type_total(events, ids) == type_total(events.drop_last(), ids) + (if ids.contains(
            events.last().event_id,
        ) {
            1int
        } else {
            0int
        }),
    decreases ids.len(),
{
    if ids.len() > 0 {
        let front = ids.drop_last();
        let id = events.last().event_id;
        assert forall|i: int, j: int|
            0 <= i < front.len() && 0 <= j < front.len() && i != j implies front[i] != front[j] by {
            assert(front[i] == ids[i] && front[j] == ids[j]);
        }
        lemma_type_total_push(events, front);
        if front.contains(id) {
            let i = choose|i: int| 0 <= i < front.len() && front[i] == id;
            assert(ids[i] == id);
            assert(ids.last() != id);
        } else if ids.contains(id) {
            let i = choose|i: int| 0 <= i < ids.len() && ids[i] == id;
            if i < front.len() {
                assert(front[i] == id);
            }
            assert(ids.last() == id);
        } else {
            assert(ids[ids.len() - 1] != id);
        }
    }
}

/// The sum over distinct types that cover all events is the number of events.
proof fn lemma_type_total(events: Seq<SysmonEvent>, ids: Seq<u16>)
    requires
        ids.no_duplicates(),
        forall|i: int| 0 <= i < events.len() ==> ids.contains((#[trigger] events[i]).event_id),
    ensures
        type_total(events, ids) == events.len(),
    decreases events.len(),
{
    if events.len() == 0 {
        lemma_type_total_empty(events, ids);
    } else {
        let front = events.drop_last();
        assert forall|i: int| 0 <= i < front.len() implies ids.contains(
            (#[trigger] front[i]).event_id,
        ) by {
            assert(front[i] == events[i]);
        }
        lemma_type_total(front, ids);
        lemma_type_total_push(events, ids);
        assert(ids.contains(events[events.len() - 1].event_id));
    }
}

/// Without events every sum is 0.
proof fn lemma_type_total_empty(events: Seq<SysmonEvent>, ids: Seq<u16>)
    requires
        events.len() == 0,
    ensures
        type_total(events, ids) == 0,
    decreases ids.len(),
{
    if ids.len() > 0 {
        lemma_type_total_empty(events, ids.drop_last());
    }
}

/// The counts by event type add up to the number of events.
pub proof fn law_counts_add_up(events: Seq<SysmonEvent>, counts: Seq<(u16, usize)>)
    requires
        tallied(counts, events),
    ensures
        total_count(counts) == events.len(),
{
    let ids = counts.map_values(|c: (u16, usize)| c.0);
    assert forall|i: int, j: int|
        0 <= i < ids.len() && 0 <= j < ids.len() && i != j implies ids[i] != ids[j] by {
        if i < j {
            assert(counts[i].0 < counts[j].0);
        } else {
            assert(counts[j].0 < counts[i].0);
        }
    }
    assert forall|i: int| 0 <= i < events.len() implies ids.contains(
        (#[trigger] events[i]).event_id,
    ) by {
        let id = events[i].event_id;
        lemma_positions_nonempty(events, Group::Type(id));
        assert(belongs(events[i], Group::Type(id)));
        let k = choose|k: int| 0 <= k < counts.len() && (#[trigger] counts[k]).0 == id;
        assert(ids[k] == id);
    }
    lemma_type_total(events, ids);
    lemma_totals_agree(events, counts);
}

/// The sum of counts is the sum over their types.
proof fn lemma_totals_agree(events: Seq<SysmonEvent>, counts: Seq<(u16, usize)>)
    requires
        forall|i: int|
            0 <= i < counts.len() ==> (#[trigger] counts[i]).1 == positions(
                events,
                Group::Type(counts[i].0),
            ).len(),
    ensures
        total_count(counts) == type_total(events, counts.map_values(|c: (u16, usize)| c.0)),
    decreases counts.len(),
{
    if counts.len() > 0 {
        let front = counts.drop_last();
        assert forall|i: int| 0 <= i < front.len() implies (#[trigger] front[i]).1 == positions(
            events,
            Group::Type(front[i].0),
        ).len() by {
            assert(front[i] == counts[i]);
        }
        lemma_totals_agree(events, front);
        let f = |c: (u16, usize)| c.0;
        assert(counts.map_values(f).drop_last() =~= front.map_values(f));
        assert(counts[counts.len() - 1].1 == positions(
            events,
            Group::Type(counts[counts.len() - 1].0),
        ).len());
    }
}

} // verus!
