//! Stable sorting, by keys of any totally ordered type.

use crate::text::{less, text_less};
use crate::types::Timestamp;
use vstd::prelude::*;

verus! {

/// A type whose values are ranked: of any two, one comes no later than the other.
pub trait Ranked: Sized {
    /// Whether `self` comes no later than `other`.
    spec fn at_most(self, other: Self) -> bool;

    /// Every value comes no later than itself, and of two values one comes no
    /// later than the other.
    proof fn total(a: Self, b: Self)
        ensures
            a.at_most(b) || b.at_most(a),
    ;

    /// What comes no later than a value comes no later than those after it.
    proof fn transitive(a: Self, b: Self, c: Self)
        requires
            a.at_most(b),
            b.at_most(c),
        ensures
            a.at_most(c),
    ;

    /// Whether `self` comes no later than `other`.
    fn no_later(&self, other: &Self) -> (r: bool)
        ensures
            r == self.at_most(*other),
    ;
}

/// Whether position `a` goes before position `b` when keys are sorted: its key
/// comes earlier, or the keys rank the same and `a` stood first.
pub open spec fn goes_before<K: Ranked>(keys: Seq<K>, a: usize, b: usize) -> bool {
    &&& keys[a as int].at_most(keys[b as int])
    &&& keys[b as int].at_most(keys[a as int]) ==> a < b
}

/// Whether a list of positions is ordered by their keys.
pub open spec fn in_order<K: Ranked>(keys: Seq<K>, order: Seq<usize>) -> bool {
    forall|i: int, j: int|
        0 <= i < j < order.len() ==> goes_before(keys, #[trigger] order[i], #[trigger] order[j])
}

/// Whether a list holds each of the positions from `lo` up to `hi` once.
pub open spec fn covers(order: Seq<usize>, lo: int, hi: int) -> bool {
    &&& order.len() == hi - lo
    &&& forall|i: int| 0 <= i < order.len() ==> lo <= #[trigger] order[i] < hi
    &&& forall|p: usize| lo <= p < hi ==> #[trigger] order.contains(p)
}

/// Whether a list of positions is the stable sorting of keys.
pub open spec fn sorts<K: Ranked>(keys: Seq<K>, order: Seq<usize>) -> bool {
    in_order(keys, order) && covers(order, 0, keys.len() as int)
}

/// Going before is transitive.
proof fn lemma_goes_before_transitive<K: Ranked>(keys: Seq<K>, a: usize, b: usize, c: usize)
    requires
        goes_before(keys, a, b),
        goes_before(keys, b, c),
    ensures
        goes_before(keys, a, c),
{
    let (ka, kb, kc) = (keys[a as int], keys[b as int], keys[c as int]);
    K::transitive(ka, kb, kc);
    if kc.at_most(ka) {
        K::transitive(kb, kc, ka);
        K::transitive(kc, ka, kb);
    }
}

/// The first position of an ordered list goes before those that the list holds
/// and any that a later one goes before.
proof fn lemma_first<K: Ranked>(keys: Seq<K>, a: usize, s: Seq<usize>, k: int)
    requires
        in_order(keys, s),
        0 <= k < s.len(),
        goes_before(keys, a, s[k]),
    ensures
        forall|j: int| k <= j < s.len() ==> goes_before(keys, a, #[trigger] s[j]),
{
    assert forall|j: int| k <= j < s.len() implies goes_before(keys, a, #[trigger] s[j]) by {
        if j > k {
            lemma_goes_before_transitive(keys, a, s[k], s[j]);
        }
    }
}

/// Merges two ordered lists of positions; those of the first all stood before
/// those of the second.
fn merge<K: Ranked>(
    keys: &Vec<K>,
    left: &Vec<usize>,
    right: &Vec<usize>,
    lo: usize,
    mid: usize,
    hi: usize,
) -> (out: Vec<usize>)
    requires
        lo <= mid <= hi <= keys@.len(),
        in_order(keys@, left@),
        in_order(keys@, right@),
        covers(left@, lo as int, mid as int),
        covers(right@, mid as int, hi as int),
    ensures
        in_order(keys@, out@),
        covers(out@, lo as int, hi as int),
{
    let mut out: Vec<usize> = Vec::new();
    let mut i: usize = 0;
    let mut j: usize = 0;
    while i < left.len() || j < right.len()
        invariant
            i <= left@.len(),
            j <= right@.len(),
            lo <= mid <= hi <= keys@.len(),
            in_order(keys@, left@),
            in_order(keys@, right@),
            covers(left@, lo as int, mid as int),
            covers(right@, mid as int, hi as int),
            out@.len() == i + j,
            in_order(keys@, out@),
            forall|k: int| 0 <= k < out@.len() ==> lo <= #[trigger] out@[k] < hi,
            forall|k: int| 0 <= k < i ==> out@.contains(#[trigger] left@[k]),
            forall|k: int| 0 <= k < j ==> out@.contains(#[trigger] right@[k]),
            forall|k: int, m: int|
                0 <= k < out@.len() && i <= m < left@.len() ==> goes_before(
                    keys@,
                    #[trigger] out@[k],
                    #[trigger] left@[m],
                ),
            forall|k: int, m: int|
                0 <= k < out@.len() && j <= m < right@.len() ==> goes_before(
                    keys@,
                    #[trigger] out@[k],
                    #[trigger] right@[m],
                ),
        decreases left@.len() + right@.len() - i - j,
    {
        let ghost before = out@;
        let from_left = if i == left.len() {
            false
        } else if j == right.len() {
            true
        } else {
            keys[left[i]].no_later(&keys[right[j]])
        };
        let next: usize = if from_left {
            left[i]
        } else {
            right[j]
        };
        proof {
            if from_left && j < right@.len() {
                lemma_first(keys@, next, right@, j as int);
            }
            if !from_left && i < left@.len() {
                K::total(keys@[left@[i as int] as int], keys@[right@[j as int] as int]);
                lemma_first(keys@, next, left@, i as int);
            }
        }
        out.push(next);
        if from_left {
            i += 1;
        } else {
            j += 1;
        }
        proof {
            assert(out@[before.len() as int] == next);
            assert forall|p: usize| #[trigger] before.contains(p) implies out@.contains(p) by {
                let k = choose|k: int| 0 <= k < before.len() && before[k] == p;
                assert(out@[k] == p);
            }
            assert(out@.contains(next));
        }
    }
    proof {
        assert forall|p: usize| lo <= p < hi implies #[trigger] out@.contains(p) by {
            if p < mid {
                assert(left@.contains(p));
                let k = choose|k: int| 0 <= k < left@.len() && left@[k] == p;
                assert(out@.contains(left@[k]));
            } else {
                assert(right@.contains(p));
                let k = choose|k: int| 0 <= k < right@.len() && right@[k] == p;
                assert(out@.contains(right@[k]));
            }
        }
    }
    out
}

/// Sorts the positions from `lo` up to `hi` by their keys.
fn sort_range<K: Ranked>(keys: &Vec<K>, lo: usize, hi: usize) -> (out: Vec<usize>)
    requires
        lo <= hi <= keys@.len(),
    ensures
        in_order(keys@, out@),
        covers(out@, lo as int, hi as int),
    decreases hi - lo,
{
    if hi - lo < 2 {
        let mut out: Vec<usize> = Vec::new();
        if lo < hi {
            out.push(lo);
            assert(out@[0] == lo);
        }
        return out;
    }
    let mid: usize = lo + (hi - lo) / 2;
    let left = sort_range(keys, lo, mid);
    let right = sort_range(keys, mid, hi);
    merge(keys, &left, &right, lo, mid, hi)
}

/// The positions of keys in the order of the keys; keys that rank the same keep
/// their order.
pub fn sorted_order<K: Ranked>(keys: &Vec<K>) -> (order: Vec<usize>)
    ensures
        sorts(keys@, order@),
{
    sort_range(keys, 0, keys.len())
}

/// There is only one stable sorting of keys.
pub proof fn law_sorting_is_unique<K: Ranked>(keys: Seq<K>, a: Seq<usize>, b: Seq<usize>)
    requires
        sorts(keys, a),
        sorts(keys, b),
    ensures
        a == b,
{
    lemma_unique(keys, a, b, 0);
    assert(a =~= b);
}

/// Two ordered lists of the same positions agree from the start on.
proof fn lemma_unique<K: Ranked>(keys: Seq<K>, a: Seq<usize>, b: Seq<usize>, i: int)
    requires
        sorts(keys, a),
        sorts(keys, b),
        0 <= i <= a.len(),
        forall|k: int| 0 <= k < i ==> a[k] == b[k],
    ensures
        forall|k: int| 0 <= k < a.len() ==> a[k] == b[k],
    decreases a.len() - i,
{
    if i < a.len() {
        lemma_distinct(keys, a);
        lemma_distinct(keys, b);
        assert(b.contains(a[i]));
        assert(a.contains(b[i]));
        let p = choose|p: int| 0 <= p < b.len() && b[p] == a[i];
        let q = choose|q: int| 0 <= q < a.len() && a[q] == b[i];
        if p < i {
            assert(a[p] == a[i]);
        }
        if q < i {
            assert(b[q] == b[i]);
        }
        if a[i] != b[i] {
            assert(goes_before(keys, a[i], a[q]));
            assert(goes_before(keys, b[i], b[p]));
        }
        lemma_unique(keys, a, b, i + 1);
    }
}

/// An ordered list holds no position twice.
pub proof fn lemma_distinct<K: Ranked>(keys: Seq<K>, a: Seq<usize>)
    requires
        in_order(keys, a),
    ensures
        a.no_duplicates(),
{
    assert forall|i: int, j: int| 0 <= i < a.len() && 0 <= j < a.len() && i != j implies a[i]
        != a[j] by {
        if i < j {
            assert(goes_before(keys, a[i], a[j]));
        } else {
            assert(goes_before(keys, a[j], a[i]));
        }
        K::total(keys[a[i] as int], keys[a[i] as int]);
    }
}

/// The items of a list at given positions.
pub open spec fn picked<T>(items: Seq<T>, order: Seq<usize>) -> Seq<T> {
    Seq::new(order.len(), |i: int| items[order[i] as int])
}

/// Picking at the positions of a sorting keeps which items there are.
pub proof fn law_sorting_keeps_items<K: Ranked, T>(keys: Seq<K>, order: Seq<usize>, items: Seq<T>)
    requires
        sorts(keys, order),
        items.len() == keys.len(),
        items.len() <= usize::MAX,
    ensures
        picked(items, order).to_multiset() == items.to_multiset(),
{
    lemma_distinct(keys, order);
    lemma_picked_multiset(items, order);
}

/// Picking each position once keeps which items there are.
proof fn lemma_picked_multiset<T>(items: Seq<T>, order: Seq<usize>)
    requires
        order.no_duplicates(),
        covers(order, 0, items.len() as int),
        items.len() <= usize::MAX,
    ensures
        picked(items, order).to_multiset() == items.to_multiset(),
    decreases items.len(),
{
    broadcast use vstd::seq_lib::group_to_multiset_ensures;

    let p = picked(items, order);
    if items.len() == 0 {
        assert(p =~= items);
    } else {
        let n = items.len() - 1;
        let last = n as usize;
        assert(order.contains(last));
        let k = choose|k: int| 0 <= k < order.len() && order[k] == last;
        let rest = order.remove(k);
        let items2 = items.drop_last();
        assert(rest.no_duplicates());
        assert forall|i: int| 0 <= i < rest.len() implies 0 <= #[trigger] rest[i] < n by {
            if i < k {
                assert(rest[i] == order[i]);
            } else {
                assert(rest[i] == order[i + 1]);
            }
        }
        assert forall|q: usize| 0 <= q < n implies #[trigger] rest.contains(q) by {
            assert(order.contains(q));
            let i = choose|i: int| 0 <= i < order.len() && order[i] == q;
            if i < k {
                assert(rest[i] == q);
            } else {
                assert(rest[i - 1] == q);
            }
        }
        lemma_picked_multiset(items2, rest);
        assert(picked(items2, rest) =~= p.remove(k));
        assert(p[k] == items[n]);
        assert(items =~= items2.push(items[n]));
        assert(p.remove(k).to_multiset() =~= p.to_multiset().remove(p[k]));
        assert(p.to_multiset().contains(p[k]));
        assert(p.to_multiset() =~= p.remove(k).to_multiset().insert(p[k]));
    }
}

// ---------------------------------------------------------------------------
// Ranked types
// ---------------------------------------------------------------------------

impl Ranked for u64 {
    open spec fn at_most(self, other: Self) -> bool {
        self <= other
    }

    proof fn total(a: Self, b: Self) {
    }

    proof fn transitive(a: Self, b: Self, c: Self) {
    }

    fn no_later(&self, other: &Self) -> (r: bool) {
        *self <= *other
    }
}

impl Ranked for Timestamp {
    open spec fn at_most(self, other: Self) -> bool {
        !other.earlier(self)
    }

    proof fn total(a: Self, b: Self) {
    }

    proof fn transitive(a: Self, b: Self, c: Self) {
    }

    fn no_later(&self, other: &Self) -> (r: bool) {
        !other.before(self)
    }
}

impl<T: Ranked> Ranked for Option<T> {
    /// What is missing comes first.
    open spec fn at_most(self, other: Self) -> bool {
        match (self, other) {
            (None, _) => true,
            (Some(_), None) => false,
            (Some(a), Some(b)) => a.at_most(b),
        }
    }

    proof fn total(a: Self, b: Self) {
        if let (Some(x), Some(y)) = (a, b) {
            T::total(x, y);
        }
    }

    proof fn transitive(a: Self, b: Self, c: Self) {
        if let (Some(x), Some(y), Some(z)) = (a, b, c) {
            T::transitive(x, y, z);
        }
    }

    fn no_later(&self, other: &Self) -> (r: bool) {
        match (self, other) {
            (None, _) => true,
            (Some(_), None) => false,
            (Some(a), Some(b)) => a.no_later(b),
        }
    }
}

/// No text comes before itself, and of two different texts one comes first.
proof fn lemma_text_less_total(a: Seq<char>, b: Seq<char>)
    ensures
        !(text_less(a, b) && text_less(b, a)),
    decreases a.len(),
{
    if a.len() > 0 && b.len() > 0 && a[0] == b[0] {
        lemma_text_less_total(a.skip(1), b.skip(1));
    }
}

/// What is not before a text is not before those that it is not after.
proof fn lemma_text_less_transitive(a: Seq<char>, b: Seq<char>, c: Seq<char>)
    requires
        !text_less(b, a),
        !text_less(c, b),
    ensures
        !text_less(c, a),
    decreases a.len(),
{
    if a.len() > 0 && b.len() > 0 && c.len() > 0 && a[0] == b[0] && b[0] == c[0] {
        lemma_text_less_transitive(a.skip(1), b.skip(1), c.skip(1));
    }
}

impl Ranked for String {
    open spec fn at_most(self, other: Self) -> bool {
        !text_less(other@, self@)
    }

    proof fn total(a: Self, b: Self) {
        lemma_text_less_total(a@, b@);
    }

    proof fn transitive(a: Self, b: Self, c: Self) {
        lemma_text_less_transitive(a@, b@, c@);
    }

    fn no_later(&self, other: &Self) -> (r: bool) {
        !less(other.as_str(), self.as_str())
    }
}

} // verus!
