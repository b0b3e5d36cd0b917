//! Small sets: of processes, of texts and of numbers.

use crate::fxmap::{fx_get, FxHashMap};
use crate::guid::ProcessGuid;
use crate::order::{goes_before, lemma_distinct, sorted_order, Ranked};
use crate::text::{same_text, text_less, texts};
use vstd::prelude::*;

verus! {

// ---------------------------------------------------------------------------
// Processes
// ---------------------------------------------------------------------------

/// A set of processes.
pub type GuidSet = FxHashMap<ProcessGuid, ()>;

/// Whether a set holds a process.
pub fn guid_in(set: &GuidSet, g: &ProcessGuid) -> (found: bool)
    ensures
        found == set@.contains_key(*g),
{
    fx_get(set, g).is_some()
}

// ---------------------------------------------------------------------------
// Texts
// ---------------------------------------------------------------------------

/// Whether a list holds a text.
pub fn has_text(list: &Vec<String>, t: &str) -> (found: bool)
    ensures
        found == texts(list@).contains(t@),
{
    let mut i: usize = 0;
    while i < list.len()
        invariant
            i <= list.len(),
            forall|j: int| 0 <= j < i ==> (#[trigger] list@[j])@ != t@,
        decreases list.len() - i,
    {
        if same_text(list[i].as_str(), t) {
            assert(texts(list@)[i as int] == t@);
            return true;
        }
        i += 1;
    }
    proof {
        if texts(list@).contains(t@) {
            let j = choose|j: int| 0 <= j < texts(list@).len() && texts(list@)[j] == t@;
            assert(list@[j]@ == t@);
        }
    }
    false
}

/// A list of texts with one added, unless it is there already.
pub open spec fn with_text(s: Seq<Seq<char>>, t: Seq<char>) -> Seq<Seq<char>> {
    if s.contains(t) {
        s
    } else {
        s.push(t)
    }
}

/// Adds a text to a list, unless it is there already.
pub fn add_text(list: &mut Vec<String>, t: &str)
    ensures
        texts(final(list)@) == with_text(texts(old(list)@), t@),
{
    if !has_text(list, t) {
        let ghost before = list@;
        list.push(t.to_owned());
        assert(texts(list@) =~= texts(before).push(t@));
    }
}

/// A list of texts without one of them.
pub open spec fn without_text(s: Seq<Seq<char>>, t: Seq<char>) -> Seq<Seq<char>>
    decreases s.len(),
{
    if s.len() == 0 {
        s
    } else if s.last() == t {
        without_text(s.drop_last(), t)
    } else {
        without_text(s.drop_last(), t).push(s.last())
    }
}

/// A list without a text.
pub fn remove_text(list: &Vec<String>, t: &str) -> (r: Vec<String>)
    ensures
        texts(r@) == without_text(texts(list@), t@),
{
    let ghost all = texts(list@);
    let mut r: Vec<String> = Vec::new();
    let mut i: usize = 0;
    assert(all.take(0) =~= Seq::empty());
    assert(texts(r@) =~= Seq::empty());
    while i < list.len()
        invariant
            i <= list.len(),
            all == texts(list@),
            texts(r@) == without_text(all.take(i as int), t@),
        decreases list.len() - i,
    {
        assert(all.take(i + 1).drop_last() =~= all.take(i as int));
        assert(all.take(i + 1).last() == list@[i as int]@);
        if !same_text(list[i].as_str(), t) {
            let ghost before = r@;
            r.push(list[i].clone());
            assert(texts(r@) =~= texts(before).push(list@[i as int]@));
        }
        i += 1;
    }
    assert(all.take(all.len() as int) =~= all);
    r
}

/// What a list holds once a text was added.
pub proof fn lemma_with_text(s: Seq<Seq<char>>, t: Seq<char>)
    ensures
        forall|x: Seq<char>| #[trigger] with_text(s, t).contains(x) <==> s.contains(x) || x == t,
        s.no_duplicates() ==> with_text(s, t).no_duplicates(),
{
    let r = with_text(s, t);
    if !s.contains(t) {
        assert forall|x: Seq<char>| #[trigger] r.contains(x) <==> s.contains(x) || x == t by {
            if s.contains(x) {
                let i = choose|i: int| 0 <= i < s.len() && s[i] == x;
                assert(r[i] == x);
            }
            if x == t {
                assert(r[s.len() as int] == x);
            }
            if r.contains(x) {
                let i = choose|i: int| 0 <= i < r.len() && r[i] == x;
                if i < s.len() {
                    assert(s[i] == x);
                }
            }
        }
    }
}

/// What a list holds once a text was taken out.
proof fn lemma_without_text(s: Seq<Seq<char>>, t: Seq<char>)
    ensures
        forall|x: Seq<char>| #[trigger] without_text(s, t).contains(x) <==> s.contains(x) && x != t,
    decreases s.len(),
{
    if s.len() > 0 {
        let f = s.drop_last();
        lemma_without_text(f, t);
        let r = without_text(s, t);
        let rf = without_text(f, t);
        assert forall|x: Seq<char>| #[trigger] r.contains(x) <==> s.contains(x) && x != t by {
            if s.contains(x) && x != t {
                let i = choose|i: int| 0 <= i < s.len() && s[i] == x;
                if i < f.len() {
                    assert(f[i] == x);
                    assert(rf.contains(x));
                    let j = choose|j: int| 0 <= j < rf.len() && rf[j] == x;
                    assert(r[j] == x);
                } else {
                    assert(r[rf.len() as int] == x);
                }
            }
            if r.contains(x) {
                let j = choose|j: int| 0 <= j < r.len() && r[j] == x;
                if j < rf.len() {
                    assert(rf[j] == x);
                    assert(rf.contains(x));
                    let i = choose|i: int| 0 <= i < f.len() && f[i] == x;
                    assert(s[i] == x);
                } else {
                    assert(s[s.len() - 1] == x);
                }
            }
        }
    }
}

/// Checks or unchecks a text.
pub fn set_checked(list: &mut Vec<String>, t: &str, on: bool)
    ensures
        forall|x: Seq<char>| #[trigger]
            texts(final(list)@).contains(x) <==> if x == t@ {
                on
            } else {
                texts(old(list)@).contains(x)
            },
{
    proof {
        lemma_with_text(texts(list@), t@);
        lemma_without_text(texts(list@), t@);
    }
    if on {
        add_text(list, t);
    } else {
        let r = remove_text(list, t);
        *list = r;
    }
}

/// Whether texts stand in ascending order, none of them twice.
pub open spec fn ascending_texts(s: Seq<Seq<char>>) -> bool {
    forall|i: int, j: int| 0 <= i < j < s.len() ==> text_less(#[trigger] s[i], #[trigger] s[j])
}

/// Of two different texts one comes first.
proof fn lemma_text_less_either(a: Seq<char>, b: Seq<char>)
    ensures
        text_less(a, b) || text_less(b, a) || a == b,
    decreases a.len(),
{
    if a.len() > 0 && b.len() > 0 && a[0] == b[0] {
        lemma_text_less_either(a.skip(1), b.skip(1));
        if a.skip(1) == b.skip(1) {
            assert forall|i: int| 0 <= i < a.len() implies a[i] == b[i] by {
                if i > 0 {
                    assert(a.skip(1)[i - 1] == b.skip(1)[i - 1]);
                }
            }
            assert(a.skip(1).len() == b.skip(1).len());
            assert(a =~= b);
        }
    } else if a.len() == 0 && b.len() == 0 {
        assert(a =~= b);
    }
}

/// The texts of a list in ascending order.
pub fn sorted_texts(v: &Vec<String>) -> (r: Vec<String>)
    requires
        texts(v@).no_duplicates(),
    ensures
        ascending_texts(texts(r@)),
        forall|t: Seq<char>| #[trigger] texts(r@).contains(t) <==> texts(v@).contains(t),
        r@.len() == v@.len(),
{
    let order = sorted_order(v);
    let mut r: Vec<String> = Vec::new();
    let mut k: usize = 0;
    while k < order.len()
        invariant
            k <= order.len(),
            crate::order::sorts(v@, order@),
            r@.len() == k,
            forall|j: int| 0 <= j < k ==> (#[trigger] r@[j])@ == v@[order@[j] as int]@,
        decreases order.len() - k,
    {
        r.push(v[order[k]].clone());
        k += 1;
    }
    proof {
        let tv = texts(v@);
        let tr = texts(r@);
        lemma_distinct(v@, order@);
        assert forall|i: int, j: int| 0 <= i < j < tr.len() implies text_less(
            #[trigger] tr[i],
            #[trigger] tr[j],
        ) by {
            let a = order@[i];
            let b = order@[j];
            assert(goes_before(v@, a, b));
            assert(v@[a as int].at_most(v@[b as int]));
            assert(tv[a as int] != tv[b as int]);
            lemma_text_less_either(tr[i], tr[j]);
        }
        assert forall|t: Seq<char>| #[trigger] tr.contains(t) <==> tv.contains(t) by {
            if tr.contains(t) {
                let i = choose|i: int| 0 <= i < tr.len() && tr[i] == t;
                assert(tv[order@[i] as int] == t);
            }
            if tv.contains(t) {
                let i = choose|i: int| 0 <= i < tv.len() && tv[i] == t;
                assert(order@.contains(i as usize));
                let j = choose|j: int| 0 <= j < order@.len() && order@[j] == i as usize;
                assert(tr[j] == t);
            }
        }
    }
    r
}

// ---------------------------------------------------------------------------
// Numbers
// ---------------------------------------------------------------------------

/// Whether numbers stand in ascending order, none of them twice.
pub open spec fn ascending(s: Seq<i64>) -> bool {
    forall|i: int, j: int| 0 <= i < j < s.len() ==> s[i] < s[j]
}

/// Adds a number to an ascending list, unless it is there already.
pub fn add_number(list: &mut Vec<i64>, n: i64)
    requires
        ascending(old(list)@),
    ensures
        ascending(final(list)@),
        forall|x: i64| #[trigger]
            final(list)@.contains(x) <==> old(list)@.contains(x) || x == n,
{
    let ghost before = list@;
    let mut i: usize = list.len();
    while i > 0 && list[i - 1] > n
        invariant
            i <= list@.len(),
            ascending(list@),
            forall|j: int| i <= j < list@.len() ==> list@[j] > n,
        decreases i,
    {
        i -= 1;
    }
    if i > 0 && list[i - 1] == n {
        assert(before[i - 1] == n);
        return;
    }
    list.insert(i, n);
    proof {
        let after = list@;
        assert forall|a: int, b: int| 0 <= a < b < after.len() implies after[a] < after[b] by {
            let x = if a < i {
                a
            } else {
                a - 1
            };
            let y = if b < i {
                b
            } else {
                b - 1
            };
            if a == i {
                assert(after[b] == before[y]);
            } else if b == i {
                assert(after[a] == before[x]);
                if x < i - 1 {
                    assert(before[x] < before[i - 1]);
                }
            } else {
                assert(after[a] == before[x]);
                assert(after[b] == before[y]);
            }
        }
        assert forall|x: i64| #[trigger] after.contains(x) <==> before.contains(x) || x == n by {
            if before.contains(x) {
                let j = choose|j: int| 0 <= j < before.len() && before[j] == x;
                if j < i {
                    assert(after[j] == x);
                } else {
                    assert(after[j + 1] == x);
                }
            }
            if x == n {
                assert(after[i as int] == x);
            }
            if after.contains(x) {
                let j = choose|j: int| 0 <= j < after.len() && after[j] == x;
                if j < i {
                    assert(before[j] == x);
                } else if j > i {
                    assert(before[j - 1] == x);
                }
            }
        }
    }
}

} // verus!
