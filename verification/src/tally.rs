//! Counting how often things occur.

use crate::order::{covers, goes_before, sorted_order};
use crate::sets::{
    add_number, add_text, ascending, ascending_texts, lemma_with_text, sorted_texts,
};
use crate::text::{same_text, text_less, texts};
use vstd::prelude::*;

verus! {

/// How often a list holds an item.
pub open spec fn occurrences<T>(s: Seq<T>, x: T) -> nat
    decreases s.len(),
{
    if s.len() == 0 {
        0
    } else {
        occurrences(s.drop_last(), x) + if s.last() == x {
            1nat
        } else {
            0nat
        }
    }
}

/// A list holds an item that occurs in it, no more often than it is long.
proof fn lemma_occurrences<T>(s: Seq<T>, x: T)
    ensures
        s.contains(x) <==> occurrences(s, x) > 0,
        occurrences(s, x) <= s.len(),
    decreases s.len(),
{
    if s.len() > 0 {
        let f = s.drop_last();
        lemma_occurrences(f, x);
        if f.contains(x) {
            let i = choose|i: int| 0 <= i < f.len() && f[i] == x;
            assert(s[i] == x);
        }
        if s.contains(x) {
            let i = choose|i: int| 0 <= i < s.len() && s[i] == x;
            if i < f.len() {
                assert(f[i] == x);
            }
        }
        if s.last() == x {
            assert(s[s.len() - 1] == x);
        }
    }
}

// ---------------------------------------------------------------------------
// Texts
// ---------------------------------------------------------------------------

/// Counted texts, as text.
pub open spec fn counts_text(v: Seq<(String, usize)>) -> Seq<(Seq<char>, usize)> {
    v.map_values(|c: (String, usize)| (c.0@, c.1))
}

/// Whether a list holds how often each text of another list occurs in it, in
/// ascending order of the texts.
pub open spec fn tallied_texts(counts: Seq<(Seq<char>, usize)>, list: Seq<Seq<char>>) -> bool {
    &&& forall|i: int, j: int|
        0 <= i < j < counts.len() ==> text_less((#[trigger] counts[i]).0, (#[trigger] counts[j]).0)
    &&& forall|i: int|
        0 <= i < counts.len() ==> (#[trigger] counts[i]).1 == occurrences(list, counts[i].0)
            && counts[i].1 > 0
    &&& forall|t: Seq<char>| #[trigger]
        list.contains(t) ==> exists|i: int| 0 <= i < counts.len() && (#[trigger] counts[i]).0 == t
}

/// How often a list holds a text.
fn count_text(list: &Vec<String>, t: &str) -> (n: usize)
    ensures
        n == occurrences(texts(list@), t@),
{
    let ghost all = texts(list@);
    let mut n: usize = 0;
    let mut i: usize = 0;
    assert(all.take(0) =~= Seq::empty());
    while i < list.len()
        invariant
            i <= list.len(),
            n <= i,
            all == texts(list@),
            n == occurrences(all.take(i as int), t@),
        decreases list.len() - i,
    {
        assert(all.take(i + 1).drop_last() =~= all.take(i as int));
        assert(all.take(i + 1).last() == list@[i as int]@);
        if same_text(list[i].as_str(), t) {
            n += 1;
        }
        i += 1;
    }
    assert(all.take(all.len() as int) =~= all);
    n
}

/// The different texts of a list, in ascending order.
fn distinct_texts(list: &Vec<String>) -> (r: Vec<String>)
    ensures
        ascending_texts(texts(r@)),
        forall|t: Seq<char>| #[trigger] texts(r@).contains(t) <==> texts(list@).contains(t),
{
    let ghost all = texts(list@);
    let mut found: Vec<String> = Vec::new();
    let mut i: usize = 0;
    assert(texts(found@) =~= Seq::empty());
    while i < list.len()
        invariant
            i <= list.len(),
            all == texts(list@),
            texts(found@).no_duplicates(),
            forall|t: Seq<char>| #[trigger]
                texts(found@).contains(t) <==> all.take(i as int).contains(t),
        decreases list.len() - i,
    {
        let ghost before = texts(found@);
        add_text(&mut found, list[i].as_str());
        proof {
            let s = all.take(i as int);
            let n = all.take(i + 1);
            lemma_with_text(before, list@[i as int]@);
            assert(n =~= s.push(list@[i as int]@));
            assert forall|t: Seq<char>| #[trigger] texts(found@).contains(t) <==> n.contains(t) by {
                if s.contains(t) {
                    let k = choose|k: int| 0 <= k < s.len() && s[k] == t;
                    assert(n[k] == t);
                }
                if t == list@[i as int]@ {
                    assert(n[i as int] == t);
                }
                if n.contains(t) && t != list@[i as int]@ {
                    let k = choose|k: int| 0 <= k < n.len() && n[k] == t;
                    assert(s[k] == t);
                }
            }
        }
        i += 1;
    }
    assert(all.take(all.len() as int) =~= all);
    sorted_texts(&found)
}

/// How often each text of a list occurs in it.
pub fn tally_texts(list: &Vec<String>) -> (counts: Vec<(String, usize)>)
    ensures
        tallied_texts(counts_text(counts@), texts(list@)),
{
    let keys = distinct_texts(list);
    let mut counts: Vec<(String, usize)> = Vec::new();
    let mut i: usize = 0;
    while i < keys.len()
        invariant
            i <= keys.len(),
            counts@.len() == i,
            forall|k: int|
                0 <= k < i ==> (#[trigger] counts@[k]).0@ == keys@[k]@ && counts@[k].1
                    == occurrences(texts(list@), keys@[k]@),
        decreases keys.len() - i,
    {
        let n: usize = count_text(list, keys[i].as_str());
        counts.push((keys[i].clone(), n));
        i += 1;
    }
    proof {
        let c = counts_text(counts@);
        let k = texts(keys@);
        let all = texts(list@);
        assert forall|i: int| 0 <= i < c.len() implies (#[trigger] c[i]).0 == k[i] && c[i].1
            == occurrences(all, k[i]) by {
            assert(c[i] == (counts@[i].0@, counts@[i].1));
        }
        assert forall|i: int| 0 <= i < c.len() implies (#[trigger] c[i]).1 == occurrences(
            all,
            c[i].0,
        ) && c[i].1 > 0 by {
            assert(k.contains(k[i]));
            lemma_occurrences(all, k[i]);
        }
        assert forall|t: Seq<char>| #[trigger] all.contains(t) implies exists|i: int|
            0 <= i < c.len() && (#[trigger] c[i]).0 == t by {
            assert(k.contains(t));
            let i = choose|i: int| 0 <= i < k.len() && k[i] == t;
            assert(c[i].0 == t);
        }
    }
    counts
}

// ---------------------------------------------------------------------------
// Numbers
// ---------------------------------------------------------------------------

/// Whether a list holds how often each number of another list occurs in it, in
/// ascending order of the numbers.
pub open spec fn tallied_numbers(counts: Seq<(u16, usize)>, list: Seq<u16>) -> bool {
    &&& forall|i: int, j: int|
        0 <= i < j < counts.len() ==> (#[trigger] counts[i]).0 < (#[trigger] counts[j]).0
    &&& forall|i: int|
        0 <= i < counts.len() ==> (#[trigger] counts[i]).1 == occurrences(list, counts[i].0)
            && counts[i].1 > 0
    &&& forall|n: u16| #[trigger]
        list.contains(n) ==> exists|i: int| 0 <= i < counts.len() && (#[trigger] counts[i]).0 == n
}

/// How often a list holds a number.
fn count_number(list: &Vec<u16>, x: u16) -> (n: usize)
    ensures
        n == occurrences(list@, x),
{
    let mut n: usize = 0;
    let mut i: usize = 0;
    assert(list@.take(0) =~= Seq::empty());
    while i < list.len()
        invariant
            i <= list.len(),
            n <= i,
            n == occurrences(list@.take(i as int), x),
        decreases list.len() - i,
    {
        assert(list@.take(i + 1).drop_last() =~= list@.take(i as int));
        assert(list@.take(i + 1).last() == list@[i as int]);
        if list[i] == x {
            n += 1;
        }
        i += 1;
    }
    assert(list@.take(list@.len() as int) =~= list@);
    n
}

/// How often each number of a list occurs in it.
pub fn tally_numbers(list: &Vec<u16>) -> (counts: Vec<(u16, usize)>)
    ensures
        tallied_numbers(counts@, list@),
{
    let mut keys: Vec<i64> = Vec::new();
    let mut i: usize = 0;
    while i < list.len()
        invariant
            i <= list.len(),
            ascending(keys@),
            forall|x: i64| #[trigger]
                keys@.contains(x) <==> exists|k: int| 0 <= k < i && (#[trigger] list@[k]) == x,
        decreases list.len() - i,
    {
        let ghost before = keys@;
        add_number(&mut keys, list[i] as i64);
        proof {
            assert forall|x: i64| #[trigger]
                keys@.contains(x) <==> exists|k: int| 0 <= k < i + 1 && (#[trigger] list@[k]) == x by {
                if before.contains(x) {
                    let k = choose|k: int| 0 <= k < i && (#[trigger] list@[k]) == x;
                    assert(list@[k] == x);
                }
                if x == list@[i as int] {
                    assert(list@[i as int] == x);
                }
                if exists|k: int| 0 <= k < i + 1 && (#[trigger] list@[k]) == x {
                    let k = choose|k: int| 0 <= k < i + 1 && (#[trigger] list@[k]) == x;
                    if k < i {
                        assert(before.contains(x));
                    }
                }
            }
        }
        i += 1;
    }
    let mut counts: Vec<(u16, usize)> = Vec::new();
    let mut j: usize = 0;
    proof {
        assert forall|k: int| 0 <= k < keys@.len() implies 0 <= #[trigger] keys@[k] <= u16::MAX by {
            assert(keys@.contains(keys@[k]));
        }
    }
    while j < keys.len()
        invariant
            j <= keys.len(),
            counts@.len() == j,
            forall|k: int| 0 <= k < keys@.len() ==> 0 <= #[trigger] keys@[k] <= u16::MAX,
            forall|k: int|
                0 <= k < j ==> (#[trigger] counts@[k]).0 == keys@[k] && counts@[k].1
                    == occurrences(list@, counts@[k].0),
        decreases keys.len() - j,
    {
        assert(0 <= keys@[j as int] <= u16::MAX);
        let x: u16 = keys[j] as u16;
        counts.push((x, count_number(list, x)));
        j += 1;
    }
    proof {
        assert forall|i: int| 0 <= i < counts@.len() implies (#[trigger] counts@[i]).1
            == occurrences(list@, counts@[i].0) && counts@[i].1 > 0 by {
            assert(keys@.contains(keys@[i]));
            let k = choose|k: int| 0 <= k < list@.len() && (#[trigger] list@[k]) == keys@[i];
            assert(list@.contains(counts@[i].0));
            lemma_occurrences(list@, counts@[i].0);
        }
        assert forall|n: u16| #[trigger] list@.contains(n) implies exists|i: int|
            0 <= i < counts@.len() && (#[trigger] counts@[i]).0 == n by {
            let k = choose|k: int| 0 <= k < list@.len() && list@[k] == n;
            assert(keys@.contains(n as i64));
            let i = choose|i: int| 0 <= i < keys@.len() && keys@[i] == n as i64;
            assert(counts@[i].0 == n);
        }
    }
    counts
}

// ---------------------------------------------------------------------------
// The most frequent
// ---------------------------------------------------------------------------

/// Whether `order` lists the positions of counts, the greatest count first;
/// equal counts keep their order.
pub open spec fn most_first(counts: Seq<usize>, order: Seq<usize>) -> bool {
    &&& covers(order, 0, counts.len() as int)
    &&& forall|i: int, j: int|
        0 <= i < j < order.len() ==> {
            let (a, b) = (#[trigger] order[i], #[trigger] order[j]);
            counts[a as int] > counts[b as int] || (counts[a as int] == counts[b as int] && a < b)
        }
}

/// The positions of counts, the greatest count first.
pub fn rank_by_count(counts: &Vec<usize>) -> (order: Vec<usize>)
    ensures
        most_first(counts@, order@),
{
    let mut keys: Vec<u64> = Vec::new();
    let mut i: usize = 0;
    while i < counts.len()
        invariant
            i <= counts.len(),
            keys@.len() == i,
            forall|k: int| 0 <= k < i ==> (#[trigger] keys@[k]) == u64::MAX - counts@[k],
        decreases counts.len() - i,
    {
        keys.push(u64::MAX - counts[i] as u64);
        i += 1;
    }
    let order = sorted_order(&keys);
    proof {
        assert forall|i: int, j: int| 0 <= i < j < order@.len() implies {
            let (a, b) = (#[trigger] order@[i], #[trigger] order@[j]);
            counts@[a as int] > counts@[b as int] || (counts@[a as int] == counts@[b as int] && a < b)
        } by {
            assert(goes_before(keys@, order@[i], order@[j]));
            assert(order@[i] < counts@.len());
            assert(order@[j] < counts@.len());
        }
    }
    order
}

} // verus!
