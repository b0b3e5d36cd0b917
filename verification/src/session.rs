//! The open logs: recently opened files, tabs, and the figures of a benchmark.

use crate::numbers::{decimal, push_decimal};
use crate::text::string_of;
use vstd::prelude::*;

verus! {

/// The number of recently opened files that are remembered.
pub const RECENT_FILES: usize = 10;

/// The path of a file, as the system names it.
#[verifier::external_type_specification]
#[verifier::external_body]
pub struct ExPathBuf(std::path::PathBuf);

/// Whether `out` holds the files of a list other than `path`, in their order.
/// `same` tells whether two paths name the same file.
pub open spec fn others<P, F: Fn(&P, &P) -> bool>(
    same: F,
    files: Seq<P>,
    path: P,
    out: Seq<P>,
) -> bool
    decreases files.len(),
{
    if files.len() == 0 {
        out.len() == 0
    } else {
        let front = files.drop_last();
        ||| same.ensures((&files.last(), &path), true) && others(same, front, path, out)
        ||| same.ensures((&files.last(), &path), false) && out.len() > 0 && out.last()
            == files.last() && others(same, front, path, out.drop_last())
    }
}

/// The first files of a list, as many as are remembered.
pub open spec fn first_files<P>(files: Seq<P>) -> Seq<P> {
    if files.len() > RECENT_FILES {
        files.take(RECENT_FILES as int)
    } else {
        files
    }
}

/// Whether `r` holds the recently opened files after one was opened: that one
/// first, then the others in their order, as many as are remembered.
pub open spec fn recent_after<P, F: Fn(&P, &P) -> bool>(
    same: F,
    recent: Seq<P>,
    path: P,
    r: Seq<P>,
) -> bool {
    exists|rest: Seq<P>| #[trigger]
        others(same, recent, path, rest) && r == first_files(seq![path] + rest)
}

/// Remembers that a file was opened. `same` tells whether two paths name the same
/// file.
pub fn remember_file<P, F: Fn(&P, &P) -> bool>(recent: Vec<P>, path: P, same: &F) -> (r: Vec<P>)
    requires
        forall|a: &P, b: &P| #[trigger] same.requires((a, b)),
    ensures
        recent_after(*same, recent@, path, r@),
{
    let ghost all = recent@;
    let mut rest: Vec<P> = Vec::new();
    assert(all.take(0) =~= Seq::empty());
    for p in it: recent.into_iter()
        invariant
            it.seq() == all,
            forall|a: &P, b: &P| #[trigger] same.requires((a, b)),
            others(*same, all.take(it.index()), path, rest@),
    {
        let ghost i = it.index();
        let ghost before = rest@;
        proof {
            assert(all.take(i + 1).drop_last() =~= all.take(i));
            assert(all.take(i + 1).last() == p);
        }
        if !same(&p, &path) {
            rest.push(p);
            assert(rest@.drop_last() =~= before);
        }
    }
    assert(all.take(all.len() as int) =~= all);
    let ghost kept = rest@;
    rest.insert(0, path);
    assert(rest@ =~= seq![path] + kept);
    if rest.len() > RECENT_FILES {
        rest.truncate(RECENT_FILES);
    }
    assert(rest@ =~= first_files(seq![path] + kept));
    rest
}

/// None of the other files of a list is the one that was left out.
proof fn lemma_others<P, F: Fn(&P, &P) -> bool>(same: F, files: Seq<P>, path: P, out: Seq<P>)
    requires
        others(same, files, path, out),
    ensures
        forall|i: int|
            0 <= i < out.len() ==> same.ensures((&#[trigger] out[i], &path), false)
                && files.contains(out[i]),
    decreases files.len(),
{
    if files.len() > 0 {
        let front = files.drop_last();
        assert forall|i: int| 0 <= i < out.len() implies same.ensures(
            (&#[trigger] out[i], &path),
            false,
        ) && files.contains(out[i]) by {
            assert(files[files.len() - 1] == files.last());
            if same.ensures((&files.last(), &path), true) && others(same, front, path, out) {
                lemma_others(same, front, path, out);
                let k = choose|k: int| 0 <= k < front.len() && front[k] == out[i];
                assert(files[k] == out[i]);
            } else {
                lemma_others(same, front, path, out.drop_last());
                if i < out.len() - 1 {
                    assert(out.drop_last()[i] == out[i]);
                    let k = choose|k: int| 0 <= k < front.len() && front[k] == out[i];
                    assert(files[k] == out[i]);
                }
            }
        }
    }
}

/// The file that was opened last comes first, those behind it were remembered
/// before and are other files, and no more are remembered than the limit.
pub proof fn law_recent_files<P, F: Fn(&P, &P) -> bool>(
    same: F,
    recent: Seq<P>,
    path: P,
    r: Seq<P>,
)
    requires
        recent_after(same, recent, path, r),
    ensures
        0 < r.len() <= RECENT_FILES,
        r[0] == path,
        forall|i: int|
            1 <= i < r.len() ==> same.ensures((&#[trigger] r[i], &path), false)
                && recent.contains(r[i]),
{
    let rest = choose|rest: Seq<P>| #[trigger]
        others(same, recent, path, rest) && r == first_files(seq![path] + rest);
    lemma_others(same, recent, path, rest);
    assert forall|i: int| 1 <= i < r.len() implies same.ensures((&#[trigger] r[i], &path), false)
        && recent.contains(r[i]) by {
        assert(r[i] == rest[i - 1]);
    }
}

/// The first tab with a file open. `same` tells whether two paths name the same
/// file.
pub fn find_tab<P, F: Fn(&P, &P) -> bool>(paths: &Vec<P>, path: &P, same: &F) -> (r: Option<usize>)
    requires
        forall|a: &P, b: &P| #[trigger] same.requires((a, b)),
    ensures
        match r {
            Some(i) => {
                &&& i < paths@.len()
                &&& same.ensures((&paths@[i as int], path), true)
                &&& forall|k: int|
                    0 <= k < i ==> same.ensures((&#[trigger] paths@[k], path), false)
            },
            None => forall|k: int|
                0 <= k < paths@.len() ==> same.ensures((&#[trigger] paths@[k], path), false),
        },
{
    let mut i: usize = 0;
    while i < paths.len()
        invariant
            i <= paths.len(),
            forall|a: &P, b: &P| #[trigger] same.requires((a, b)),
            forall|k: int| 0 <= k < i ==> same.ensures((&#[trigger] paths@[k], path), false),
        decreases paths.len() - i,
    {
        if same(&paths[i], path) {
            return Some(i);
        }
        i += 1;
    }
    None
}

/// The active tab once a tab was closed and `left` are left: the same position,
/// or the last one where that is gone.
pub fn active_after_close(active: usize, left: usize) -> (r: usize)
    ensures
        r == (if left == 0 {
            0
        } else if active < left {
            active as int
        } else {
            left - 1
        }),
{
    if left == 0 {
        0
    } else if active < left {
        active
    } else {
        left - 1
    }
}

// ---------------------------------------------------------------------------
// Figures
// ---------------------------------------------------------------------------

/// Digits in groups of three, which commas separate.
pub open spec fn grouped(digits: Seq<char>) -> Seq<char>
    decreases digits.len(),
{
    if digits.len() <= 3 {
        digits
    } else {
        grouped(digits.take(digits.len() - 3)) + seq![','] + digits.skip(digits.len() - 3)
    }
}

/// Appends the first `n` of some digits in groups of three.
fn push_grouped(out: &mut Vec<char>, digits: &Vec<char>, n: usize)
    requires
        n <= digits@.len(),
    ensures
        final(out)@ == old(out)@ + grouped(digits@.take(n as int)),
    decreases n,
{
    let ghost whole = digits@.take(n as int);
    let start: usize = if n > 3 {
        push_grouped(out, digits, n - 3);
        out.push(',');
        n - 3
    } else {
        0
    };
    let ghost head = out@;
    proof {
        if n > 3 {
            assert(whole.take(n - 3) =~= digits@.take(n - 3));
        }
        assert(head + digits@.subrange(start as int, start as int) =~= head);
    }
    let mut i: usize = start;
    while i < n
        invariant
            start <= i <= n <= digits@.len(),
            out@ == head + digits@.subrange(start as int, i as int),
        decreases n - i,
    {
        out.push(digits[i]);
        i += 1;
        assert(out@ =~= head + digits@.subrange(start as int, i as int));
    }
    proof {
        if n > 3 {
            assert(whole.skip(n - 3) =~= digits@.subrange(start as int, n as int));
        } else {
            assert(whole =~= digits@.subrange(0, n as int));
        }
        assert(out@ =~= old(out)@ + grouped(whole));
    }
}

/// A number in decimal, its digits in groups of three.
pub fn fmt_count(n: usize) -> (s: String)
    ensures
        s@ == grouped(decimal(n as nat)),
{
    let mut digits: Vec<char> = Vec::new();
    push_decimal(&mut digits, n as u64);
    assert(digits@ =~= decimal(n as nat));
    let mut out: Vec<char> = Vec::new();
    let len: usize = digits.len();
    push_grouped(&mut out, &digits, len);
    assert(digits@.take(len as int) =~= digits@);
    assert(out@ =~= grouped(decimal(n as nat)));
    string_of(out.as_slice())
}

/// The bytes that interning is estimated to save: forty for each event, less
/// twelve for its keys and sixty-four for each text that is held.
pub fn estimated_saving(events: usize, interned: usize) -> (saved: u128)
    ensures
        saved == if 40 * events > 12 * events + 64 * interned {
            40 * events - (12 * events + 64 * interned)
        } else {
            0int
        },
{
    let plain: u128 = events as u128 * 40;
    let held: u128 = events as u128 * 12 + interned as u128 * 64;
    if plain > held {
        plain - held
    } else {
        0
    }
}

} // verus!
