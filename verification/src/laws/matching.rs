//! Laws of rules: selections, field matches and conditions.

use crate::event::EventText;
use crate::sigma::condition::{
    continued, expression_at, joined_and, joined_or, operand_at, Condition,
};
use crate::sigma::matcher::{
    all_hold, any_holds, escaped, field_matches, field_value, holds, is_meta, name_fits,
    name_pattern, satisfies, selection_holds, selection_results, stars_expanded,
};
use crate::sigma::rule::{MatchText, Modifier};
use crate::text::{begins_with, finishes_with, lowercase, occurs_in, stands_at};
use vstd::prelude::*;

verus! {

// ---------------------------------------------------------------------------
// Selections
// ---------------------------------------------------------------------------

/// All matches of a selection count: one that an event fails rules the selection
/// out, two selections put together hold exactly where both do, a single match
/// is a selection of its own, and nothing is asked by a selection without any.
pub proof fn law_every_field_counts(s: Seq<MatchText>, t: Seq<MatchText>, e: EventText)
    ensures
        forall|i: int|
            0 <= i < s.len() && !field_matches(#[trigger] s[i], e) ==> !selection_holds(s, e),
        selection_holds(s + t, e) <==> selection_holds(s, e) && selection_holds(t, e),
        forall|m: MatchText| selection_holds(seq![m], e) == #[trigger] field_matches(m, e),
        selection_holds(Seq::empty(), e),
{
    if selection_holds(s + t, e) {
        assert forall|i: int| 0 <= i < s.len() implies field_matches(#[trigger] s[i], e) by {
            assert((s + t)[i] == s[i]);
        }
        assert forall|i: int| 0 <= i < t.len() implies field_matches(#[trigger] t[i], e) by {
            assert((s + t)[s.len() + i] == t[i]);
        }
    }
    if selection_holds(s, e) && selection_holds(t, e) {
        assert forall|i: int| 0 <= i < (s + t).len() implies field_matches(
            #[trigger] (s + t)[i],
            e,
        ) by {
            if i < s.len() {
                assert((s + t)[i] == s[i]);
            } else {
                assert((s + t)[i] == t[i - s.len()]);
            }
        }
    }
    assert forall|m: MatchText| selection_holds(seq![m], e) == #[trigger] field_matches(m, e) by {
        if selection_holds(seq![m], e) {
            assert(field_matches(seq![m][0], e));
        }
    }
}

/// The order of the matches in a selection does not matter.
pub proof fn law_order_of_fields_does_not_matter(
    s: Seq<MatchText>,
    t: Seq<MatchText>,
    e: EventText,
)
    requires
        forall|m: MatchText| #[trigger] s.contains(m) == t.contains(m),
    ensures
        selection_holds(s, e) == selection_holds(t, e),
{
    if selection_holds(s, e) {
        assert forall|i: int| 0 <= i < t.len() implies field_matches(#[trigger] t[i], e) by {
            assert(s.contains(t[i]));
            let j = choose|j: int| 0 <= j < s.len() && s[j] == t[i];
            assert(field_matches(s[j], e));
        }
    }
    if selection_holds(t, e) {
        assert forall|i: int| 0 <= i < s.len() implies field_matches(#[trigger] s[i], e) by {
            assert(s.contains(s[i]));
            assert(t.contains(s[i]));
            let j = choose|j: int| 0 <= j < t.len() && t[j] == s[i];
            assert(field_matches(t[j], e));
        }
    }
}

/// What a selection of a rule comes to is whether its own matches hold, whatever
/// the other selections are.
pub proof fn law_selections_stand_for_themselves(
    a: Map<Seq<char>, Seq<MatchText>>,
    b: Map<Seq<char>, Seq<MatchText>>,
    name: Seq<char>,
    e: EventText,
)
    requires
        a.contains_key(name),
        b.contains_key(name),
        a[name] == b[name],
    ensures
        selection_results(a, e).contains_key(name),
        selection_results(a, e)[name] == selection_results(b, e)[name],
        (exists|i: int| 0 <= i < a[name].len() && !field_matches(#[trigger] a[name][i], e))
            ==> !selection_results(a, e)[name],
        (forall|i: int| 0 <= i < a[name].len() ==> field_matches(#[trigger] a[name][i], e))
            ==> selection_results(a, e)[name],
        selection_results(a, e).dom() == a.dom(),
{
    assert(selection_results(a, e).dom() =~= a.dom());
}

// ---------------------------------------------------------------------------
// Values
// ---------------------------------------------------------------------------

/// What a field match with one value and one modifier asks of the text in its
/// field, in lower case: `contains` that the value stands somewhere in it,
/// `startswith` that it stands at its start, `endswith` that it stands at its end,
/// and no modifier that it is the whole.
pub proof fn law_modifiers_place_the_value(
    field: Seq<char>,
    value: Seq<char>,
    e: EventText,
    found: Seq<char>,
    modifiers: Seq<Modifier>,
)
    requires
        field_value(e, field) == Some(found),
    ensures
        ({
            let (v, p) = (lowercase(found), lowercase(value));
            let m = MatchText { field, modifiers, values: seq![value] };
            &&& modifiers == Seq::<Modifier>::empty() ==> (field_matches(m, e) <==> v == p)
            &&& modifiers == seq![Modifier::Contains] ==> (field_matches(m, e) <==> exists|
                x: Seq<char>,
                y: Seq<char>,
            |
                v == #[trigger] (x + p + y))
            &&& modifiers == seq![Modifier::StartsWith] ==> (field_matches(m, e) <==> exists|
                y: Seq<char>,
            |
                v == #[trigger] (p + y))
            &&& modifiers == seq![Modifier::EndsWith] ==> (field_matches(m, e) <==> exists|
                x: Seq<char>,
            |
                v == #[trigger] (x + p))
        }),
{
    let (v, p) = (lowercase(found), lowercase(value));
    let m = MatchText { field, modifiers, values: seq![value] };
    assert(m.values[0] == value);
    let one = crate::sigma::matcher::value_matches(modifiers, found, value);
    if modifiers.len() <= 1 && !modifiers.contains(Modifier::All) {
        assert(field_matches(m, e) == one) by {
            if one {
                assert(crate::sigma::matcher::value_matches(m.modifiers, found, m.values[0]));
            }
        }
    }
    if modifiers == seq![Modifier::Contains] {
        lemma_only(modifiers, Modifier::Contains);
        lemma_occurs(v, p);
    }
    if modifiers == seq![Modifier::StartsWith] {
        lemma_only(modifiers, Modifier::StartsWith);
        lemma_begins(v, p);
    }
    if modifiers == seq![Modifier::EndsWith] {
        lemma_only(modifiers, Modifier::EndsWith);
        lemma_finishes(v, p);
    }
}

/// A list of one modifier holds no other.
proof fn lemma_only(modifiers: Seq<Modifier>, m: Modifier)
    requires
        modifiers == seq![m],
    ensures
        forall|n: Modifier| #[trigger] modifiers.contains(n) <==> n == m,
{
    assert(modifiers[0] == m);
    assert forall|n: Modifier| #[trigger] modifiers.contains(n) implies n == m by {
        let i = choose|i: int| 0 <= i < modifiers.len() && modifiers[i] == n;
        assert(i == 0);
    }
}

/// A text that occurs in another has something before it and something after it.
pub proof fn lemma_occurs(v: Seq<char>, p: Seq<char>)
    ensures
        occurs_in(v, p) <==> exists|x: Seq<char>, y: Seq<char>| v == #[trigger] (x + p + y),
{
    if occurs_in(v, p) {
        let i = choose|i: int| stands_at(v, p, i);
        let (x, y) = (v.take(i), v.skip(i + p.len()));
        assert(v =~= x + p + y);
    }
    if exists|x: Seq<char>, y: Seq<char>| v == #[trigger] (x + p + y) {
        let (x, y) = choose|x: Seq<char>, y: Seq<char>| v == #[trigger] (x + p + y);
        assert(v.subrange(x.len() as int, (x.len() + p.len()) as int) =~= p);
        assert(stands_at(v, p, x.len() as int));
    }
}

/// A text that another begins with has something after it.
pub proof fn lemma_begins(v: Seq<char>, p: Seq<char>)
    ensures
        begins_with(v, p) <==> exists|y: Seq<char>| v == #[trigger] (p + y),
{
    if begins_with(v, p) {
        let y = v.skip(p.len() as int);
        assert(v.subrange(0, p.len() as int) =~= v.take(p.len() as int));
        assert(v =~= p + y);
    }
    if exists|y: Seq<char>| v == #[trigger] (p + y) {
        let y = choose|y: Seq<char>| v == #[trigger] (p + y);
        assert(v.subrange(0, p.len() as int) =~= p);
    }
}

/// A text that another ends with has something before it.
pub proof fn lemma_finishes(v: Seq<char>, p: Seq<char>)
    ensures
        finishes_with(v, p) <==> exists|x: Seq<char>| v == #[trigger] (x + p),
{
    if finishes_with(v, p) {
        let x = v.take(v.len() - p.len());
        assert(v =~= x + v.subrange(v.len() - p.len(), v.len() as int));
        assert(v =~= x + p);
    }
    if exists|x: Seq<char>| v == #[trigger] (x + p) {
        let x = choose|x: Seq<char>| v == #[trigger] (x + p);
        assert(v.subrange(v.len() - p.len(), v.len() as int) =~= p);
    }
}

/// The modifiers that place a value are looked at in a fixed order: `re` before
/// `contains`, that before `startswith`, and that before `endswith`. Others change
/// nothing, nor does the order in which they are written.
pub proof fn law_the_first_modifier_decides(
    modifiers: Seq<Modifier>,
    value: Seq<char>,
    pattern: Seq<char>,
    found: Option<bool>,
)
    ensures
        modifiers.contains(Modifier::Re) ==> satisfies(modifiers, value, pattern, found) == (found
            == Some(true)),
        !modifiers.contains(Modifier::Re) && modifiers.contains(Modifier::Contains) ==> satisfies(
            modifiers,
            value,
            pattern,
            found,
        ) == satisfies(seq![Modifier::Contains], value, pattern, None),
        !modifiers.contains(Modifier::Re) && !modifiers.contains(Modifier::Contains)
            && modifiers.contains(Modifier::StartsWith) ==> satisfies(
            modifiers,
            value,
            pattern,
            found,
        ) == satisfies(seq![Modifier::StartsWith], value, pattern, None),
        !modifiers.contains(Modifier::Re) && !modifiers.contains(Modifier::Contains)
            && !modifiers.contains(Modifier::StartsWith) && modifiers.contains(Modifier::EndsWith)
            ==> satisfies(modifiers, value, pattern, found) == satisfies(
            seq![Modifier::EndsWith],
            value,
            pattern,
            None,
        ),
        !modifiers.contains(Modifier::Re) && !modifiers.contains(Modifier::Contains)
            && !modifiers.contains(Modifier::StartsWith) && !modifiers.contains(Modifier::EndsWith)
            ==> satisfies(modifiers, value, pattern, found) == (lowercase(value) == lowercase(
            pattern,
        )),
{
    lemma_only(seq![Modifier::Contains], Modifier::Contains);
    lemma_only(seq![Modifier::StartsWith], Modifier::StartsWith);
    lemma_only(seq![Modifier::EndsWith], Modifier::EndsWith);
}

// ---------------------------------------------------------------------------
// Conditions
// ---------------------------------------------------------------------------

/// A conjunction or disjunction holds as its parts do, the last of them put to the
/// others.
proof fn lemma_joins(v: Seq<Condition>, b: Condition, results: Map<Seq<char>, bool>)
    ensures
        holds(Condition::And(v), results) == all_hold(v, results),
        holds(Condition::Or(v), results) == any_holds(v, results),
        holds(Condition::And(v.push(b)), results) == (all_hold(v, results) && holds(b, results)),
        holds(Condition::Or(v.push(b)), results) == (any_holds(v, results) || holds(b, results)),
{
    let w = v.push(b);
    assert(w.drop_last() =~= v);
    assert(holds(Condition::And(w), results) == all_hold(w, results));
    assert(holds(Condition::Or(w), results) == any_holds(w, results));
}

/// What conditions come to: a name to the outcome of its selection, "not" to the
/// opposite, "and" to both sides and "or" to one of them, also where a side is
/// itself joined by the same word.
pub proof fn law_connectives_mean_what_they_say(
    a: Condition,
    b: Condition,
    name: Seq<char>,
    results: Map<Seq<char>, bool>,
)
    ensures
        holds(joined_and(a, b), results) <==> holds(a, results) && holds(b, results),
        holds(joined_or(a, b), results) <==> holds(a, results) || holds(b, results),
        holds(Condition::Not(Box::new(a)), results) <==> !holds(a, results),
        results.contains_key(name) ==> holds(Condition::Named(name), results) == results[name],
        !results.contains_key(name) ==> !holds(Condition::Named(name), results),
{
    match a {
        Condition::And(v) => {
            lemma_joins(v, b, results);
        },
        _ => {
            let s = seq![a, b];
            lemma_joins(seq![a], b, results);
            assert(seq![a].push(b) =~= s);
            assert(seq![a].drop_last() =~= Seq::<Condition>::empty());
            assert(all_hold(Seq::<Condition>::empty(), results));
            assert(all_hold(seq![a], results) == holds(a, results));
        },
    }
    match a {
        Condition::Or(v) => {
            lemma_joins(v, b, results);
        },
        _ => {
            let s = seq![a, b];
            lemma_joins(seq![a], b, results);
            assert(seq![a].push(b) =~= s);
            assert(seq![a].drop_last() =~= Seq::<Condition>::empty());
            assert(!any_holds(Seq::<Condition>::empty(), results));
            assert(any_holds(seq![a], results) == holds(a, results));
        },
    }
}

/// A conjunction holds exactly where each part does, and a disjunction exactly
/// where some part does.
pub proof fn law_parts_decide(parts: Seq<Condition>, results: Map<Seq<char>, bool>)
    ensures
        holds(Condition::And(parts), results) <==> forall|i: int|
            0 <= i < parts.len() ==> holds(#[trigger] parts[i], results),
        holds(Condition::Or(parts), results) <==> exists|i: int|
            0 <= i < parts.len() && holds(#[trigger] parts[i], results),
    decreases parts.len(),
{
    if parts.len() > 0 {
        let front = parts.drop_last();
        law_parts_decide(front, results);
        lemma_joins(front, parts.last(), results);
        assert(front.push(parts.last()) =~= parts);
        assert(parts[parts.len() - 1] == parts.last());
        if holds(Condition::And(parts), results) {
            assert forall|i: int| 0 <= i < parts.len() implies holds(
                #[trigger] parts[i],
                results,
            ) by {
                if i < front.len() {
                    assert(front[i] == parts[i]);
                }
            }
        }
        if forall|i: int| 0 <= i < parts.len() ==> holds(#[trigger] parts[i], results) {
            assert forall|i: int| 0 <= i < front.len() implies holds(
                #[trigger] front[i],
                results,
            ) by {
                assert(front[i] == parts[i]);
            }
        }
        if any_holds(front, results) {
            let i = choose|i: int| 0 <= i < front.len() && holds(#[trigger] front[i], results);
            assert(parts[i] == front[i]);
        }
        if exists|i: int| 0 <= i < parts.len() && holds(#[trigger] parts[i], results) {
            let i = choose|i: int| 0 <= i < parts.len() && holds(#[trigger] parts[i], results);
            if i < front.len() {
                assert(front[i] == parts[i]);
            }
        }
    } else {
        assert(all_hold(parts, results) && !any_holds(parts, results));
        assert(holds(Condition::And(parts), results) == all_hold(parts, results));
        assert(holds(Condition::Or(parts), results) == any_holds(parts, results));
    }
}

/// "1 of" and "all of" over the selections of two rules put together: one of them
/// matches where one matches on either side, and all match where those on both
/// sides do. Of a single selection both say whether its name fits and it matches,
/// and of none they say no.
pub proof fn law_selections_are_counted_apart(
    p: Seq<char>,
    a: Map<Seq<char>, bool>,
    b: Map<Seq<char>, bool>,
    name: Seq<char>,
    outcome: bool,
)
    requires
        a.dom().disjoint(b.dom()),
    ensures
        ({
            let both = a.union_prefer_right(b);
            let one = Condition::OneOf(p);
            let all = Condition::AllOf(p);
            let single = map![name => outcome];
            &&& holds(one, both) <==> holds(one, a) || holds(one, b)
            &&& holds(all, both) <==> {
                ||| holds(all, a) && holds(all, b)
                ||| holds(all, a) && forall|n: Seq<char>| #[trigger]
                    b.contains_key(n) ==> !name_fits(p, n)
                ||| holds(all, b) && forall|n: Seq<char>| #[trigger]
                    a.contains_key(n) ==> !name_fits(p, n)
            }
            &&& holds(one, single) == (outcome && name_fits(p, name))
            &&& holds(all, single) == (outcome && name_fits(p, name))
            &&& !holds(one, Map::empty())
            &&& !holds(all, Map::empty())
            &&& holds(all, a) ==> holds(one, a)
        }),
{
    let both = a.union_prefer_right(b);
    let one = Condition::OneOf(p);
    let all = Condition::AllOf(p);
    let single = map![name => outcome];
    assert forall|n: Seq<char>| #[trigger] a.contains_key(n) implies both.contains_key(n) && both[n]
        == a[n] by {
        assert(a.dom().contains(n));
        assert(!b.dom().contains(n));
    }
    assert forall|n: Seq<char>| #[trigger] b.contains_key(n) implies both.contains_key(n) && both[n]
        == b[n] by {}
    assert forall|n: Seq<char>| #[trigger] both.contains_key(n) implies a.contains_key(n)
        || b.contains_key(n) by {}
    if holds(one, a) {
        let n = choose|n: Seq<char>| #[trigger] a.contains_key(n) && a[n] && name_fits(p, n);
        assert(both.contains_key(n));
    }
    if holds(one, b) {
        let n = choose|n: Seq<char>| #[trigger] b.contains_key(n) && b[n] && name_fits(p, n);
        assert(both.contains_key(n));
    }
    if holds(one, both) {
        let n = choose|n: Seq<char>| #[trigger]
            both.contains_key(n) && both[n] && name_fits(p, n);
        assert(a.contains_key(n) || b.contains_key(n));
    }
    if holds(all, both) {
        let n = choose|n: Seq<char>| #[trigger] both.contains_key(n) && name_fits(p, n);
        assert(a.contains_key(n) || b.contains_key(n));
        assert forall|m: Seq<char>| #[trigger] a.contains_key(m) && name_fits(p, m) implies a[m] by {
            assert(both.contains_key(m));
        }
        assert forall|m: Seq<char>| #[trigger] b.contains_key(m) && name_fits(p, m) implies b[m] by {
            assert(both.contains_key(m));
        }
    }
    if holds(all, a) {
        let n = choose|n: Seq<char>| #[trigger] a.contains_key(n) && name_fits(p, n);
        assert(both.contains_key(n));
        assert(a[n]);
    }
    if holds(all, b) {
        let n = choose|n: Seq<char>| #[trigger] b.contains_key(n) && name_fits(p, n);
        assert(both.contains_key(n));
    }
    assert(single.contains_key(name));
    assert(single[name] == outcome);
}

// ---------------------------------------------------------------------------
// Reading conditions
// ---------------------------------------------------------------------------

/// Whether a word names a selection: it is no word of the language.
pub open spec fn is_name(word: Seq<char>) -> bool {
    let w = lowercase(word);
    w != "not"@ && w != "("@ && w != "1"@ && w != "all"@
}

/// Whether words are names with "and" or "or" between them.
pub open spec fn is_chain(words: Seq<Seq<char>>) -> bool {
    &&& words.len() % 2 == 1
    &&& forall|i: int| 0 <= i < words.len() && i % 2 == 0 ==> is_name(#[trigger] words[i])
    &&& forall|i: int|
        0 <= i < words.len() && i % 2 == 1 ==> lowercase(#[trigger] words[i]) == "and"@
            || lowercase(words[i]) == "or"@
}

/// Whether the selection of a name matches.
pub open spec fn selected(name: Seq<char>, results: Map<Seq<char>, bool>) -> bool {
    results.contains_key(name) && results[name]
}

/// What names with "and" and "or" between them come to, from left to right.
pub open spec fn from_left(words: Seq<Seq<char>>, results: Map<Seq<char>, bool>) -> bool
    decreases words.len(),
{
    if words.len() < 3 {
        words.len() > 0 && selected(words[0], results)
    } else {
        let front = from_left(words.take(words.len() - 2), results);
        if lowercase(words[words.len() - 2]) == "and"@ {
            front && selected(words.last(), results)
        } else {
            front || selected(words.last(), results)
        }
    }
}

proof fn lemma_chain(
    words: Seq<Seq<char>>,
    c: Condition,
    pos: int,
    results: Map<Seq<char>, bool>,
)
    requires
        is_chain(words),
        0 < pos <= words.len(),
        pos % 2 == 1,
        holds(c, results) == from_left(words.take(pos), results),
    ensures
        continued(words, c, pos) matches Ok((d, next)) && next == words.len() && holds(d, results)
            == from_left(words, results),
    decreases words.len() - pos,
{
    if pos == words.len() {
        assert(words.take(pos) =~= words);
    } else {
        reveal_strlit("and");
        reveal_strlit("or");
        assert("and"@.len() == 3 && "or"@.len() == 2);
        assert(is_name(words[pos + 1]));
        let d = Condition::Named(words[pos + 1]);
        assert(operand_at(words, pos + 1) == Ok::<
            (Condition, int),
            crate::sigma::condition::ConditionError,
        >((d, pos + 2)));
        law_connectives_mean_what_they_say(c, d, words[pos + 1], results);
        let t = words.take(pos + 2);
        assert(t.take(t.len() - 2) =~= words.take(pos));
        assert(t.last() == words[pos + 1]);
        assert(t[t.len() - 2] == words[pos]);
        if lowercase(words[pos]) == "and"@ {
            lemma_chain(words, joined_and(c, d), pos + 2, results);
        } else {
            lemma_chain(words, joined_or(c, d), pos + 2, results);
        }
    }
}

/// Names with "and" and "or" between them are read to the last word, and hold as
/// they come to from left to right.
pub proof fn law_operands_are_joined_from_the_left(
    words: Seq<Seq<char>>,
    results: Map<Seq<char>, bool>,
)
    requires
        is_chain(words),
    ensures
        expression_at(words, 0) matches Ok((c, next)) && next == words.len() && holds(c, results)
            == from_left(words, results),
{
    assert(is_name(words[0]));
    let c = Condition::Named(words[0]);
    assert(operand_at(words, 0) == Ok::<
        (Condition, int),
        crate::sigma::condition::ConditionError,
    >((c, 1)));
    assert(words.take(1)[0] == words[0]);
    lemma_chain(words, c, 1, results);
}

/// A condition that joins names by "and" alone holds exactly where all of them do,
/// and one that joins them by "or" alone exactly where one of them does.
pub proof fn law_all_operands_count(words: Seq<Seq<char>>, results: Map<Seq<char>, bool>)
    requires
        is_chain(words),
    ensures
        expression_at(words, 0) is Ok,
        (forall|i: int| 0 <= i < words.len() && i % 2 == 1 ==> lowercase(#[trigger] words[i])
            == "and"@) ==> (holds(expression_at(words, 0)->Ok_0.0, results) <==> forall|i: int|
            0 <= i < words.len() && i % 2 == 0 ==> selected(#[trigger] words[i], results)),
        (forall|i: int| 0 <= i < words.len() && i % 2 == 1 ==> lowercase(#[trigger] words[i])
            == "or"@) ==> (holds(expression_at(words, 0)->Ok_0.0, results) <==> exists|i: int|
            0 <= i < words.len() && i % 2 == 0 && selected(#[trigger] words[i], results)),
{
    law_operands_are_joined_from_the_left(words, results);
    lemma_from_left(words, results);
}

proof fn lemma_from_left(words: Seq<Seq<char>>, results: Map<Seq<char>, bool>)
    requires
        is_chain(words),
    ensures
        (forall|i: int| 0 <= i < words.len() && i % 2 == 1 ==> lowercase(#[trigger] words[i])
            == "and"@) ==> (from_left(words, results) <==> forall|i: int|
            0 <= i < words.len() && i % 2 == 0 ==> selected(#[trigger] words[i], results)),
        (forall|i: int| 0 <= i < words.len() && i % 2 == 1 ==> lowercase(#[trigger] words[i])
            == "or"@) ==> (from_left(words, results) <==> exists|i: int|
            0 <= i < words.len() && i % 2 == 0 && selected(#[trigger] words[i], results)),
    decreases words.len(),
{
    reveal_strlit("and");
    reveal_strlit("or");
    assert("and"@.len() == 3 && "or"@.len() == 2);
    if words.len() < 3 {
        assert(words.len() == 1);
        if forall|i: int|
            0 <= i < words.len() && i % 2 == 0 ==> selected(#[trigger] words[i], results) {
            assert(selected(words[0], results));
        }
    } else {
        let n = words.len() - 2;
        let front = words.take(n);
        assert forall|i: int| 0 <= i < front.len() implies #[trigger] front[i] == words[i] by {}
        lemma_from_left(front, results);
        assert(words.last() == words[words.len() - 1]);
        if forall|i: int|
            0 <= i < words.len() && i % 2 == 1 ==> lowercase(#[trigger] words[i]) == "and"@ {
            assert(lowercase(words[n]) == "and"@);
            if from_left(words, results) {
                assert forall|i: int| 0 <= i < words.len() && i % 2 == 0 implies selected(
                    #[trigger] words[i],
                    results,
                ) by {
                    if i < n {
                        assert(front[i] == words[i]);
                    }
                }
            }
            if forall|i: int|
                0 <= i < words.len() && i % 2 == 0 ==> selected(#[trigger] words[i], results) {
                assert forall|i: int| 0 <= i < front.len() && i % 2 == 0 implies selected(
                    #[trigger] front[i],
                    results,
                ) by {
                    assert(front[i] == words[i]);
                }
            }
        }
        if forall|i: int|
            0 <= i < words.len() && i % 2 == 1 ==> lowercase(#[trigger] words[i]) == "or"@ {
            assert(lowercase(words[n]) == "or"@);
            if from_left(front, results) {
                let i = choose|i: int|
                    0 <= i < front.len() && i % 2 == 0 && selected(#[trigger] front[i], results);
                assert(words[i] == front[i]);
            }
            if exists|i: int|
                0 <= i < words.len() && i % 2 == 0 && selected(#[trigger] words[i], results) {
                let i = choose|i: int|
                    0 <= i < words.len() && i % 2 == 0 && selected(#[trigger] words[i], results);
                if i < n {
                    assert(front[i] == words[i]);
                }
            }
        }
    }
}

/// What the operands of a condition come to: after "not" the opposite of the
/// operand that follows, in parentheses the expression inside, and after "1 of" or
/// "all of" how many of the selections that fit the pattern match.
pub proof fn law_operands_mean_what_they_say(
    words: Seq<Seq<char>>,
    pos: int,
    results: Map<Seq<char>, bool>,
)
    requires
        0 <= pos < words.len(),
    ensures
        lowercase(words[pos]) == "not"@ && operand_at(words, pos + 1) is Ok ==> {
            &&& operand_at(words, pos) is Ok
            &&& operand_at(words, pos)->Ok_0.1 == operand_at(words, pos + 1)->Ok_0.1
            &&& holds(operand_at(words, pos)->Ok_0.0, results) != holds(
                operand_at(words, pos + 1)->Ok_0.0,
                results,
            )
        },
        lowercase(words[pos]) == "("@ && expression_at(words, pos + 1) is Ok ==> {
            let inner = expression_at(words, pos + 1)->Ok_0;
            &&& operand_at(words, pos) is Ok
            &&& operand_at(words, pos)->Ok_0.1 == inner.1 + if inner.1 < words.len()
                && words[inner.1] == ")"@ {
                1int
            } else {
                0
            }
            &&& holds(operand_at(words, pos)->Ok_0.0, results) == holds(inner.0, results)
        },
        pos + 2 < words.len() && lowercase(words[pos + 1]) == "of"@ && lowercase(words[pos]) == "1"@
            ==> {
            &&& operand_at(words, pos) is Ok
            &&& operand_at(words, pos)->Ok_0.1 == pos + 3
            &&& holds(operand_at(words, pos)->Ok_0.0, results) <==> exists|n: Seq<char>| #[trigger]
                results.contains_key(n) && results[n] && name_fits(words[pos + 2], n)
        },
        pos + 2 < words.len() && lowercase(words[pos + 1]) == "of"@ && lowercase(words[pos])
            == "all"@ ==> {
            &&& operand_at(words, pos) is Ok
            &&& operand_at(words, pos)->Ok_0.1 == pos + 3
            &&& holds(operand_at(words, pos)->Ok_0.0, results) <==> (exists|n: Seq<char>| #[trigger]
                results.contains_key(n) && name_fits(words[pos + 2], n)) && !exists|n: Seq<char>|
             #[trigger]
                results.contains_key(n) && name_fits(words[pos + 2], n) && !results[n]
        },
        lowercase(words[pos]) != "not"@ && lowercase(words[pos]) != "("@ && lowercase(words[pos])
            != "1"@ && lowercase(words[pos]) != "all"@ ==> {
            &&& operand_at(words, pos) is Ok
            &&& operand_at(words, pos)->Ok_0.1 == pos + 1
            &&& holds(operand_at(words, pos)->Ok_0.0, results) == selected(words[pos], results)
        },
{
    reveal_strlit("not");
    reveal_strlit("(");
    reveal_strlit("1");
    reveal_strlit("all");
    assert("not"@[0] == 'n' && "all"@[0] == 'a' && "("@[0] == '(' && "1"@[0] == '1');
}

// ---------------------------------------------------------------------------
// Name patterns
// ---------------------------------------------------------------------------

proof fn lemma_escaped_join(a: Seq<char>, b: Seq<char>)
    ensures
        escaped(a + b) == escaped(a) + escaped(b),
    decreases b.len(),
{
    if b.len() == 0 {
        assert(a + b =~= a);
        assert(escaped(a) + escaped(b) =~= escaped(a));
    } else {
        lemma_escaped_join(a, b.drop_last());
        assert((a + b).drop_last() =~= a + b.drop_last());
        assert((a + b).last() == b.last());
        assert(escaped(a + b) =~= escaped(a) + escaped(b));
    }
}

proof fn lemma_escaped_start(s: Seq<char>)
    ensures
        escaped(s).len() > 0 ==> escaped(s)[0] != '*',
    decreases s.len(),
{
    if s.len() > 0 {
        lemma_escaped_start(s.drop_last());
        if escaped(s.drop_last()).len() > 0 {
            assert(escaped(s)[0] == escaped(s.drop_last())[0]);
        }
    }
}

proof fn lemma_expanded_join(a: Seq<char>, b: Seq<char>)
    requires
        b.len() > 0 ==> b[0] != '*',
    ensures
        stars_expanded(a + b) == stars_expanded(a) + stars_expanded(b),
    decreases a.len(),
{
    let s = a + b;
    if a.len() == 0 {
        assert(s =~= b);
        assert(stars_expanded(a) + stars_expanded(b) =~= stars_expanded(b));
    } else if a.len() > 1 && a[0] == '\\' && a[1] == '*' {
        lemma_expanded_join(a.skip(2), b);
        assert(s.skip(2) =~= a.skip(2) + b);
        assert(stars_expanded(s) =~= stars_expanded(a) + stars_expanded(b));
    } else {
        lemma_expanded_join(a.skip(1), b);
        assert(s.skip(1) =~= a.skip(1) + b);
        assert(stars_expanded(s) =~= stars_expanded(a) + stars_expanded(b));
    }
}

/// What one character of a name pattern becomes.
proof fn lemma_one_expanded(c: char)
    ensures
        stars_expanded(escaped(seq![c])) == if c == '*' {
            seq!['.', '*']
        } else if is_meta(c) {
            seq!['\\', c]
        } else {
            seq![c]
        },
{
    let m = seq![c];
    let none = Seq::<char>::empty();
    assert(m.drop_last() =~= none);
    assert(escaped(none) =~= none);
    assert(stars_expanded(none) =~= none);
    let e = escaped(m);
    if is_meta(c) {
        assert(e =~= seq!['\\', c]);
        assert(e.skip(2) =~= none);
        assert(e.skip(1) =~= m);
        assert(m.skip(1) =~= none);
        if c == '*' {
            assert(stars_expanded(e) =~= seq!['.', '*'] + none);
            assert(stars_expanded(e) =~= seq!['.', '*']);
        } else {
            assert(stars_expanded(m) =~= seq![c] + none);
            assert(stars_expanded(e) =~= seq!['\\'] + stars_expanded(m));
            assert(stars_expanded(e) =~= seq!['\\', c]);
        }
    } else {
        assert(e =~= m);
        assert(m.skip(1) =~= none);
        assert(stars_expanded(m) =~= seq![c] + none);
        assert(stars_expanded(m) =~= seq![c]);
    }
}

/// The regular expression of a name pattern is anchored at both ends and made up
/// character by character: a star stands for any text, other characters with a
/// meaning are escaped, and the rest stand for themselves.
pub proof fn law_name_patterns_are_made_up_by_character(a: Seq<char>, c: char, b: Seq<char>)
    ensures
        ({
            let one = if c == '*' {
                seq!['.', '*']
            } else if is_meta(c) {
                seq!['\\', c]
            } else {
                seq![c]
            };
            let (x, y) = (name_pattern(a), name_pattern(b));
            &&& x.len() >= 2 && y.len() >= 2
            &&& name_pattern(a + seq![c] + b) == x.drop_last() + one + y.skip(1)
            &&& name_pattern(Seq::empty()) == seq!['^', '$']
        }),
{
    let m = seq![c];
    lemma_escaped_join(a + m, b);
    lemma_escaped_join(a, m);
    lemma_escaped_start(b);
    lemma_escaped_start(m);
    assert(m.drop_last() =~= Seq::<char>::empty());
    assert(escaped(Seq::<char>::empty()) =~= Seq::<char>::empty());
    lemma_expanded_join(escaped(a + m), escaped(b));
    lemma_expanded_join(escaped(a), escaped(m));
    let e = escaped(m);
    lemma_one_expanded(c);
    let (x, y) = (name_pattern(a), name_pattern(b));
    assert(x.drop_last() =~= seq!['^'] + stars_expanded(escaped(a)));
    assert(y.skip(1) =~= stars_expanded(escaped(b)) + seq!['$']);
    assert(name_pattern(a + m + b) =~= x.drop_last() + stars_expanded(e) + y.skip(1));
    assert(name_pattern(Seq::empty()) =~= seq!['^', '$']);
}

} // verus!
