//! Laws of rule files: how keys, values and conditions are read.

use crate::event::EventText;
use crate::laws::texts::{law_parts_are_found_on_both_sides, law_trimmed_texts_stay};
use crate::sigma::condition::{
    condition_of, expression_at, flushed, operand_at, scanned, words_of, Condition, ConditionError,
};
use crate::sigma::matcher::{holds, rule_matches, selection_holds, selection_results};
use crate::sigma::rule::{
    compared_values, made_from, match_of, matches_of, modifier_of, scalar_values, selection_of,
    selections_of, selections_text, string_value, string_values, MatchText, Modifier, RawRule,
    SigmaLevel, SigmaRule, YamlValue,
};
use crate::text::{is_white, lowercase, split_of, trim_of};
use vstd::prelude::*;

verus! {

// ---------------------------------------------------------------------------
// Keys
// ---------------------------------------------------------------------------

/// A key without bars is the name of a field. Each word behind a bar adds the
/// modifier that it names, and changes nothing where it names none.
pub proof fn law_keys_name_a_field_and_its_modifiers(key: Seq<char>, word: Seq<char>, v: YamlValue)
    requires
        !word.contains('|'),
    ensures
        !key.contains('|') ==> match_of(key, v).field == key && match_of(key, v).modifiers
            == Seq::<Modifier>::empty(),
        ({
            let longer = match_of(key + seq!['|'] + word, v);
            &&& longer.field == match_of(key, v).field
            &&& longer.values == match_of(key, v).values
            &&& longer.modifiers == match modifier_of(word) {
                Some(m) => match_of(key, v).modifiers.push(m),
                None => match_of(key, v).modifiers,
            }
        }),
{
    law_parts_are_found_on_both_sides(key, word, '|');
    law_parts_are_found_on_both_sides(word, word, '|');
    crate::laws::texts::law_split_texts_join_again(key, '|');
    let parts = split_of(key, '|');
    let all = parts + seq![word];
    assert(all.skip(1) =~= parts.skip(1).push(word));
    assert(all.skip(1).drop_last() =~= parts.skip(1));
    assert(all.skip(1).last() == word);
    if !key.contains('|') {
        assert(parts.skip(1) =~= Seq::<Seq<char>>::empty());
    }
}

/// The words of the modifiers, in letters of either case.
pub proof fn law_modifiers_have_their_words(word: Seq<char>)
    ensures
        lowercase(word) == "contains"@ ==> modifier_of(word) == Some(Modifier::Contains),
        lowercase(word) == "startswith"@ ==> modifier_of(word) == Some(Modifier::StartsWith),
        lowercase(word) == "endswith"@ ==> modifier_of(word) == Some(Modifier::EndsWith),
        lowercase(word) == "re"@ ==> modifier_of(word) == Some(Modifier::Re),
        lowercase(word) == "all"@ ==> modifier_of(word) == Some(Modifier::All),
        modifier_of(word) is None || lowercase(word) == "contains"@ || lowercase(word)
            == "startswith"@ || lowercase(word) == "endswith"@ || lowercase(word) == "re"@
            || lowercase(word) == "all"@,
{
    reveal_strlit("contains");
    reveal_strlit("startswith");
    reveal_strlit("endswith");
    reveal_strlit("re");
    reveal_strlit("all");
    assert("contains"@.len() == 8 && "startswith"@.len() == 10 && "endswith"@.len() == 8);
    assert("re"@.len() == 2 && "all"@.len() == 3);
    assert("contains"@[0] == 'c' && "endswith"@[0] == 'e');
}

// ---------------------------------------------------------------------------
// Values
// ---------------------------------------------------------------------------

/// The values that a field is compared with are the texts and numbers of a list,
/// each of them and in their order, or a single text, number or truth value.
pub proof fn law_values_are_those_of_the_list(
    a: Seq<YamlValue>,
    b: Seq<YamlValue>,
    s: String,
    flag: bool,
    list: Vec<YamlValue>,
)
    ensures
        scalar_values(a + b) == scalar_values(a) + scalar_values(b),
        scalar_values(seq![YamlValue::Text(s)]) == seq![s@],
        scalar_values(seq![YamlValue::Number(s)]) == seq![s@],
        scalar_values(seq![YamlValue::Bool(flag)]).len() == 0,
        scalar_values(seq![YamlValue::Null]).len() == 0,
        compared_values(YamlValue::Sequence(list)) == scalar_values(list@),
        compared_values(YamlValue::Text(s)) == seq![s@],
        compared_values(YamlValue::Number(s)) == seq![s@],
        compared_values(YamlValue::Bool(true)) == seq!["true"@],
        compared_values(YamlValue::Bool(false)) == seq!["false"@],
        compared_values(YamlValue::Null).len() == 0,
    decreases b.len(),
{
    if b.len() == 0 {
        assert(a + b =~= a);
        assert(scalar_values(a) + scalar_values(b) =~= scalar_values(a));
    } else {
        law_values_are_those_of_the_list(a, b.drop_last(), s, flag, list);
        assert((a + b).drop_last() =~= a + b.drop_last());
        assert((a + b).last() == b.last());
        assert(scalar_values(a + b) =~= scalar_values(a) + scalar_values(b));
    }
    lemma_single_value(YamlValue::Text(s));
    lemma_single_value(YamlValue::Number(s));
    lemma_single_value(YamlValue::Bool(flag));
    lemma_single_value(YamlValue::Null);
}

proof fn lemma_single_value(v: YamlValue)
    ensures
        scalar_values(seq![v]) == match v {
            YamlValue::Text(s) => seq![s@],
            YamlValue::Number(s) => seq![s@],
            _ => Seq::empty(),
        },
{
    let one = seq![v];
    assert(one.drop_last() =~= Seq::<YamlValue>::empty());
    assert(scalar_values(Seq::<YamlValue>::empty()) =~= Seq::empty());
    assert(one.last() == v);
    match v {
        YamlValue::Text(s) => {
            assert(scalar_values(one) =~= seq![s@]);
        },
        YamlValue::Number(s) => {
            assert(scalar_values(one) =~= seq![s@]);
        },
        _ => {},
    }
}

/// The texts of a list, each of them and in their order; tags before a text do not
/// matter.
pub proof fn law_texts_are_those_of_the_list(
    a: Seq<YamlValue>,
    b: Seq<YamlValue>,
    s: String,
    inner: Box<YamlValue>,
)
    ensures
        string_values(a + b) == string_values(a) + string_values(b),
        string_values(seq![YamlValue::Text(s)]) == seq![s@],
        string_values(seq![YamlValue::Number(s)]).len() == 0,
        string_value(YamlValue::Tagged(inner)) == string_value(*inner),
    decreases b.len(),
{
    if b.len() == 0 {
        assert(a + b =~= a);
        assert(string_values(a) + string_values(b) =~= string_values(a));
    } else {
        law_texts_are_those_of_the_list(a, b.drop_last(), s, inner);
        assert((a + b).drop_last() =~= a + b.drop_last());
        assert((a + b).last() == b.last());
        assert(string_values(a + b) =~= string_values(a) + string_values(b));
    }
    let t = seq![YamlValue::Text(s)];
    let n = seq![YamlValue::Number(s)];
    assert(t.drop_last() =~= Seq::<YamlValue>::empty());
    assert(n.drop_last() =~= Seq::<YamlValue>::empty());
    assert(string_values(Seq::<YamlValue>::empty()) =~= Seq::empty());
    assert(t.last() == YamlValue::Text(s));
    assert(n.last() == YamlValue::Number(s));
    assert(string_values(t) =~= seq![s@]);
}

// ---------------------------------------------------------------------------
// Selections
// ---------------------------------------------------------------------------

/// A selection has a match for each entry of its mapping, in their order, as long
/// as every key is a text; one key that is none makes it unreadable.
pub proof fn law_selections_hold_all_entries(
    a: Seq<(YamlValue, YamlValue)>,
    b: Seq<(YamlValue, YamlValue)>,
    entry: (YamlValue, YamlValue),
)
    ensures
        matches_of(a) is Some && matches_of(b) is Some ==> matches_of(a + b) == Some(
            matches_of(a)->Some_0 + matches_of(b)->Some_0,
        ),
        matches_of(a) is None || matches_of(b) is None ==> matches_of(a + b) is None,
        string_value(entry.0) matches Some(key) ==> matches_of(seq![entry]) == Some(
            seq![match_of(key, entry.1)],
        ),
        string_value(entry.0) is None ==> matches_of(seq![entry]) is None,
    decreases b.len(),
{
    if b.len() == 0 {
        assert(a + b =~= a);
        if matches_of(a) is Some {
            assert(matches_of(a)->Some_0 + Seq::<MatchText>::empty() =~= matches_of(a)->Some_0);
        }
    } else {
        law_selections_hold_all_entries(a, b.drop_last(), entry);
        assert((a + b).drop_last() =~= a + b.drop_last());
        assert((a + b).last() == b.last());
        if matches_of(a) is Some && matches_of(b) is Some {
            assert(matches_of(a + b)->Some_0 =~= matches_of(a)->Some_0 + matches_of(b)->Some_0);
        }
    }
    let one = seq![entry];
    assert(one.drop_last() =~= Seq::<(YamlValue, YamlValue)>::empty());
    assert(matches_of(Seq::<(YamlValue, YamlValue)>::empty()) == Some(Seq::<MatchText>::empty()));
    assert(one.last() == entry);
    if let Some(key) = string_value(entry.0) {
        assert(matches_of(one)->Some_0 =~= seq![match_of(key, entry.1)]);
    }
}

/// The selections of a rule are the entries of its detection block but for the
/// condition, each under its own name, the last of one name counting. One that is
/// not readable makes the rule unreadable.
pub proof fn law_rules_hold_all_selections(entries: Seq<(String, YamlValue)>, i: int)
    requires
        0 <= i < entries.len(),
    ensures
        selections_of(entries) is Some && entries[i].0@ != "condition"@ && (forall|j: int|
            i < j < entries.len() ==> (#[trigger] entries[j]).0@ != entries[i].0@) ==> {
            &&& selection_of(entries[i].1) is Some
            &&& selections_of(entries)->Some_0.contains_key(entries[i].0@)
            &&& selections_of(entries)->Some_0[entries[i].0@] == selection_of(entries[i].1)->Some_0
        },
        entries[i].0@ != "condition"@ && selection_of(entries[i].1) is None ==> selections_of(
            entries,
        ) is None,
        selections_of(entries) is Some ==> !selections_of(entries)->Some_0.contains_key(
            "condition"@,
        ) && forall|name: Seq<char>| #[trigger]
            selections_of(entries)->Some_0.contains_key(name) ==> exists|j: int|
                0 <= j < entries.len() && (#[trigger] entries[j]).0@ == name,
    decreases entries.len(),
{
    lemma_selection_names(entries);
    let f = entries.drop_last();
    assert(entries[entries.len() - 1] == entries.last());
    if i < f.len() {
        assert(f[i] == entries[i]);
        law_rules_hold_all_selections(f, i);
        if selections_of(entries) is Some && entries[i].0@ != "condition"@ && (forall|j: int|
            i < j < entries.len() ==> (#[trigger] entries[j]).0@ != entries[i].0@) {
            assert(entries[entries.len() - 1].0@ != entries[i].0@);
            assert forall|j: int| i < j < f.len() implies (#[trigger] f[j]).0@ != f[i].0@ by {
                assert(f[j] == entries[j]);
            }
        }
    }
}

proof fn lemma_selection_names(entries: Seq<(String, YamlValue)>)
    ensures
        selections_of(entries) is Some ==> !selections_of(entries)->Some_0.contains_key(
            "condition"@,
        ) && forall|name: Seq<char>| #[trigger]
            selections_of(entries)->Some_0.contains_key(name) ==> exists|j: int|
                0 <= j < entries.len() && (#[trigger] entries[j]).0@ == name,
    decreases entries.len(),
{
    if entries.len() > 0 && selections_of(entries) is Some {
        let f = entries.drop_last();
        lemma_selection_names(f);
        let m = selections_of(entries)->Some_0;
        assert forall|name: Seq<char>| #[trigger] m.contains_key(name) implies exists|j: int|
            0 <= j < entries.len() && (#[trigger] entries[j]).0@ == name by {
            if selections_of(f)->Some_0.contains_key(name) {
                let j = choose|j: int| 0 <= j < f.len() && (#[trigger] f[j]).0@ == name;
                assert(entries[j].0@ == name);
            } else {
                assert(entries[entries.len() - 1].0@ == name);
            }
        }
    }
}

/// A rule keeps what its file says of it; without a level it has the level `Low`.
pub proof fn law_rules_keep_what_their_files_say(rule: SigmaRule, raw: RawRule)
    requires
        made_from(rule, raw),
    ensures
        rule.title@ == raw.title@,
        rule.id == raw.id,
        rule.description == raw.description,
        rule.status == raw.status,
        raw.level matches Some(l) ==> rule.level == l,
        raw.level is None ==> rule.level == SigmaLevel::Low,
        rule.logsource == raw.logsource,
{
}

/// A rule whose condition names one of its selections matches exactly the events
/// that satisfy what the file says under that name; one whose condition is "not"
/// and such a name exactly the others.
pub proof fn law_a_rule_matches_what_its_selection_says(
    rule: SigmaRule,
    raw: RawRule,
    i: int,
    e: EventText,
)
    requires
        made_from(rule, raw),
        0 <= i < raw.selections@.len(),
        raw.selections@[i].0@ != "condition"@,
        forall|j: int|
            i < j < raw.selections@.len() ==> (#[trigger] raw.selections@[j]).0@
                != raw.selections@[i].0@,
        crate::laws::matching::is_name(raw.selections@[i].0@),
    ensures
        words_of(raw.condition@) == seq![raw.selections@[i].0@] ==> rule_matches(rule, e)
            == selection_holds(selection_of(raw.selections@[i].1)->Some_0, e),
        words_of(raw.condition@).len() == 2 && lowercase(words_of(raw.condition@)[0]) == "not"@
            && words_of(raw.condition@)[1] == raw.selections@[i].0@ ==> rule_matches(rule, e)
            != selection_holds(selection_of(raw.selections@[i].1)->Some_0, e),
{
    law_rules_hold_all_selections(raw.selections@, i);
    let name = raw.selections@[i].0@;
    let words = words_of(raw.condition@);
    let c = rule.detection.condition@;
    let selections = selections_text(rule.detection.selections);
    let results = selection_results(selections, e);
    assert(results.contains_key(name));
    assert(results[name] == selection_holds(selection_of(raw.selections@[i].1)->Some_0, e));
    if words == seq![name] {
        assert(words[0] == name);
        assert(operand_at(words, 0) == Ok::<(Condition, int), ConditionError>(
            (Condition::Named(name), 1),
        ));
        assert(c == Condition::Named(name));
    }
    if words.len() == 2 && lowercase(words[0]) == "not"@ && words[1] == name {
        assert(operand_at(words, 1) == Ok::<(Condition, int), ConditionError>(
            (Condition::Named(name), 2),
        ));
        assert(operand_at(words, 0) == Ok::<(Condition, int), ConditionError>(
            (Condition::Not(Box::new(Condition::Named(name))), 2),
        ));
        assert(c == Condition::Not(Box::new(Condition::Named(name))));
        assert(holds(Condition::Named(name), results) == results[name]);
    }
}

// ---------------------------------------------------------------------------
// Words
// ---------------------------------------------------------------------------

/// Whether a text has no white space but blanks and tabs.
pub open spec fn on_one_line(s: Seq<char>) -> bool {
    forall|i: int| 0 <= i < s.len() && is_white(#[trigger] s[i]) ==> s[i] == ' ' || s[i] == '\t'
}

/// Whether a character ends a word.
pub open spec fn ends_word(c: char) -> bool {
    c == ' ' || c == '\t' || c == '(' || c == ')'
}

/// The word that has begun holds nothing that ends a word.
proof fn lemma_begun(s: Seq<char>)
    requires
        on_one_line(s),
    ensures
        ({
            let current = scanned(s).1;
            &&& forall|i: int|
                0 <= i < current.len() ==> !ends_word(#[trigger] current[i]) && !is_white(current[i])
            &&& trim_of(current) == current
        }),
    decreases s.len(),
{
    if s.len() > 0 {
        let f = s.drop_last();
        assert forall|i: int| 0 <= i < f.len() && is_white(#[trigger] f[i]) implies f[i] == ' '
            || f[i] == '\t' by {
            assert(s[i] == f[i]);
        }
        lemma_begun(f);
        let before = scanned(f).1;
        let current = scanned(s).1;
        let c = s.last();
        assert(s[s.len() - 1] == c);
        assert(before.len() == 0 || flushed(scanned(f).0, before).1.len() == 0);
        if !ends_word(c) {
            assert(current == before.push(c));
            assert forall|i: int| 0 <= i < current.len() implies !ends_word(#[trigger] current[i])
                && !is_white(current[i]) by {
                if i < before.len() {
                    assert(current[i] == before[i]);
                }
            }
        }
        if current.len() > 0 {
            assert(!is_white(current[0]) && !is_white(current[current.len() - 1]));
        }
        law_trimmed_texts_stay(current);
    } else {
        law_trimmed_texts_stay(scanned(s).1);
    }
}

/// What is scanned behind words that are complete.
proof fn lemma_scan_join(a: Seq<char>, b: Seq<char>)
    requires
        scanned(a).1.len() == 0,
    ensures
        scanned(a + b) == (scanned(a).0 + scanned(b).0, scanned(b).1),
    decreases b.len(),
{
    if b.len() == 0 {
        assert(a + b =~= a);
        assert(scanned(a).0 + scanned(b).0 =~= scanned(a).0);
        assert(scanned(a).1 =~= scanned(b).1);
    } else {
        let f = b.drop_last();
        lemma_scan_join(a, f);
        assert((a + b).drop_last() =~= a + f);
        assert((a + b).last() == b.last());
        let (w, current) = scanned(f);
        assert(flushed(scanned(a).0 + w, current).0 =~= scanned(a).0 + flushed(w, current).0);
        assert(scanned(a + b).0 =~= scanned(a).0 + scanned(b).0);
    }
}

/// A condition is taken apart at blanks, tabs and parentheses: around a blank stand
/// the words of both sides, around a parenthesis also the parenthesis itself, and a
/// text without any of these is one word.
pub proof fn law_conditions_are_split_into_words(a: Seq<char>, c: char, b: Seq<char>)
    requires
        on_one_line(a),
        on_one_line(b),
    ensures
        c == ' ' || c == '\t' ==> words_of(a + seq![c] + b) == words_of(a) + words_of(b),
        c == '(' || c == ')' ==> words_of(a + seq![c] + b) == words_of(a).push(seq![c]) + words_of(
            b,
        ),
        a.len() > 0 && (forall|i: int| 0 <= i < a.len() ==> !ends_word(#[trigger] a[i]))
            ==> words_of(a) == seq![a],
        a.len() == 0 ==> words_of(a).len() == 0,
{
    lemma_begun(a);
    let m = a.push(c);
    assert(m.drop_last() =~= a);
    if ends_word(c) {
        let (w, current) = scanned(a);
        assert(scanned(m).1.len() == 0);
        lemma_scan_join(m, b);
        assert(a + seq![c] + b =~= m + b);
        let (v, rest) = scanned(b);
        assert(flushed(scanned(m).0 + v, rest).0 =~= scanned(m).0 + flushed(v, rest).0);
        assert(words_of(m + b) == scanned(m).0 + words_of(b));
    }
    if a.len() > 0 && (forall|i: int| 0 <= i < a.len() ==> !ends_word(#[trigger] a[i])) {
        lemma_one_word(a);
        assert(Seq::<Seq<char>>::empty().push(a) =~= seq![a]);
    }
}

proof fn lemma_one_word(a: Seq<char>)
    requires
        forall|i: int| 0 <= i < a.len() ==> !ends_word(#[trigger] a[i]),
    ensures
        scanned(a) == (Seq::<Seq<char>>::empty(), a),
    decreases a.len(),
{
    if a.len() > 0 {
        let f = a.drop_last();
        assert forall|i: int| 0 <= i < f.len() implies !ends_word(#[trigger] f[i]) by {
            assert(f[i] == a[i]);
        }
        lemma_one_word(f);
        assert(!ends_word(a[a.len() - 1]));
        assert(f.push(a.last()) =~= a);
    } else {
        assert(a =~= Seq::<char>::empty());
    }
}

/// A condition is what its words are read as from the first of them on.
pub proof fn law_conditions_are_read_from_their_first_word(s: Seq<char>)
    ensures
        condition_of(s) is Ok <==> expression_at(words_of(s), 0) is Ok,
        expression_at(words_of(s), 0) matches Ok((c, _)) ==> condition_of(s) == Ok::<
            Condition,
            ConditionError,
        >(c),
        words_of(s).len() == 0 ==> condition_of(s) == Err::<Condition, ConditionError>(
            ConditionError::UnexpectedEnd,
        ),
{
}

} // verus!
