//! Laws of lists: what is listed, in which order and with which marks.

use crate::guid::ProcessGuid;
use crate::interner::SharedRodeo;
use crate::event::SysmonEvent;
use crate::laws::tree::is_after;
use crate::loading::{days_of, hosts_of, techniques_of, users_of};
use crate::numbers::decimal;
use crate::panels::{
    in_direction, lists, passes, within, Listing, SortState, TableRow, TimeRange,
};
use crate::process_tree::ProcessText;
use crate::sigma::condition::{expression_at, operand_at, Condition, ConditionError};
use crate::sigma::rule::{selection_of, string_values, MatchText, YamlValue};
use crate::state::{AppState, TreeEventFilter};
use crate::stats::spans_times;
use crate::text::{lowercase, text_less};
use crate::types::Timestamp;
use vstd::prelude::*;

verus! {

// ---------------------------------------------------------------------------
// Tables
// ---------------------------------------------------------------------------

/// A table lists a row exactly where its line passes the filter and its time is in
/// the range, each row once, in the direction of the sorted column, and equal rows in
/// the order that they had. It says that nothing matches exactly where no row does.
pub proof fn law_tables_list_what_passes<R: TableRow>(
    listing: Listing<R>,
    rows: Seq<R>,
    filter: Seq<char>,
    range: TimeRange,
    sort: SortState,
    i: int,
)
    requires
        lists(listing, rows, filter, range, sort),
        rows.len() <= usize::MAX,
        0 <= i < rows.len(),
    ensures
        !(listing is Nothing),
        listing is NoMatch ==> !passes(rows[i].line(), filter) || !within(range, rows[i].at()),
        listing is Rows ==> {
            let order = listing->order@;
            &&& listing->rows@ == rows
            &&& order.contains(i as usize) <==> passes(rows[i].line(), filter) && within(
                range,
                rows[i].at(),
            )
            &&& forall|j: int, k: int|
                0 <= j < k < order.len() ==> {
                    let a = rows[#[trigger] order[j] as int].key(sort.column);
                    let b = rows[#[trigger] order[k] as int].key(sort.column);
                    &&& in_direction(a, b, sort.ascending)
                    &&& order[j] != order[k]
                    &&& in_direction(b, a, sort.ascending) ==> order[j] < order[k]
                }
        },
{
    if listing is Rows {
        let order = listing->order@;
        let p = i as usize;
        if order.contains(p) {
            let k = choose|k: int| 0 <= k < order.len() && order[k] == p;
            assert(crate::panels::shown(rows[order[k] as int], filter, range));
        }
        if passes(rows[i].line(), filter) && within(range, rows[i].at()) {
            assert(crate::panels::shown(rows[p as int], filter, range));
            assert(order.contains(p));
        }
        assert forall|j: int, k: int| 0 <= j < k < order.len() implies {
            let a = rows[#[trigger] order[j] as int].key(sort.column);
            let b = rows[#[trigger] order[k] as int].key(sort.column);
            &&& in_direction(a, b, sort.ascending)
            &&& order[j] != order[k]
            &&& in_direction(b, a, sort.ascending) ==> order[j] < order[k]
        } by {
            assert(crate::panels::listed_before(rows, sort, order[j], order[k]));
        }
    }
}

// ---------------------------------------------------------------------------
// Rows of the tree
// ---------------------------------------------------------------------------

/// A mark that stands before a label or not.
pub open spec fn mark_if(on: bool, mark: Seq<char>) -> Seq<char> {
    if on {
        mark
    } else {
        Seq::empty()
    }
}

/// The label of a row has the mark of a bookmark where the process has one, that of
/// an alert where a rule matched one of its events, and that of a technique where one
/// of its events refers to one.
pub proof fn law_rows_have_their_marks(s: AppState, g: ProcessGuid, name: Seq<char>, pid: u32)
    requires
        s.process_tree@.nodes[g].image_name == Some(name),
        s.process_tree@.nodes[g].pid == Some(pid),
        !s.process_tree@.nodes[g].is_synthetic,
    ensures
        s.row_of(g).label == mark_if(s.bookmarks@.contains_key(g), "🔖 "@) + (mark_if(
            s.sigma_match_guids@.contains_key(g),
            "⚠ "@,
        ) + (mark_if(
            exists|i: int|
                0 <= i < s.event_store.events@.len() && (
                #[trigger] s.event_store.events@[i]).process_guid == Some(g)
                    && s.event_store.events@[i].mitre_technique is Some,
            "⚑ "@,
        ) + (name + " ("@ + decimal(pid as nat) + ")"@))),
{
    let tagged = exists|i: int|
        0 <= i < s.event_store.events@.len() && (#[trigger] s.event_store.events@[i]).process_guid
            == Some(g) && s.event_store.events@[i].mitre_technique is Some;
    let alerted = s.sigma_match_guids@.contains_key(g);
    let noted = s.bookmarks@.contains_key(g);
    let base = name + " ("@ + decimal(pid as nat) + ")"@;
    let a = crate::tree_rows::marked("⚑ "@, tagged, base);
    let b = crate::tree_rows::marked("⚠ "@, alerted, a);
    assert(tagged == crate::tree_rows::is_tagged(s.event_store.events@, g));
    assert(a =~= mark_if(tagged, "⚑ "@) + base);
    assert(b =~= mark_if(alerted, "⚠ "@) + a);
    assert(s.row_of(g).label == crate::tree_rows::marked("🔖 "@, noted, b));
    assert(crate::tree_rows::marked("🔖 "@, noted, b) =~= mark_if(noted, "🔖 "@) + b);
}

/// The filter by kinds of events is on exactly where one of its six kinds is.
pub proof fn law_event_filters_are_on_by_any_kind(f: TreeEventFilter)
    ensures
        f.network ==> f.active(),
        f.files ==> f.active(),
        f.registry ==> f.active(),
        f.pipes ==> f.active(),
        f.injection ==> f.active(),
        f.drivers ==> f.active(),
        f.active() ==> f.network || f.files || f.registry || f.pipes || f.injection || f.drivers,
{
}

// ---------------------------------------------------------------------------
// Summaries
// ---------------------------------------------------------------------------

/// The hosts, the techniques, the users and the days of a log are listed in order,
/// none of them twice.
pub proof fn law_summaries_are_in_order(
    events: Seq<SysmonEvent>,
    nodes: Map<ProcessGuid, ProcessText>,
    r: SharedRodeo,
    hosts: Seq<Seq<char>>,
    ids: Seq<Seq<char>>,
    users: Seq<Seq<char>>,
    days: Seq<i64>,
    i: int,
    j: int,
)
    requires
        hosts_of(events, r, hosts),
        techniques_of(events, ids),
        users_of(nodes, users),
        days_of(events, days),
        0 <= i < j,
    ensures
        j < hosts.len() ==> text_less(hosts[i], hosts[j]),
        j < ids.len() ==> text_less(ids[i], ids[j]),
        j < users.len() ==> text_less(users[i], users[j]),
        j < days.len() ==> days[i] < days[j],
{
}

/// The span of times begins with one that none is before and ends with one that none
/// is after; without times there is none.
pub proof fn law_spans_hold_all_times(times: Seq<Timestamp>, range: TimeRange, i: int)
    requires
        spans_times(times, range),
    ensures
        range is None <==> times.len() == 0,
        range matches Some((first, last)) ==> times.contains(first) && times.contains(last) && (0
            <= i < times.len() ==> !is_after(first, times[i]) && !is_after(times[i], last)),
{
    if let Some((first, last)) = range {
        assert(times.contains(first));
        if 0 <= i < times.len() {
            assert(!times[i].earlier(first));
        }
    }
}

// ---------------------------------------------------------------------------
// Rules
// ---------------------------------------------------------------------------

/// A count without "of" behind it is refused, at its place; so is a condition that
/// ends where an operand should stand; and an operand that is refused has the whole
/// condition refused.
pub proof fn law_broken_conditions_are_refused(words: Seq<Seq<char>>, pos: int)
    requires
        0 <= pos <= usize::MAX,
    ensures
        pos >= words.len() ==> operand_at(words, pos) == Err::<(Condition, int), ConditionError>(
            ConditionError::UnexpectedEnd,
        ) && expression_at(words, pos) == Err::<(Condition, int), ConditionError>(
            ConditionError::UnexpectedEnd,
        ),
        pos < words.len() && (pos + 2 >= words.len() || lowercase(words[pos + 1]) != "of"@) ==> {
            &&& lowercase(words[pos]) == "1"@ ==> operand_at(words, pos) == Err::<
                (Condition, int),
                ConditionError,
            >(ConditionError::ExpectedOfAfterOne { pos: pos as usize })
            &&& lowercase(words[pos]) == "all"@ ==> operand_at(words, pos) == Err::<
                (Condition, int),
                ConditionError,
            >(ConditionError::ExpectedOfAfterAll { pos: pos as usize })
        },
        pos < words.len() && operand_at(words, pos) is Err ==> expression_at(words, pos)
            == operand_at(words, pos),
        pos < words.len() && lowercase(words[pos]) == "not"@ && operand_at(words, pos + 1) is Err
            ==> operand_at(words, pos) == operand_at(words, pos + 1),
{
    reveal_strlit("1");
    reveal_strlit("all");
    reveal_strlit("not");
    reveal_strlit("(");
    assert("1"@[0] == '1' && "all"@[0] == 'a' && "not"@[0] == 'n' && "("@[0] == '(');
}

/// A selection that is a list of words is compared with no field, by no modifier and
/// with each of the words; one that is neither a list nor a mapping asks for nothing.
pub proof fn law_lists_of_words_are_selections(v: YamlValue)
    ensures
        v is Sequence ==> {
            &&& selection_of(v) is Some
            &&& selection_of(v)->Some_0.len() == 1
            &&& selection_of(v)->Some_0[0].field.len() == 0
            &&& selection_of(v)->Some_0[0].modifiers.len() == 0
            &&& selection_of(v)->Some_0[0].values == string_values(v->Sequence_0@)
        },
        !(v is Sequence) && !(v is Mapping) ==> selection_of(v) == Some(Seq::<MatchText>::empty()),
{
}

} // verus!
