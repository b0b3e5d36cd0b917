//! Laws of the program's state and of what is reported: loading, filters, the list
//! of visible processes, complaints.

use crate::clock::{clock_text, instant_of, whole_seconds};
use crate::event::SysmonEvent;
use crate::event_store::{law_positions_are_exact, EventStore, Group};
use crate::export::{row_outcome, row_record, CsvColumns, Outcome, PayloadWrapper};
use crate::guid::{guid_of, hyphenated_form, reordered, ProcessGuid};
use crate::laws::evtx::{stored16, stored32};
use crate::laws::records::Fields;
use crate::loading::{days_of, Arrival, Polling};
use crate::numbers::{decimal, zero_padded};
use crate::panels::timeline::{fields_summary, field_words};
use crate::panels::within;
use crate::parser::{event_complaints, event_of, RecordText};
use crate::sigma::is_rule_suffix;
use crate::sigma::matcher::matches_of_rules;
use crate::state::{span_of, AppState, SpecialFilter};
use crate::text::trim_of;
use crate::textmap::{fields_of, FieldMap};
use crate::tree_view::{visible_all, visible_from};
use crate::types::{guid_field, Complaint, Timestamp};
use crate::utf16::decoded;
use vstd::prelude::*;

verus! {

// ---------------------------------------------------------------------------
// Complaints
// ---------------------------------------------------------------------------

/// Whether a field of a log holds what is no GUID.
pub open spec fn holds_no_guid(f: Fields, name: Seq<char>) -> bool {
    f.contains_key(name) && guid_field(f[name]) is Err
}

/// The complaint about what a field holds in place of a GUID.
pub open spec fn about(f: Fields, name: Seq<char>, line: u64) -> Complaint {
    Complaint::InvalidGuid { line, guid: f[name], source: guid_field(f[name])->Err_0 }
}

/// A record whose time is unreadable gives one complaint, about that time, and no
/// event. One with a readable time gives its event, and a complaint about each field
/// that should hold a GUID and does not: that of the process, that of the parent
/// where a process was created, those of the source and the target where one process
/// did something to another. There are no other complaints.
pub proof fn law_complaints_name_what_is_wrong(raw: RecordText, f: Fields, line: u64)
    ensures
        ({
            let c = event_complaints(raw, f, line);
            let two = raw.event_id == 8 || raw.event_id == 10;
            &&& event_of(raw, f) is None <==> instant_of(trim_of(raw.time_created)) is None
            &&& event_of(raw, f) is None ==> {
                &&& c.len() == 1
                &&& c[0] is InvalidTimestamp
                &&& c[0]->InvalidTimestamp_line == line
                &&& c[0]->value == trim_of(raw.time_created)
            }
            &&& event_of(raw, f) is Some ==> {
                &&& holds_no_guid(f, "ProcessGuid"@) ==> c.len() > 0 && c[0] == about(
                    f,
                    "ProcessGuid"@,
                    line,
                )
                &&& raw.event_id == 1 && holds_no_guid(f, "ParentProcessGuid"@) ==> c.len() > 0
                    && c.last() == about(f, "ParentProcessGuid"@, line)
                &&& two && holds_no_guid(f, "TargetProcessGuid"@) ==> c.len() > 0 && c.last()
                    == about(f, "TargetProcessGuid"@, line)
                &&& two && holds_no_guid(f, "SourceProcessGuid"@) && !holds_no_guid(
                    f,
                    "TargetProcessGuid"@,
                ) ==> c.len() > 0 && c.last() == about(f, "SourceProcessGuid"@, line)
                &&& c.len() == (if holds_no_guid(f, "ProcessGuid"@) {
                    1int
                } else {
                    0
                }) + (if raw.event_id == 1 && holds_no_guid(f, "ParentProcessGuid"@) {
                    1int
                } else {
                    0
                }) + (if two && holds_no_guid(f, "SourceProcessGuid"@) {
                    1int
                } else {
                    0
                }) + (if two && holds_no_guid(f, "TargetProcessGuid"@) {
                    1int
                } else {
                    0
                })
            }
        }),
{
}

/// A row of an export that is no record gives no event and one complaint, with its
/// number.
pub proof fn law_bad_rows_are_complained_of<G: Fn(&str) -> Result<PayloadWrapper, serde_json::Error>>(
    read_payload: G,
    c: CsvColumns,
    row: Seq<Seq<char>>,
    number: u64,
    out: Outcome,
)
    requires
        row_outcome(read_payload, c, row, number, out),
        row_record(c, row, number) is Err,
    ensures
        out.0.len() == 0,
        out.1.len() == 1,
        out.1[0] is CsvRowError && out.1[0]->CsvRowError_line == number && out.1[0]->message
            == row_record(c, row, number)->Err_0,
{
}

// ---------------------------------------------------------------------------
// Filters
// ---------------------------------------------------------------------------

/// Where no filter counts as set, every process passes.
pub proof fn law_without_filters_all_pass(s: AppState, g: ProcessGuid)
    ensures
        s.filter_count() == 0 ==> s.node_passes(g),
        0 <= s.filter_count() <= 6,
        s.special_filter.cleared() && s.mitre_filter@.len() == 0 && !s.time_filter_active
            <==> s.filter_count() == 0,
{
}

/// Whether two filters have the same levels of integrity chosen.
pub open spec fn same_levels(a: SpecialFilter, b: SpecialFilter) -> bool {
    &&& a.integrity_system == b.integrity_system
    &&& a.integrity_high == b.integrity_high
    &&& a.integrity_medium == b.integrity_medium
    &&& a.integrity_low == b.integrity_low
}

/// Whether any level of integrity is chosen.
pub open spec fn has_level(a: SpecialFilter) -> bool {
    a.integrity_system || a.integrity_high || a.integrity_medium || a.integrity_low
}

/// Setting one more filter counts one more, whichever it is; a second level of
/// integrity is no further filter, nor is a second user or technique.
pub proof fn law_each_filter_counts_once(s: AppState, t: AppState)
    ensures
        ({
            let (a, b) = (s.special_filter, t.special_filter);
            let users = (a.users_checked@.len() > 0) == (b.users_checked@.len() > 0);
            let techniques = (s.mitre_filter@.len() > 0) == (t.mitre_filter@.len() > 0);
            let times = s.time_filter_active == t.time_filter_active;
            let levels = same_levels(a, b) || has_level(a) && has_level(b);
            let nets = a.network == b.network;
            let stays = a.persistence == b.persistence;
            let more = t.filter_count() - s.filter_count();
            &&& users && techniques && times && levels && nets && stays ==> more == 0
            &&& users && techniques && times && levels && stays && !a.network && b.network ==> more
                == 1
            &&& users && techniques && times && levels && nets && !a.persistence && b.persistence
                ==> more == 1
            &&& users && techniques && levels && nets && stays && !s.time_filter_active
                && t.time_filter_active ==> more == 1
            &&& users && techniques && times && nets && stays && !has_level(a) && has_level(b)
                ==> more == 1
            &&& techniques && times && levels && nets && stays && a.users_checked@.len() == 0
                && b.users_checked@.len() > 0 ==> more == 1
            &&& users && times && levels && nets && stays && s.mitre_filter@.len() == 0
                && t.mitre_filter@.len() > 0 ==> more == 1
        }),
{
}

// ---------------------------------------------------------------------------
// Visible processes
// ---------------------------------------------------------------------------

/// The visible list goes through the processes in their order; a process that is
/// not listed takes what is below it away, and one that is closed stands alone.
pub proof fn law_visible_processes_come_in_order(
    s: AppState,
    open: Set<ProcessGuid>,
    a: Seq<ProcessGuid>,
    b: Seq<ProcessGuid>,
    g: ProcessGuid,
    rest: Set<ProcessGuid>,
)
    requires
        rest.finite(),
    ensures
        visible_all(s, open, a + b, rest) == visible_all(s, open, a, rest) + visible_all(
            s,
            open,
            b,
            rest,
        ),
        visible_all(s, open, seq![g], rest) == visible_from(s, open, g, rest),
        !s.listed(g) ==> visible_from(s, open, g, rest).len() == 0,
        s.listed(g) && rest.contains(g) && !open.contains(g) ==> visible_from(s, open, g, rest)
            == seq![g],
        s.listed(g) && rest.contains(g) && open.contains(g) ==> visible_from(s, open, g, rest)
            == seq![g] + visible_all(s, open, s.process_tree@.nodes[g].children, rest.remove(g)),
    decreases b.len(),
{
    assert(seq![g].drop_last() =~= Seq::<ProcessGuid>::empty());
    assert(visible_all(s, open, Seq::<ProcessGuid>::empty(), rest) =~= Seq::empty());
    assert(seq![g].last() == g);
    assert(visible_all(s, open, seq![g], rest) =~= visible_from(s, open, g, rest));
    if b.len() == 0 {
        assert(a + b =~= a);
        assert(visible_all(s, open, a, rest) + visible_all(s, open, b, rest) =~= visible_all(
            s,
            open,
            a,
            rest,
        ));
    } else {
        assert((a + b).drop_last() =~= a + b.drop_last());
        assert((a + b).last() == b.last());
        law_visible_processes_come_in_order(s, open, a, b.drop_last(), g, rest);
        assert(visible_all(s, open, a + b, rest) =~= visible_all(s, open, a, rest) + visible_all(
            s,
            open,
            b,
            rest,
        ));
    }
}

/// Every process in the visible list is of the tree, is on the selected host and
/// passes the filters.
pub proof fn law_visible_processes_pass(
    s: AppState,
    open: Set<ProcessGuid>,
    list: Seq<ProcessGuid>,
    rest: Set<ProcessGuid>,
)
    requires
        rest.finite(),
    ensures
        forall|i: int|
            0 <= i < visible_all(s, open, list, rest).len() ==> {
                let g = #[trigger] visible_all(s, open, list, rest)[i];
                &&& rest.contains(g)
                &&& s.node_passes(g)
                &&& s.selected_host is Some ==> s.process_tree@.nodes[g].computer
                    == s.selected_host->Some_0@
            },
    decreases rest.len(), list.len(),
{
    if list.len() > 0 {
        let g = list.last();
        let front = visible_all(s, open, list.drop_last(), rest);
        let last = visible_from(s, open, g, rest);
        let all = visible_all(s, open, list, rest);
        law_visible_processes_pass(s, open, list.drop_last(), rest);
        let children = s.process_tree@.nodes[g].children;
        if rest.contains(g) {
            law_visible_processes_pass(s, open, children, rest.remove(g));
        }
        let below = visible_all(s, open, children, rest.remove(g));
        assert forall|i: int| 0 <= i < all.len() implies {
            let g = #[trigger] all[i];
            &&& rest.contains(g)
            &&& s.node_passes(g)
            &&& s.selected_host is Some ==> s.process_tree@.nodes[g].computer
                == s.selected_host->Some_0@
        } by {
            if i < front.len() {
                assert(all[i] == front[i]);
            } else {
                let k = i - front.len();
                assert(all[i] == last[k]);
                if k > 0 {
                    assert(last[k] == below[k - 1]);
                }
            }
        }
    }
}

// ---------------------------------------------------------------------------
// Loading
// ---------------------------------------------------------------------------

/// A batch that arrives is added behind the events; the end of the reading sums the
/// events up, notes the errors and ends the progress; where nothing arrived the
/// events stay as they are. No more than twenty batches are taken for one frame.
pub proof fn law_arrivals_grow_the_log(
    before: AppState,
    after: AppState,
    arrival: Arrival,
    taken: usize,
    bytes_read: u64,
    path: Seq<char>,
    next: Polling,
)
    requires
        after.received_from(before, arrival, taken, bytes_read, path, next),
        taken < usize::MAX,
    ensures
        arrival is Batch ==> {
            &&& after.event_store.events@ == before.event_store.events@ + arrival->Batch_0@
            &&& after.loading_progress == Some(bytes_read)
            &&& next is Again <==> taken < 19
            &&& next is Later <==> taken >= 19
        },
        arrival is Done || arrival is Closed ==> {
            &&& next is Over
            &&& after.event_store.events == before.event_store.events
            &&& after.loading_progress is None
            &&& after.file_metadata is Some
            &&& after.file_metadata->Some_0.path@ == path
            &&& after.file_metadata->Some_0.total_records == before.event_store.events@.len()
            &&& after.file_metadata->Some_0.unique_processes == after.process_tree@.nodes.dom().len()
            &&& after.filter_count() == 0
        },
        arrival is Done ==> after.parse_error_count == arrival->error_count,
        arrival is Closed ==> after.parse_error_count == before.parse_error_count,
        arrival is Nothing ==> {
            &&& next is Later
            &&& after.event_store == before.event_store
            &&& after.process_tree == before.process_tree
            &&& after.loading_progress == Some(bytes_read)
        },
        after.sigma_rules == before.sigma_rules,
        after.bookmarks == before.bookmarks,
        after.recent_files == before.recent_files,
        after.selected_process == before.selected_process,
{
}

/// After a log was loaded, its time filter reaches over all its days: switched on
/// as it stands, it holds every event at a whole second.
pub proof fn law_the_time_filter_starts_wide(s: AppState, path: Seq<char>, i: int)
    requires
        s.summarised(path),
        0 <= i < s.event_store.events@.len(),
        s.event_store.events@[i].time_created.nanos == 0,
        s.available_dates@.len() <= usize::MAX,
        -100_000_000 < s.available_dates@[0],
        s.available_dates@.last() < 100_000_000,
    ensures
        s.available_dates@.len() > 0,
        within(
            span_of(
                s.available_dates@,
                (s.time_filter_from_date_idx as int, s.time_filter_from_hm),
                (s.time_filter_to_date_idx as int, s.time_filter_to_hm),
            ),
            s.event_store.events@[i].time_created,
        ),
{
    let events = s.event_store.events@;
    let days = s.available_dates@;
    let t = events[i].time_created;
    let day = crate::state::day_of(t) as i64;
    assert(days_of(events, days));
    assert(days.contains(day));
    let d = choose|d: int| 0 <= d < days.len() && days[d] == day;
    assert(days[0] <= days[d] <= days.last());
}

/// The rules that were applied mark the processes of their matches, and no others.
pub proof fn law_matches_mark_their_processes(s: AppState, g: ProcessGuid)
    requires
        s.rules_applied(),
    ensures
        s.sigma_match_guids@.contains_key(g) <==> exists|i: int|
            {
                &&& 0 <= i < s.sigma_matches@.len()
                &&& (#[trigger] matches_of_rules(
                    s.sigma_rules@,
                    s.event_store.events@,
                    s.rodeo,
                )[i]).process_guid == Some(g)
            },
{
    let matches = s.sigma_matches@;
    let told = matches_of_rules(s.sigma_rules@, s.event_store.events@, s.rodeo);
    assert(told == crate::sigma::matcher::matches_text(matches));
    assert(told.len() == matches.len());
    assert forall|i: int| 0 <= i < matches.len() implies (#[trigger] told[i]).process_guid
        == matches[i].process_guid by {
    }
    if s.sigma_match_guids@.contains_key(g) {
        assert(s.sigma_match_guids@.dom().contains(g));
        let i = choose|i: int|
            0 <= i < matches.len() && (#[trigger] matches[i]).process_guid == Some(g);
        assert(told[i].process_guid == Some(g));
    }
    if exists|i: int| 0 <= i < matches.len() && (#[trigger] told[i]).process_guid == Some(g) {
        let i = choose|i: int|
            0 <= i < matches.len() && (#[trigger] told[i]).process_guid == Some(g);
        assert(matches[i].process_guid == Some(g));
        assert(s.sigma_match_guids@.dom().contains(g));
    }
}

/// The indexes of the store tell of every event whose it is, of which type, and
/// whom it was done to, and of no other.
pub proof fn law_indexes_tell_of_every_event(
    store: EventStore,
    i: int,
    g: ProcessGuid,
    id: u16,
)
    requires
        store.wf(),
        store.events@.len() <= usize::MAX,
        0 <= i < store.events@.len(),
    ensures
        store.events@[i].process_guid == Some(g) <==> store.by_process@.contains_key(g)
            && store.by_process@[g]@.contains(i as usize),
        store.events@[i].event_id == id <==> store.by_event_type@.contains_key(id)
            && store.by_event_type@[id]@.contains(i as usize),
        store.events@[i].detail.target() == Some(g) <==> store.by_target_process@.contains_key(g)
            && store.by_target_process@[g]@.contains(i as usize),
{
    let events = store.events@;
    law_positions_are_exact(events, Group::Process(g));
    law_positions_are_exact(events, Group::Type(id));
    law_positions_are_exact(events, Group::Target(g));
    let f = |p: ProcessGuid| Group::Process(p);
    let t = |id: u16| Group::Type(id);
    let h = |p: ProcessGuid| Group::Target(p);
    assert(crate::event_store::indexed(store.by_process@, events, f));
    assert(crate::event_store::indexed(store.by_event_type@, events, t));
    assert(crate::event_store::indexed(store.by_target_process@, events, h));
    let a = crate::event_store::positions(events, f(g));
    let b = crate::event_store::positions(events, t(id));
    let c = crate::event_store::positions(events, h(g));
    assert(store.by_process@.contains_key(g) == (a.len() > 0));
    assert(store.by_event_type@.contains_key(id) == (b.len() > 0));
    assert(store.by_target_process@.contains_key(g) == (c.len() > 0));
}

// ---------------------------------------------------------------------------
// Texts
// ---------------------------------------------------------------------------

/// The summary of fields names the first three at most, with their values.
pub proof fn law_summaries_name_three_fields(m: FieldMap)
    ensures
        ({
            let named = |i: int| m.names()[i] + "="@ + fields_of(m)[m.names()[i]];
            let n = m.names().len();
            &&& n == 0 ==> fields_summary(m).len() == 0
            &&& n == 1 ==> fields_summary(m) == named(0)
            &&& n == 2 ==> fields_summary(m) == named(0) + ", "@ + named(1)
            &&& n >= 3 ==> fields_summary(m) == named(0) + ", "@ + named(1) + ", "@ + named(2)
        }),
{
    let w = field_words(m);
    let n = m.names().len();
    reveal_with_fuel(crate::text::joined, 4);
    let k: int = if n < 3 {
        n as int
    } else {
        3
    };
    let first = w.take(k);
    if n >= 3 {
        assert(first.drop_last().drop_last().len() == 1);
    }
    if n == 2 {
        assert(first.drop_last().len() == 1);
    }
}

/// A rule file ends in "yml" or "yaml", in letters of either case.
pub proof fn law_rule_files_are_told_by_their_suffix(ext: Seq<char>)
    ensures
        is_rule_suffix(ext) <==> {
            ||| ext.len() == 3 && (ext[0] == 'y' || ext[0] == 'Y') && (ext[1] == 'm' || ext[1]
                == 'M') && (ext[2] == 'l' || ext[2] == 'L')
            ||| ext.len() == 4 && (ext[0] == 'y' || ext[0] == 'Y') && (ext[1] == 'a' || ext[1]
                == 'A') && (ext[2] == 'm' || ext[2] == 'M') && (ext[3] == 'l' || ext[3] == 'L')
        },
{
    reveal_strlit("yml");
    reveal_strlit("yaml");
    let lower = ext.map_values(|c: char| crate::text::ascii_lower(c));
    assert("yml"@ =~= seq!['y', 'm', 'l']);
    assert("yaml"@ =~= seq!['y', 'a', 'm', 'l']);
    if ext.len() == 3 {
        assert(lower[0] == crate::text::ascii_lower(ext[0]));
        assert(lower[1] == crate::text::ascii_lower(ext[1]));
        assert(lower[2] == crate::text::ascii_lower(ext[2]));
        assert(lower =~= "yml"@ <==> lower[0] == 'y' && lower[1] == 'm' && lower[2] == 'l');
        assert(lower.len() != "yaml"@.len());
    } else if ext.len() == 4 {
        assert(lower[0] == crate::text::ascii_lower(ext[0]));
        assert(lower[1] == crate::text::ascii_lower(ext[1]));
        assert(lower[2] == crate::text::ascii_lower(ext[2]));
        assert(lower[3] == crate::text::ascii_lower(ext[3]));
        assert(lower =~= "yaml"@ <==> lower[0] == 'y' && lower[1] == 'a' && lower[2] == 'm'
            && lower[3] == 'l');
        assert(lower.len() != "yml"@.len());
    } else {
        assert(lower.len() != "yml"@.len() && lower.len() != "yaml"@.len());
    }
}

/// A GUID is stored as one number of four bytes and two of two, each with its lowest
/// byte first, and eight more bytes; it is read with the highest byte first.
pub proof fn law_stored_guids_are_read_in_order(a: u32, b: u16, c: u16, tail: Seq<u8>)
    requires
        tail.len() == 8,
    ensures
        reordered(stored32(a as int) + stored16(b as int) + stored16(c as int) + tail) == seq![
            (a / 0x100_0000) as u8,
            (a / 0x1_0000 % 0x100) as u8,
            (a / 0x100 % 0x100) as u8,
            (a % 0x100) as u8,
            (b / 0x100) as u8,
            (b % 0x100) as u8,
            (c / 0x100) as u8,
            (c % 0x100) as u8,
        ] + tail,
{
    let d = stored32(a as int) + stored16(b as int) + stored16(c as int) + tail;
    assert(forall|i: int| 0 <= i < 8 ==> d[i + 8] == #[trigger] tail[i]);
    assert(d[8] == tail[0] && d[9] == tail[1] && d[10] == tail[2] && d[11] == tail[3] && d[12]
        == tail[4] && d[13] == tail[5] && d[14] == tail[6] && d[15] == tail[7]);
}

/// A GUID reads the same behind "urn:uuid:" and between braces, and only where what
/// is left has the right length.
pub proof fn law_guids_have_four_forms(t: Seq<char>)
    requires
        t.len() == 36,
    ensures
        guid_of(t) == hyphenated_form(t),
        guid_of("urn:uuid:"@ + t) == guid_of(t),
        guid_of("URN:UUID:"@ + t) == guid_of(t),
        guid_of(seq!['{'] + t + seq!['}']) == guid_of(t),
        guid_of(seq!['{'] + t) is None,
        guid_of(t + seq!['}']) is None,
{
    reveal_strlit("urn:uuid:");
    reveal_strlit("URN:UUID:");
    let a = "urn:uuid:"@ + t;
    let b = "URN:UUID:"@ + t;
    let c = seq!['{'] + t + seq!['}'];
    assert(a.subrange(9, 45) =~= t);
    assert(b.subrange(9, 45) =~= t);
    assert(c.subrange(1, 37) =~= t);
    assert(c[0] == '{' && c[37] == '}');
}

/// A unit that is half of a pair and stands alone is read as the replacement
/// character, and what follows it is read as it is.
pub proof fn law_lone_halves_are_replaced(w: u16, rest: Seq<u16>)
    requires
        0xd800 <= w < 0xe000,
        w < 0xdc00 && rest.len() > 0 ==> !(0xdc00 <= rest[0] < 0xe000),
    ensures
        decoded(seq![w] + rest) == seq!['\u{FFFD}'] + decoded(rest),
{
    let all = seq![w] + rest;
    assert(all[0] == w);
    assert(all.skip(1) =~= rest);
    if all.len() > 1 {
        assert(all[1] == rest[0]);
    }
}

/// The clock of an instant shows its hours, minutes and seconds in two digits and
/// the thousandths in three.
pub proof fn law_clocks_show_the_time_of_day(
    day: int,
    h: int,
    m: int,
    s: int,
    ms: int,
    rest: int,
    secs: i64,
    nanos: u32,
)
    requires
        0 <= h < 24 && 0 <= m < 60 && 0 <= s < 60 && 0 <= ms < 1000 && 0 <= rest < 1_000_000,
        secs == day * 86_400 + h * 3600 + m * 60 + s,
        nanos == ms * 1_000_000 + rest,
    ensures
        clock_text(secs, nanos) == zero_padded(decimal(h as nat), 2) + ":"@ + zero_padded(
            decimal(m as nat),
            2,
        ) + ":"@ + zero_padded(decimal(s as nat), 2) + "."@ + zero_padded(decimal(ms as nat), 3),
{
    let d = secs as int % 86_400;
    assert(d == h * 3600 + m * 60 + s);
    assert(d / 3600 == h);
    assert(d / 60 == h * 60 + m);
    assert((h * 60 + m) % 60 == m);
    assert(d % 60 == s);
    assert(nanos as int / 1_000_000_000 == 0);
    assert(nanos as int / 1_000_000 == ms);
}

/// The whole seconds between two instants are what fits between them: no more, and
/// not a second less.
pub proof fn law_whole_seconds_fit_between(a: Timestamp, b: Timestamp)
    requires
        a.nanos < 1_000_000_000,
        b.nanos < 1_000_000_000,
    ensures
        ({
            let n = whole_seconds(a.secs, a.nanos, b.secs, b.nanos);
            let apart = (b.secs - a.secs) * 1_000_000_000 + b.nanos - a.nanos;
            n * 1_000_000_000 <= apart && apart < (n + 1) * 1_000_000_000
        }),
{
}

/// Batches hold five hundred events each, but for the last one, which holds at least
/// one.
pub proof fn law_batches_are_full(batches: Seq<Vec<SysmonEvent>>, i: int)
    requires
        crate::evtx::chunk::in_batches(batches),
        0 <= i < batches.len(),
    ensures
        0 < batches[i]@.len() <= 500,
        i < batches.len() - 1 ==> batches[i]@.len() == 500,
{
    if i < batches.len() - 1 {
        assert(batches.drop_last()[i] == batches[i]);
    }
}

} // verus!
