//! Laws of the figures and details that are shown: statistics, the overview of a
//! process, techniques, and texts that are put right.

use crate::clock::{elapsed, instant_of, naive_instant, rfc3339_instant};
use crate::event::{EventText, SysmonEvent};
use crate::guid::{bytes_text, hex_char, ProcessGuid};
use crate::interner::{text_of, SharedRodeo};
use crate::laws::records::Fields;
use crate::laws::tables::comes_from;
use crate::laws::texts::{
    law_parts_are_found_on_both_sides,
    law_trimmed_texts_stay,
};
use crate::lenient::{four_digits_at, repaired};
use crate::numbers::decimal;
use crate::overview::{details_of, hash_among, hash_of, Activity};
use crate::panels::drivers::DriverRow;
use crate::panels::files::FileRow;
use crate::panels::injection::InjectionRow;
use crate::panels::network::NetworkRow;
use crate::panels::pipes::PipeRow;
use crate::panels::registry::RegistryRow;
use crate::panels::EventRow;
use crate::parser::{event_of, RecordText};
use crate::process_tree::ProcessText;
use crate::session::{grouped, recent_after};
use crate::stats::{
    duration_text, events_on, first_level, length_of, level_order, other_levels, process_labels,
    tops,
};
use crate::text::{after_prefix, is_white, lowercase, split_of, trim_of, uppercase};
use crate::types::{mitre_of, rule_value, MitreTechnique, Timestamp};
use vstd::prelude::*;

verus! {

// ---------------------------------------------------------------------------
// Techniques and hashes
// ---------------------------------------------------------------------------

/// Whether a text can stand in a list with commas: it has none itself, and no white
/// space at its ends.
pub open spec fn is_item(s: Seq<char>) -> bool {
    !s.contains(',') && (s.len() > 0 ==> !is_white(s[0]) && !is_white(s.last()))
}

proof fn lemma_named(name: Seq<char>, v: Seq<char>)
    requires
        is_item(v),
        name.len() > 0,
        !name.contains(','),
        !is_white(name[0]) && !is_white(name.last()),
    ensures
        !(name + v).contains(','),
        trim_of(name + v) == name + v,
        trim_of(v) == v,
        after_prefix(name + v, name) == Some(v),
{
    let s = name + v;
    assert(s[0] == name[0]);
    assert(s.last() == if v.len() > 0 {
        v.last()
    } else {
        name.last()
    });
    law_trimmed_texts_stay(s);
    law_trimmed_texts_stay(v);
    assert(s.take(name.len() as int) =~= name);
    assert(s.subrange(0, name.len() as int) =~= name);
    assert(s.skip(name.len() as int) =~= v);
    if s.contains(',') {
        let i = choose|i: int| 0 <= i < s.len() && s[i] == ',';
        if i < name.len() {
            assert(name[i] == ',');
        } else {
            assert(v[i - name.len()] == ',');
        }
    }
}

proof fn lemma_other_name(name: Seq<char>, v: Seq<char>, key: Seq<char>, k: int)
    requires
        0 <= k < name.len(),
        k < key.len(),
        name[k] != key[k],
    ensures
        after_prefix(name + v, key) is None,
{
    let s = name + v;
    if crate::text::begins_with(s, key) {
        assert(s.take(key.len() as int)[k] == name[k]);
        assert(s.subrange(0, key.len() as int)[k] == name[k]);
        assert(s[k] == name[k]);
    }
}

/// A rule name that gives the number and the name of a technique, in either order,
/// gives that technique; one that gives only one of them gives none.
pub proof fn law_rule_names_give_their_technique(id: Seq<char>, name: Seq<char>)
    requires
        is_item(id),
        is_item(name),
    ensures
        mitre_of("technique_id="@ + id + ","@ + ("technique_name="@ + name)) == Some(
            MitreTechnique { id, name },
        ),
        mitre_of("technique_name="@ + name + ","@ + ("technique_id="@ + id)) == Some(
            MitreTechnique { id, name },
        ),
        mitre_of("technique_id="@ + id) is None,
        mitre_of("technique_name="@ + name) is None,
{
    let (ki, kn) = ("technique_id="@, "technique_name="@);
    reveal_strlit("technique_id=");
    reveal_strlit("technique_name=");
    reveal_strlit(",");
    assert(","@ =~= seq![',']);
    assert(ki[10] == 'i' && kn[10] == 'n');
    lemma_named(ki, id);
    lemma_named(kn, name);
    lemma_other_name(ki, id, kn, 10);
    lemma_other_name(kn, name, ki, 10);
    let (a, b) = (ki + id, kn + name);
    law_parts_are_found_on_both_sides(a, b, ',');
    law_parts_are_found_on_both_sides(b, a, ',');
    let ab = seq![a] + seq![b];
    let ba = seq![b] + seq![a];
    assert(split_of(a + seq![','] + b, ',') == ab);
    assert(split_of(b + seq![','] + a, ',') == ba);
    assert(ab.drop_last() =~= seq![a] && ba.drop_last() =~= seq![b]);
    assert(seq![a].drop_last() =~= Seq::<Seq<char>>::empty());
    assert(seq![b].drop_last() =~= Seq::<Seq<char>>::empty());
    reveal_with_fuel(rule_value, 3);
    assert(rule_value(ab, ki) == Some(id) && rule_value(ab, kn) == Some(name));
    assert(rule_value(ba, ki) == Some(id) && rule_value(ba, kn) == Some(name));
    assert(rule_value(seq![a], kn) is None);
    assert(rule_value(seq![b], ki) is None);
}

proof fn lemma_value_at_end(parts: Seq<Seq<char>>, last: Seq<char>, key: Seq<char>)
    ensures
        rule_value(parts + seq![last], key) == match after_prefix(trim_of(last), key) {
            Some(v) => Some(trim_of(v)),
            None => rule_value(parts, key),
        },
        hash_among(parts + seq![last], key) == match after_prefix(trim_of(last), key) {
            Some(v) => v,
            None => hash_among(parts, key),
        },
{
    let all = parts + seq![last];
    assert(all.drop_last() =~= parts);
    assert(all.last() == last);
}

/// What else a rule name says behind its technique does not change it.
pub proof fn law_other_parts_do_not_matter(rule: Seq<char>, key: Seq<char>, v: Seq<char>, k: int)
    requires
        is_item(v),
        !key.contains(','),
        !is_white(key[0]) && !is_white(key.last()),
        0 <= k < key.len() && k < 13,
        key[k] != "technique_id="@[k] && key[k] != "technique_name="@[k],
    ensures
        mitre_of(rule + ","@ + (key + v)) == mitre_of(rule),
{
    let part = key + v;
    reveal_strlit("technique_id=");
    reveal_strlit("technique_name=");
    reveal_strlit(",");
    assert(","@ =~= seq![',']);
    lemma_named(key, v);
    lemma_other_name(key, v, "technique_id="@, k);
    lemma_other_name(key, v, "technique_name="@, k);
    law_parts_are_found_on_both_sides(rule, part, ',');
    law_parts_are_found_on_both_sides(part, rule, ',');
    lemma_value_at_end(split_of(rule, ','), part, "technique_id="@);
    lemma_value_at_end(split_of(rule, ','), part, "technique_name="@);
}

/// A hash is found under its name at the end of any list of hashes, and one with
/// another name behind it does not hide it.
pub proof fn law_hashes_are_found_by_their_names(
    list: Seq<char>,
    name: Seq<char>,
    v: Seq<char>,
    other: Seq<char>,
    w: Seq<char>,
    k: int,
)
    requires
        is_item(v),
        is_item(w),
        !name.contains(',') && name.len() > 0 && !is_white(name[0]) && !is_white(name.last()),
        !other.contains(',') && other.len() > 0 && !is_white(other[0]) && !is_white(other.last()),
        0 <= k < name.len() && k < other.len() && name[k] != other[k],
    ensures
        hash_of(list + ","@ + (name + v), name) == v,
        hash_of(name + v, name) == v,
        hash_of(list + ","@ + (other + w), name) == hash_of(list, name),
        hash_of(other + w, name) == "-"@,
{
    reveal_strlit(",");
    assert(","@ =~= seq![',']);
    lemma_named(name, v);
    lemma_named(other, w);
    lemma_other_name(other, w, name, k);
    law_parts_are_found_on_both_sides(list, name + v, ',');
    law_parts_are_found_on_both_sides(name + v, list, ',');
    law_parts_are_found_on_both_sides(list, other + w, ',');
    law_parts_are_found_on_both_sides(other + w, list, ',');
    lemma_value_at_end(split_of(list, ','), name + v, name);
    lemma_value_at_end(split_of(list, ','), other + w, name);
    let none = Seq::<Seq<char>>::empty();
    lemma_value_at_end(none, name + v, name);
    lemma_value_at_end(none, other + w, name);
    assert(none + seq![name + v] =~= seq![name + v]);
    assert(none + seq![other + w] =~= seq![other + w]);
}

// ---------------------------------------------------------------------------
// The overview of a process
// ---------------------------------------------------------------------------

/// Whether a text is shown as it is known, or a dash in its place.
pub open spec fn is_shown(known: Option<Seq<char>>, shown: Seq<char>) -> bool {
    match known {
        Some(t) => shown == t,
        None => shown == "-"@,
    }
}

/// The overview of a process shows what the tree knows of it, each under its own
/// heading, and its hashes by their names.
pub proof fn law_overviews_show_their_process(g: ProcessGuid, n: ProcessText)
    ensures
        ({
            let o = details_of(g, n);
            &&& is_shown(n.image, o.image)
            &&& is_shown(n.command_line, o.command_line)
            &&& is_shown(n.user, o.user)
            &&& is_shown(n.integrity_level, o.integrity)
            &&& is_shown(n.logon_id, o.logon_id)
            &&& is_shown(n.file_version, o.file_version)
            &&& is_shown(n.description, o.description)
            &&& is_shown(n.product, o.product)
            &&& is_shown(n.company, o.company)
            &&& is_shown(n.original_file_name, o.original_file_name)
            &&& is_shown(n.parent_image, o.parent_image)
            &&& n.pid is Some ==> o.pid == decimal(n.pid->Some_0 as nat)
            &&& n.pid is None ==> o.pid == "-"@
            &&& n.parent_pid is Some ==> o.parent_pid == decimal(n.parent_pid->Some_0 as nat)
            &&& n.parent_pid is None ==> o.parent_pid == "-"@
            &&& o.computer == n.computer
            &&& n.hashes is Some ==> {
                &&& o.md5 == hash_of(n.hashes->Some_0, "MD5="@)
                &&& o.sha256 == hash_of(n.hashes->Some_0, "SHA256="@)
                &&& o.imphash == hash_of(n.hashes->Some_0, "IMPHASH="@)
            }
            &&& n.end_time is None ==> o.end == "Not Detected"@
            &&& o.integrity_shade is System <==> uppercase(o.integrity) == "SYSTEM"@
            &&& o.integrity_shade is High <==> uppercase(o.integrity) == "HIGH"@
            &&& n.end_time == Some(n.start_time) ==> o.end == o.start
        }),
{
    reveal_strlit("SYSTEM");
    reveal_strlit("HIGH");
    assert("SYSTEM"@.len() == 6 && "HIGH"@.len() == 4);
}

/// A GUID is shown byte by byte: in one digit below sixteen, else in two.
pub proof fn law_bytes_are_shown_one_by_one(a: Seq<u8>, b: Seq<u8>, n: u8)
    ensures
        bytes_text(a + b) == bytes_text(a) + bytes_text(b),
        n < 16 ==> bytes_text(seq![n]) == seq![hex_char(n as int)],
        n >= 16 ==> bytes_text(seq![n]) == seq![hex_char(n as int / 16), hex_char(n as int % 16)],
    decreases b.len(),
{
    assert(seq![n].drop_last() =~= Seq::<u8>::empty());
    reveal_with_fuel(bytes_text, 2);
    if b.len() == 0 {
        assert(a + b =~= a);
        assert(bytes_text(a) + bytes_text(b) =~= bytes_text(a));
    } else {
        assert((a + b).drop_last() =~= a + b.drop_last());
        law_bytes_are_shown_one_by_one(a, b.drop_last(), n);
        assert(bytes_text(a + b) =~= bytes_text(a) + bytes_text(b));
    }
}

/// The overview counts in each category the events that the table of that category
/// has rows for, and under the rest raw reads, changes of the monitor's
/// configuration and of the clipboard.
pub proof fn law_categories_count_the_rows_of_their_tables(
    e: SysmonEvent,
    raw: RecordText,
    f: Fields,
    g: ProcessGuid,
)
    requires
        comes_from(e, raw, f),
    ensures
        Activity::Network.numbers().contains(raw.event_id) <==> NetworkRow::row_of(e, g) is Some,
        Activity::Files.numbers().contains(raw.event_id) <==> FileRow::row_of(e, g) is Some,
        Activity::Registry.numbers().contains(raw.event_id) <==> RegistryRow::row_of(e, g) is Some,
        Activity::Pipes.numbers().contains(raw.event_id) <==> PipeRow::row_of(e, g) is Some,
        Activity::Injection.numbers().contains(raw.event_id) <==> InjectionRow::row_of(
            e,
            g,
        ) is Some,
        Activity::Drivers.numbers().contains(raw.event_id) <==> DriverRow::row_of(e, g) is Some,
        Activity::Other.numbers().contains(raw.event_id) <==> e.detail@ is RawAccessRead
            || e.detail@ is SysmonConfigChange || e.detail@ is ClipboardChange,
{
    let id = raw.event_id;
    let n = Activity::Network.numbers();
    assert(n[0] == 3 && n[1] == 22);
    let n = Activity::Files.numbers();
    assert(n[0] == 11 && n[1] == 15 && n[2] == 23 && n[3] == 26 && n[4] == 27 && n[5] == 28 && n[6]
        == 29);
    let n = Activity::Registry.numbers();
    assert(n[0] == 12 && n[1] == 13 && n[2] == 14);
    let n = Activity::Pipes.numbers();
    assert(n[0] == 17 && n[1] == 18);
    let n = Activity::Injection.numbers();
    assert(n[0] == 8 && n[1] == 10 && n[2] == 25);
    let n = Activity::Drivers.numbers();
    assert(n[0] == 6 && n[1] == 7);
    let n = Activity::Other.numbers();
    assert(n[0] == 9 && n[1] == 16 && n[2] == 24);
}

/// The type of an event goes with the kind of its details.
pub proof fn law_types_go_with_details(raw: RecordText, f: Fields, e: EventText)
    requires
        event_of(raw, f) == Some(e),
    ensures
        e.event_type is ProcessCreate <==> e.detail is ProcessCreate,
        e.event_type is FileCreateTime <==> e.detail is FileCreateTime,
        e.event_type is NetworkConnect <==> e.detail is NetworkConnect,
        e.event_type is ProcessTerminate <==> e.detail is ProcessTerminate,
        e.event_type is DriverLoad <==> e.detail is DriverLoad,
        e.event_type is ImageLoad <==> e.detail is ImageLoad,
        e.event_type is CreateRemoteThread <==> e.detail is CreateRemoteThread,
        e.event_type is RawAccessRead <==> e.detail is RawAccessRead,
        e.event_type is ProcessAccess <==> e.detail is ProcessAccess,
        e.event_type is FileCreate <==> e.detail is FileCreate,
        e.event_type is FileCreateStreamHash <==> e.detail is FileCreateStreamHash,
        e.event_type is SysmonConfigChange <==> e.detail is SysmonConfigChange,
        e.event_type is DnsQuery <==> e.detail is DnsQuery,
        e.event_type is ClipboardChange <==> e.detail is ClipboardChange,
        e.event_type is ProcessTampering <==> e.detail is ProcessTampering,
        e.event_type is RegistryCreateDelete || e.event_type is RegistryValueSet
            || e.event_type is RegistryRename <==> e.detail is RegistryEvent,
        e.event_type is PipeCreated || e.event_type is PipeConnected <==> e.detail is PipeEvent,
        e.event_type is WmiFilter || e.event_type is WmiConsumer || e.event_type is WmiBinding
            <==> e.detail is WmiActivity,
        e.event_type is FileDelete || e.event_type is FileDeleteDetected
            || e.event_type is FileBlockExecutable || e.event_type is FileBlockShredding
            || e.event_type is FileExecutableDetected <==> e.detail is FileDeleteEvent,
        e.event_type is SysmonServiceState || e.event_type is Unknown <==> e.detail is Generic,
{
}

// ---------------------------------------------------------------------------
// Statistics
// ---------------------------------------------------------------------------

/// The figures cover every event on the host, or on any where no host is chosen,
/// one after the other.
pub proof fn law_figures_cover_every_event(
    a: Seq<SysmonEvent>,
    b: Seq<SysmonEvent>,
    e: SysmonEvent,
    host: Seq<char>,
    any: Option<Seq<char>>,
    r: SharedRodeo,
)
    ensures
        events_on(a + b, any, r) == events_on(a, any, r) + events_on(b, any, r),
        events_on(seq![e], None, r) == seq![(e.time_created, e.event_id, text_of(r, e.computer))],
        text_of(r, e.computer) == host ==> events_on(seq![e], Some(host), r) == events_on(
            seq![e],
            None,
            r,
        ),
        text_of(r, e.computer) != host ==> events_on(seq![e], Some(host), r).len() == 0,
    decreases b.len(),
{
    assert(seq![e].drop_last() =~= Seq::<SysmonEvent>::empty());
    reveal_with_fuel(events_on, 2);
    if b.len() == 0 {
        assert(a + b =~= a);
        assert(events_on(a, any, r) + events_on(b, any, r) =~= events_on(a, any, r));
    } else {
        assert((a + b).drop_last() =~= a + b.drop_last());
        assert((a + b).last() == b.last());
        law_figures_cover_every_event(a, b.drop_last(), e, host, any, r);
        assert(events_on(a + b, any, r) =~= events_on(a, any, r) + events_on(b, any, r));
    }
}

/// The figures cover every process that was seen itself and is on the host, by its
/// user and its level of integrity.
pub proof fn law_figures_cover_every_process(
    nodes: Map<ProcessGuid, ProcessText>,
    a: Seq<ProcessGuid>,
    b: Seq<ProcessGuid>,
    g: ProcessGuid,
    host: Seq<char>,
    any: Option<Seq<char>>,
)
    ensures
        process_labels(nodes, a + b, any) == process_labels(nodes, a, any) + process_labels(
            nodes,
            b,
            any,
        ),
        nodes[g].is_synthetic ==> process_labels(nodes, seq![g], any).len() == 0,
        nodes[g].computer != host ==> process_labels(nodes, seq![g], Some(host)).len() == 0,
        !nodes[g].is_synthetic ==> {
            let label = process_labels(nodes, seq![g], None)[0];
            &&& process_labels(nodes, seq![g], None).len() == 1
            &&& nodes[g].computer == host ==> process_labels(nodes, seq![g], Some(host))
                == process_labels(nodes, seq![g], None)
            &&& nodes[g].user is Some ==> label.0 == nodes[g].user->Some_0
            &&& nodes[g].user is None ==> label.0 == "(unknown)"@
            &&& nodes[g].integrity_level is Some ==> label.1 == nodes[g].integrity_level->Some_0
            &&& nodes[g].integrity_level is None ==> label.1 == "(unknown)"@
        },
    decreases b.len(),
{
    assert(seq![g].drop_last() =~= Seq::<ProcessGuid>::empty());
    reveal_with_fuel(process_labels, 2);
    if b.len() == 0 {
        assert(a + b =~= a);
        assert(process_labels(nodes, a, any) + process_labels(nodes, b, any) =~= process_labels(
            nodes,
            a,
            any,
        ));
    } else {
        assert((a + b).drop_last() =~= a + b.drop_last());
        assert((a + b).last() == b.last());
        law_figures_cover_every_process(nodes, a, b.drop_last(), g, host, any);
        assert(process_labels(nodes, a + b, any) =~= process_labels(nodes, a, any)
            + process_labels(nodes, b, any));
    }
}

/// A number of seconds is shown in hours, minutes and seconds, without the ones in
/// front that are none.
pub proof fn law_durations_are_shown_in_hours_and_minutes(h: nat, m: nat, s: nat)
    requires
        m < 60,
        s < 60,
    ensures
        h > 0 ==> duration_text(h * 3600 + m * 60 + s) == decimal(h) + "h "@ + decimal(m) + "m "@
            + decimal(s) + "s"@,
        m > 0 ==> duration_text(m * 60 + s) == decimal(m) + "m "@ + decimal(s) + "s"@,
        duration_text(s) == decimal(s) + "s"@,
{
    let n = h * 3600 + m * 60 + s;
    assert(n / 3600 == h && n % 3600 == m * 60 + s);
    assert((m * 60 + s) / 60 == m);
    assert(n % 60 == s);
    let k = m * 60 + s;
    assert(k / 3600 == 0 && k % 3600 == k && k % 60 == s);
}

/// The length of a span of time is the same seconds in either direction, and there
/// is none without a span.
pub proof fn law_lengths_have_no_sign(a: Timestamp, b: Timestamp, n: u32)
    ensures
        elapsed(a.secs, a.nanos, b.secs, b.nanos) == Some(n as i64) || elapsed(
            a.secs,
            a.nanos,
            b.secs,
            b.nanos,
        ) == Some((-(n as int)) as i64) ==> length_of(Some((a, b))) == Some(
            duration_text(n as nat),
        ),
        length_of(None::<(Timestamp, Timestamp)>) is None,
{
}

/// The greatest counts come first, as many of them as the limit allows: a count
/// that is left out is no greater than one that is listed.
pub proof fn law_the_greatest_counts_are_listed(counts: Seq<usize>, limit: int, order: Seq<usize>)
    requires
        tops(counts, limit, order),
        limit >= 0,
    ensures
        order.len() == if counts.len() < limit {
            counts.len() as int
        } else {
            limit
        },
        forall|i: int, j: int|
            0 <= i < j < order.len() ==> counts[#[trigger] order[i] as int]
                >= counts[#[trigger] order[j] as int],
        forall|i: int, p: usize|
            0 <= i < order.len() && p < counts.len() && !order.contains(p)
                ==> counts[#[trigger] order[i] as int] >= #[trigger] counts[p as int],
{
    let full = choose|full: Seq<usize>| #[trigger]
        crate::tally::most_first(counts, full) && order == full.take(
            if full.len() < limit {
                full.len() as int
            } else {
                limit
            },
        );
    assert forall|i: int, j: int| 0 <= i < j < order.len() implies counts[#[trigger] order[i] as int]
        >= counts[#[trigger] order[j] as int] by {
        assert(order[i] == full[i] && order[j] == full[j]);
    }
    assert forall|i: int, p: usize|
        0 <= i < order.len() && p < counts.len() && !order.contains(
            p,
        ) implies counts[#[trigger] order[i] as int] >= #[trigger] counts[p as int] by {
        assert(full.contains(p));
        let j = choose|j: int| 0 <= j < full.len() && full[j] == p;
        if j < order.len() {
            assert(order[j] == p);
        }
        assert(order[i] == full[i]);
    }
}

/// Counts are ranked with the greatest first, equal ones in the order that they had,
/// and every one has its rank.
pub proof fn law_equal_counts_keep_their_order(counts: Seq<usize>, order: Seq<usize>, i: int, j: int)
    requires
        crate::tally::most_first(counts, order),
        0 <= i < j < order.len(),
    ensures
        counts[order[i] as int] >= counts[order[j] as int],
        counts[order[i] as int] == counts[order[j] as int] ==> order[i] < order[j],
        order.len() == counts.len(),
{
}

/// The figures of a log list the twenty most frequent types of events, the twelve
/// users with most processes, and all hosts.
pub proof fn law_figures_have_their_limits(
    s: crate::stats::Stats,
    on: Seq<(Timestamp, u16, Seq<char>)>,
    labels: Seq<(Seq<char>, Seq<char>)>,
)
    requires
        s.of_events(on),
        s.of_processes(labels),
    ensures
        s.events == on.len(),
        s.processes == labels.len(),
        s.type_order@.len() == if s.type_counts@.len() < 20 {
            s.type_counts@.len() as int
        } else {
            20
        },
        s.user_order@.len() == if s.user_counts@.len() < 12 {
            s.user_counts@.len() as int
        } else {
            12
        },
        s.host_order@.len() == s.host_counts@.len(),
{
    law_the_greatest_counts_are_listed(
        crate::stats::type_numbers(s.type_counts@),
        20,
        s.type_order@,
    );
    law_the_greatest_counts_are_listed(
        crate::stats::numbers_of(crate::tally::counts_text(s.user_counts@)),
        12,
        s.user_order@,
    );
}

/// How high a level of integrity is listed: the most powerful first, then the ones
/// without a name of their own.
pub open spec fn rank_of(level: Seq<char>) -> int {
    let word = lowercase(level);
    if word == "system"@ {
        0
    } else if word == "high"@ {
        1
    } else if word == "medium"@ {
        2
    } else if word == "low"@ {
        3
    } else {
        4
    }
}

proof fn lemma_first(labels: Seq<Seq<char>>, word: Seq<char>)
    requires
        labels.len() <= usize::MAX,
    ensures
        first_level(labels, word).len() <= 1,
        first_level(labels, word).len() == 0 <==> forall|i: int|
            0 <= i < labels.len() ==> lowercase(#[trigger] labels[i]) != word,
        first_level(labels, word).len() == 1 ==> first_level(labels, word)[0] < labels.len()
            && lowercase(labels[first_level(labels, word)[0] as int]) == word,
    decreases labels.len(),
{
    if labels.len() > 0 {
        let f = labels.drop_last();
        lemma_first(f, word);
        let front = first_level(f, word);
        if front.len() > 0 {
            assert(labels[front[0] as int] == f[front[0] as int]);
        } else {
            assert forall|i: int| 0 <= i < f.len() implies lowercase(#[trigger] labels[i])
                != word by {
                assert(f[i] == labels[i]);
            }
        }
    }
}

proof fn lemma_others(labels: Seq<Seq<char>>)
    requires
        labels.len() <= usize::MAX,
    ensures
        forall|k: int|
            0 <= k < other_levels(labels).len() ==> (#[trigger] other_levels(labels)[k])
                < labels.len() && rank_of(labels[other_levels(labels)[k] as int]) == 4,
        forall|p: usize|
            p < labels.len() && rank_of(#[trigger] labels[p as int]) == 4 ==> other_levels(
                labels,
            ).contains(p),
    decreases labels.len(),
{
    if labels.len() > 0 {
        let f = labels.drop_last();
        lemma_others(f);
        let front = other_levels(f);
        let all = other_levels(labels);
        assert forall|k: int| 0 <= k < all.len() implies (#[trigger] all[k]) < labels.len()
            && rank_of(labels[all[k] as int]) == 4 by {
            if k < front.len() {
                assert(all[k] == front[k]);
                assert(f[front[k] as int] == labels[front[k] as int]);
            }
        }
        assert forall|p: usize|
            p < labels.len() && rank_of(#[trigger] labels[p as int]) == 4 implies all.contains(p) by {
            if p < f.len() {
                assert(f[p as int] == labels[p as int]);
                assert(front.contains(p));
                let k = choose|k: int| 0 <= k < front.len() && front[k] == p;
                assert(all[k] == p);
            } else {
                assert(all.last() == p);
                assert(all[all.len() - 1] == p);
            }
        }
    }
}

/// The levels of integrity are listed from the most powerful down, with the others
/// behind them, and none is left out.
pub proof fn law_levels_are_listed_by_their_power(labels: Seq<Seq<char>>)
    requires
        labels.len() <= usize::MAX,
    ensures
        forall|i: int, j: int|
            0 <= i < j < level_order(labels).len() ==> rank_of(
                labels[#[trigger] level_order(labels)[i] as int],
            ) <= rank_of(labels[#[trigger] level_order(labels)[j] as int]),
        forall|p: usize|
            p < labels.len() ==> exists|k: int|
                0 <= k < level_order(labels).len() && rank_of(
                    labels[#[trigger] level_order(labels)[k] as int],
                ) == rank_of(#[trigger] labels[p as int]),
{
    let a = first_level(labels, "system"@);
    let b = first_level(labels, "high"@);
    let c = first_level(labels, "medium"@);
    let d = first_level(labels, "low"@);
    let e = other_levels(labels);
    lemma_first(labels, "system"@);
    lemma_first(labels, "high"@);
    lemma_first(labels, "medium"@);
    lemma_first(labels, "low"@);
    lemma_others(labels);
    reveal_strlit("system");
    reveal_strlit("high");
    reveal_strlit("medium");
    reveal_strlit("low");
    assert("system"@[0] == 's' && "high"@[0] == 'h' && "medium"@[0] == 'm' && "low"@[0] == 'l');
    let all = level_order(labels);
    let (na, nb, nc, nd) = (
        a.len() as int,
        a.len() + b.len() as int,
        a.len() + b.len() + c.len() as int,
        a.len() + b.len() + c.len() + d.len() as int,
    );
    assert forall|k: int| 0 <= k < all.len() implies rank_of(labels[#[trigger] all[k] as int])
        == if k < na {
        0int
    } else if k < nb {
        1
    } else if k < nc {
        2
    } else if k < nd {
        3
    } else {
        4
    } by {
        if k < na {
            assert(all[k] == a[k]);
        } else if k < nb {
            assert(all[k] == b[k - na]);
        } else if k < nc {
            assert(all[k] == c[k - nb]);
        } else if k < nd {
            assert(all[k] == d[k - nc]);
        } else {
            assert(all[k] == e[k - nd]);
        }
    }
    assert forall|p: usize| p < labels.len() implies exists|k: int|
        0 <= k < all.len() && rank_of(labels[#[trigger] all[k] as int]) == rank_of(
            #[trigger] labels[p as int],
        ) by {
        let r = rank_of(labels[p as int]);
        if r == 0 {
            assert(rank_of(labels[all[0] as int]) == 0);
        } else if r == 1 {
            assert(rank_of(labels[all[na] as int]) == 1);
        } else if r == 2 {
            assert(rank_of(labels[all[nb] as int]) == 2);
        } else if r == 3 {
            assert(rank_of(labels[all[nc] as int]) == 3);
        } else {
            assert(e.contains(p));
            let k = choose|k: int| 0 <= k < e.len() && e[k] == p;
            assert(all[nd + k] == p);
        }
    }
}

/// Where the digit that stands so many places from the right stands among the
/// groups.
pub open spec fn grouped_place(k: int) -> int {
    k / 3 * 4 + k % 3
}

#[verifier::spinoff_prover]
#[verifier::rlimit(40)]
proof fn lemma_group_digits(digits: Seq<char>, k: int)
    requires
        0 <= k < digits.len(),
    ensures
        ({
            let g = grouped(digits);
            &&& grouped_place(k) < g.len()
            &&& digits[digits.len() - 1 - k] == g[g.len() - 1 - grouped_place(k)]
        }),
    decreases digits.len(),
{
    let n = digits.len() as int;
    let g = grouped(digits);
    if n <= 3 {
        assert(k / 3 == 0 && k % 3 == k);
    } else {
        let f = digits.take(n - 3);
        let gf = grouped(f);
        let last = digits.skip(n - 3);
        assert(g == gf + seq![','] + last);
        if k < 3 {
            assert(k / 3 == 0 && k % 3 == k);
            assert(g[g.len() - 1 - k] == last[2 - k]);
        } else {
            let j = k - 3;
            lemma_group_digits(f, j);
            assert(j / 3 == k / 3 - 1 && j % 3 == k % 3);
            assert(grouped_place(k) == grouped_place(j) + 4);
            let at = gf.len() - 1 - grouped_place(j);
            assert(g[at] == gf[at]);
        }
    }
}

#[verifier::spinoff_prover]
#[verifier::rlimit(40)]
proof fn lemma_group_commas(digits: Seq<char>, k: int)
    requires
        digits.len() > 0,
        !digits.contains(','),
        0 <= k < grouped(digits).len(),
    ensures
        grouped(digits)[grouped(digits).len() - 1 - k] == ',' <==> k % 4 == 3,
    decreases digits.len(),
{
    let n = digits.len() as int;
    let g = grouped(digits);
    if n <= 3 {
        assert(digits[n - 1 - k] != ',');
    } else {
        let f = digits.take(n - 3);
        let gf = grouped(f);
        let last = digits.skip(n - 3);
        assert(g == gf + seq![','] + last);
        assert(!f.contains(',')) by {
            if f.contains(',') {
                let i = choose|i: int| 0 <= i < f.len() && f[i] == ',';
                assert(digits[i] == ',');
            }
        }
        if k < 3 {
            assert(g[g.len() - 1 - k] == digits[n - 1 - k]);
        } else if k > 3 {
            lemma_group_commas(f, k - 4);
            assert(g[g.len() - 1 - k] == gf[gf.len() - 1 - (k - 4)]);
            assert((k - 4) % 4 == k % 4);
        }
    }
}

proof fn lemma_group_length(digits: Seq<char>)
    requires
        digits.len() > 0,
    ensures
        grouped(digits).len() == digits.len() + (digits.len() - 1) / 3,
    decreases digits.len(),
{
    if digits.len() > 3 {
        lemma_group_length(digits.take(digits.len() - 3));
    }
}

/// The digits of a number are grouped by threes from the right: every fourth place
/// from the right has a comma and no other, and the other places have the digits in
/// their order.
pub proof fn law_digits_are_grouped_by_threes(digits: Seq<char>, k: int)
    requires
        digits.len() > 0,
        !digits.contains(','),
    ensures
        ({
            let g = grouped(digits);
            &&& g.len() == digits.len() + (digits.len() - 1) / 3
            &&& 0 <= k < g.len() ==> (g[g.len() - 1 - k] == ',' <==> k % 4 == 3)
            &&& 0 <= k < digits.len() ==> grouped_place(k) < g.len() && digits[digits.len() - 1 - k]
                == g[g.len() - 1 - grouped_place(k)]
        }),
{
    lemma_group_length(digits);
    if 0 <= k < grouped(digits).len() {
        lemma_group_commas(digits, k);
    }
    if 0 <= k < digits.len() {
        lemma_group_digits(digits, k);
    }
}

/// At most ten files are remembered, and the one that was opened last comes first.
pub proof fn law_ten_files_are_remembered<P, F: Fn(&P, &P) -> bool>(
    same: F,
    recent: Seq<P>,
    path: P,
    r: Seq<P>,
)
    requires
        recent_after(same, recent, path, r),
        recent.len() <= 9,
    ensures
        r.len() <= 10,
        r[0] == path,
        (forall|i: int| 0 <= i < recent.len() ==> !same.ensures((&#[trigger] recent[i], &path), true))
            ==> r == seq![path] + recent,
{
    crate::session::law_recent_files(same, recent, path, r);
    let rest = choose|rest: Seq<P>| #[trigger]
        crate::session::others(same, recent, path, rest) && r == crate::session::first_files(
            seq![path] + rest,
        );
    if forall|i: int| 0 <= i < recent.len() ==> !same.ensures((&#[trigger] recent[i], &path), true) {
        lemma_all_others(same, recent, path, rest);
    }
}

proof fn lemma_all_others<P, F: Fn(&P, &P) -> bool>(same: F, files: Seq<P>, path: P, out: Seq<P>)
    requires
        crate::session::others(same, files, path, out),
        forall|i: int| 0 <= i < files.len() ==> !same.ensures((&#[trigger] files[i], &path), true),
    ensures
        out == files,
    decreases files.len(),
{
    if files.len() == 0 {
        assert(out =~= files);
    } else {
        assert(files.last() == files[files.len() - 1]);
        assert(!same.ensures((&files[files.len() - 1], &path), true));
        let f = files.drop_last();
        assert forall|i: int| 0 <= i < f.len() implies !same.ensures((&#[trigger] f[i], &path), true) by {
            assert(f[i] == files[i]);
        }
        lemma_all_others(same, f, path, out.drop_last());
        assert(out =~= out.drop_last().push(out.last()));
        assert(files =~= f.push(files.last()));
    }
}

// ---------------------------------------------------------------------------
// Times and escapes
// ---------------------------------------------------------------------------

/// A time is read in the form of RFC 3339 or else, as one without a zone, with a
/// "T" or a blank between the day and the clock and with or without a fraction.
pub proof fn law_times_are_read_in_five_forms(s: Seq<char>)
    ensures
        ({
            let t = naive_instant(s, "%Y-%m-%dT%H:%M:%S%.f"@);
            let u = naive_instant(s, "%Y-%m-%dT%H:%M:%S"@);
            let v = naive_instant(s, "%Y-%m-%d %H:%M:%S%.f"@);
            let w = naive_instant(s, "%Y-%m-%d %H:%M:%S"@);
            &&& rfc3339_instant(s) is Ok ==> instant_of(s) == Some(
                Timestamp { secs: rfc3339_instant(s)->Ok_0.0, nanos: rfc3339_instant(s)->Ok_0.1 },
            )
            &&& instant_of(s) is Some <==> rfc3339_instant(s) is Ok || t is Some || u is Some
                || v is Some || w is Some
            &&& rfc3339_instant(s) is Err ==> (instant_of(s) matches Some(at) ==> {
                let read = Some((at.secs, at.nanos));
                t == read || u == read || v == read || w == read
            })
        }),
{
}

proof fn lemma_plain_before(x: Seq<char>, y: Seq<char>)
    requires
        !x.contains('\\'),
    ensures
        repaired(x + y) == x + repaired(y),
    decreases x.len(),
{
    if x.len() == 0 {
        assert(x + y =~= y);
        assert(x + repaired(y) =~= repaired(y));
    } else {
        let r = x.skip(1);
        assert(!r.contains('\\')) by {
            if r.contains('\\') {
                let i = choose|i: int| 0 <= i < r.len() && r[i] == '\\';
                assert(x[i + 1] == '\\');
            }
        }
        lemma_plain_before(r, y);
        assert(x[0] != '\\');
        assert((x + y)[0] == x[0]);
        assert((x + y).skip(1) =~= r + y);
        assert(repaired(x + y) =~= x + repaired(y));
    }
}

/// Behind plain text, a backslash before a quote, a backslash or a slash is kept,
/// as is one before a "u" and four hexadecimal digits; any other is doubled, one at
/// the end too.
pub proof fn law_backslashes_are_kept_or_doubled(x: Seq<char>, c: char, y: Seq<char>)
    requires
        !x.contains('\\'),
    ensures
        c == '"' || c == '\\' || c == '/' ==> repaired(x + seq!['\\', c] + y) == x + seq!['\\', c]
            + repaired(y),
        c != '"' && c != '\\' && c != '/' && c != 'u' ==> repaired(x + seq!['\\', c] + y) == x
            + seq!['\\', '\\', c] + repaired(y),
        four_digits_at(y, 0) ==> repaired(x + seq!['\\', 'u'] + y) == x + seq!['\\', 'u'] + y.take(4)
            + repaired(y.skip(4)),
        !four_digits_at(y, 0) ==> repaired(x + seq!['\\', 'u'] + y) == x + seq!['\\', '\\', 'u']
            + repaired(y),
        repaired(x + seq!['\\']) == x + seq!['\\', '\\'],
{
    let a = seq!['\\', c] + y;
    let b = seq!['\\', 'u'] + y;
    let e = seq!['\\'];
    assert(x + seq!['\\', c] + y =~= x + a);
    assert(x + seq!['\\', 'u'] + y =~= x + b);
    lemma_plain_before(x, a);
    lemma_plain_before(x, b);
    lemma_plain_before(x, e);
    assert(a[0] == '\\' && a[1] == c);
    assert(a.skip(2) =~= y);
    assert(a.skip(1) =~= seq![c] + y);
    assert((seq![c] + y).skip(1) =~= y);
    assert(b[0] == '\\' && b[1] == 'u');
    assert(b.skip(1) =~= seq!['u'] + y);
    assert((seq!['u'] + y).skip(1) =~= y);
    assert(e.skip(1) =~= Seq::<char>::empty());
    reveal_with_fuel(repaired, 2);
    assert(four_digits_at(y, 0) <==> four_digits_at(b, 2)) by {
        assert(forall|i: int| 0 <= i < y.len() ==> b[i + 2] == #[trigger] y[i]);
    }
    if c == '"' || c == '\\' || c == '/' {
        assert(repaired(x + a) =~= x + seq!['\\', c] + repaired(y));
    }
    if c != '"' && c != '\\' && c != '/' && c != 'u' {
        assert(repaired(a) == seq!['\\', '\\'] + repaired(seq![c] + y));
        assert(repaired(seq![c] + y) == seq![c] + repaired(y));
        assert(repaired(x + a) =~= x + seq!['\\', '\\', c] + repaired(y));
    }
    if four_digits_at(y, 0) {
        assert(b.skip(6) =~= y.skip(4));
        assert(repaired(b) =~= seq!['\\', 'u'] + y.take(4) + repaired(y.skip(4)));
        assert(repaired(x + b) =~= x + seq!['\\', 'u'] + y.take(4) + repaired(y.skip(4)));
    } else {
        assert(repaired(b) == seq!['\\', '\\'] + repaired(seq!['u'] + y));
        assert(repaired(seq!['u'] + y) == seq!['u'] + repaired(y));
        assert(repaired(x + b) =~= x + seq!['\\', '\\', 'u'] + repaired(y));
    }
    assert(repaired(e) =~= seq!['\\', '\\']);
    assert(repaired(x + e) =~= x + seq!['\\', '\\']);
}

} // verus!
