//! Laws of what comes of fields, lines and rows: values that are compared, and
//! complaints with their numbers.

use crate::event::EventText;
use crate::export::{
    cell_of, columns_of, line_outcome, lines_outcome, payload_fields, payload_result,
    record_outcome, row_record, summed, table_outcome, table_row_outcome, Outcome, PayloadWrapper,
    RowText,
};
use crate::numbers::unsigned_of;
use crate::parser::{event_complaints, event_of, RawEvtxRecord, RecordText};
use crate::sigma::matcher::{field_matches, field_value, value_matches};
use crate::sigma::rule::{MatchText, Modifier};
use crate::types::Complaint;
use vstd::prelude::*;

verus! {

// ---------------------------------------------------------------------------
// Values
// ---------------------------------------------------------------------------

/// A field that is compared with nothing asks for nothing; one that an event does
/// not have is like no value. With "all" every value has to fit, otherwise one.
pub proof fn law_values_are_alternatives_unless_all(
    m: MatchText,
    more: Seq<char>,
    e: EventText,
    v: Seq<char>,
)
    ensures
        m.values.len() == 0 ==> field_matches(m, e),
        m.values.len() > 0 && field_value(e, m.field) is None ==> !field_matches(m, e),
        m.values == seq![more] && field_value(e, m.field) == Some(v) ==> field_matches(m, e)
            == value_matches(m.modifiers, v, more),
        m.values.len() > 0 && field_value(e, m.field) == Some(v) ==> {
            let wider = MatchText { values: m.values.push(more), ..m };
            &&& m.modifiers.contains(Modifier::All) ==> field_matches(wider, e) == (field_matches(
                m,
                e,
            ) && value_matches(m.modifiers, v, more))
            &&& !m.modifiers.contains(Modifier::All) ==> field_matches(wider, e) == (field_matches(
                m,
                e,
            ) || value_matches(m.modifiers, v, more))
        },
{
    let mods = m.modifiers;
    if m.values == seq![more] && field_value(e, m.field) == Some(v) {
        assert(m.values[0] == more);
    }
    if m.values.len() > 0 && field_value(e, m.field) == Some(v) {
        let wider = MatchText { values: m.values.push(more), ..m };
        let n = m.values.len() as int;
        assert(wider.values[n] == more);
        assert(forall|i: int| 0 <= i < n ==> wider.values[i] == #[trigger] m.values[i]);
        if mods.contains(Modifier::All) {
            if field_matches(wider, e) {
                assert forall|i: int| 0 <= i < n implies value_matches(
                    mods,
                    v,
                    #[trigger] m.values[i],
                ) by {
                    assert(value_matches(mods, v, wider.values[i]));
                }
                assert(value_matches(mods, v, wider.values[n]));
            }
        } else {
            if field_matches(wider, e) {
                let i = choose|i: int|
                    0 <= i < wider.values.len() && value_matches(mods, v, #[trigger] wider.values[i]);
                if i < n {
                    assert(value_matches(mods, v, m.values[i]));
                }
            }
            if field_matches(m, e) {
                let i = choose|i: int|
                    0 <= i < n && value_matches(mods, v, #[trigger] m.values[i]);
                assert(value_matches(mods, v, wider.values[i]));
            }
            if value_matches(mods, v, more) {
                assert(value_matches(mods, v, wider.values[n]));
            }
        }
    }
}

// ---------------------------------------------------------------------------
// Lines and rows
// ---------------------------------------------------------------------------

/// A payload that cannot be read gives no event and one complaint, with the number
/// of its line; one that can gives the event of its fields, if their time can be
/// read, and the complaints about them, with that number.
pub proof fn law_unreadable_payloads_are_complained_of(
    raw: RecordText,
    p: Result<PayloadWrapper, serde_json::Error>,
    number: u64,
)
    ensures
        p is Err ==> {
            &&& payload_result(raw, p, number).0.len() == 0
            &&& payload_result(raw, p, number).1 == seq![
                Complaint::PayloadDeserialize { line: number, source: p->Err_0 },
            ]
        },
        p is Ok ==> {
            let f = payload_fields(p->Ok_0);
            &&& event_of(raw, f) is Some ==> payload_result(raw, p, number).0 == seq![
                event_of(raw, f)->Some_0,
            ]
            &&& event_of(raw, f) is None ==> payload_result(raw, p, number).0.len() == 0
            &&& payload_result(raw, p, number).1 == event_complaints(raw, f, number)
        },
{
}

/// A line that is no record gives no event and one complaint, with its number.
pub proof fn law_unreadable_records_are_complained_of<
    G: Fn(&str) -> Result<PayloadWrapper, serde_json::Error>,
>(read: G, source: serde_json::Error, number: u64, out: Outcome)
    requires
        record_outcome(read, Err::<RawEvtxRecord, serde_json::Error>(source), number, out),
    ensures
        out.0.len() == 0,
        out.1 == seq![Complaint::TopLevelDeserialize { line: number, source }],
{
}

/// Lines are numbered from one on, and what comes of them is what comes of each, in
/// their order: a line more adds what comes of it, with the next number.
pub proof fn law_lines_are_numbered_from_one<
    F: Fn(&str) -> Result<RawEvtxRecord, serde_json::Error>,
    G: Fn(&str) -> Result<PayloadWrapper, serde_json::Error>,
>(read_record: F, read_payload: G, lines: Seq<Seq<char>>, line: Seq<char>, out: Outcome)
    requires
        lines_outcome(read_record, read_payload, lines.push(line), out),
        lines.len() < 0xffff_ffff_ffff_ffff,
    ensures
        exists|front: Outcome, last: Outcome|
            {
                &&& #[trigger] lines_outcome(read_record, read_payload, lines, front)
                &&& #[trigger] line_outcome(
                    read_record,
                    read_payload,
                    line,
                    (lines.len() + 1) as u64,
                    last,
                )
                &&& out.0 == front.0 + last.0
                &&& out.1 == front.1 + last.1
            },
        lines.len() == 0 ==> line_outcome(read_record, read_payload, line, 1, out),
{
    let all = lines.push(line);
    let outs = choose|outs: Seq<Outcome>|
        outs.len() == all.len() && out == #[trigger] summed(outs) && forall|i: int|
            0 <= i < outs.len() ==> line_outcome(
                read_record,
                read_payload,
                all[i],
                (i + 1) as u64,
                #[trigger] outs[i],
            );
    let n = lines.len() as int;
    let f = outs.drop_last();
    assert(line_outcome(read_record, read_payload, all[n], (n + 1) as u64, outs[n]));
    assert(all[n] == line);
    assert forall|i: int| 0 <= i < f.len() implies line_outcome(
        read_record,
        read_payload,
        lines[i],
        (i + 1) as u64,
        #[trigger] f[i],
    ) by {
        assert(f[i] == outs[i]);
        assert(all[i] == lines[i]);
    }
    assert(lines_outcome(read_record, read_payload, lines, summed(f)));
    assert(outs.last() == outs[n]);
    if n == 0 {
        assert(f =~= Seq::<Outcome>::empty());
        assert(summed(f).0 + outs[n].0 =~= outs[n].0);
        assert(summed(f).1 + outs[n].1 =~= outs[n].1);
        assert(out == outs[n]);
    }
}

/// The same of the rows of a table, whose headers name its columns.
pub proof fn law_rows_are_numbered_from_one<
    G: Fn(&str) -> Result<PayloadWrapper, serde_json::Error>,
>(read_payload: G, headers: Seq<Seq<char>>, rows: Seq<RowText>, row: RowText, out: Outcome)
    requires
        table_outcome(read_payload, (headers, rows.push(row)), out),
        rows.len() < 0xffff_ffff_ffff_ffff,
    ensures
        exists|front: Outcome, last: Outcome|
            {
                &&& #[trigger] table_outcome(read_payload, (headers, rows), front)
                &&& #[trigger] table_row_outcome(
                    read_payload,
                    columns_of(headers),
                    row,
                    (rows.len() + 1) as u64,
                    last,
                )
                &&& out.0 == front.0 + last.0
                &&& out.1 == front.1 + last.1
            },
        rows.len() == 0 && row is Err ==> out.0.len() == 0 && out.1 == seq![
            Complaint::CsvRowError { line: 1, message: row->Err_0 },
        ],
{
    let all = rows.push(row);
    let c = columns_of(headers);
    let outs = choose|outs: Seq<Outcome>|
        outs.len() == all.len() && out == #[trigger] summed(outs) && forall|i: int|
            0 <= i < outs.len() ==> table_row_outcome(
                read_payload,
                c,
                all[i],
                (i + 1) as u64,
                #[trigger] outs[i],
            );
    let n = rows.len() as int;
    let f = outs.drop_last();
    assert(table_row_outcome(read_payload, c, all[n], (n + 1) as u64, outs[n]));
    assert(all[n] == row);
    assert forall|i: int| 0 <= i < f.len() implies table_row_outcome(
        read_payload,
        c,
        rows[i],
        (i + 1) as u64,
        #[trigger] f[i],
    ) by {
        assert(f[i] == outs[i]);
        assert(all[i] == rows[i]);
    }
    let table = (headers, rows);
    assert(table_outcome(read_payload, table, summed(f)));
    assert(outs.last() == outs[n]);
    if n == 0 {
        assert(f =~= Seq::<Outcome>::empty());
        assert(summed(f).0 + outs[n].0 =~= outs[n].0);
        assert(summed(f).1 + outs[n].1 =~= outs[n].1);
        assert(out == outs[n]);
    }
}

/// A record whose number is missing or unreadable has the number of its row. A row
/// that lacks its event number, its time or its payload is no record, and the
/// message names the first of them that is missing.
pub proof fn law_rows_without_numbers_have_their_own(
    headers: Seq<Seq<char>>,
    row: Seq<Seq<char>>,
    number: u64,
)
    ensures
        ({
            let c = columns_of(headers);
            let r = row_record(c, row, number);
            let id = cell_of(row, c.event_id);
            let at = cell_of(row, c.record_number);
            let has_id = id is Some && unsigned_of(id->Some_0, 0xffff) is Some;
            &&& r is Ok <==> has_id && cell_of(row, c.time_created) is Some && cell_of(
                row,
                c.payload,
            ) is Some
            &&& r is Ok && (at is None || unsigned_of(at->Some_0, 0xffff_ffff_ffff_ffff) is None)
                ==> r->Ok_0.record_number == number
            &&& !has_id ==> r == Err::<RecordText, Seq<char>>("EventId is missing or no number"@)
            &&& has_id && cell_of(row, c.time_created) is None ==> r == Err::<
                RecordText,
                Seq<char>,
            >("TimeCreated is missing"@)
            &&& has_id && cell_of(row, c.time_created) is Some && cell_of(row, c.payload) is None
                ==> r == Err::<RecordText, Seq<char>>("Payload is missing"@)
        }),
{
}

} // verus!
