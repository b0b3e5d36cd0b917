//! Laws of exported logs: how rows, lines and payloads give their fields.

use crate::evtx::bytes::word64;
use crate::export::{
    cell_of, column_of, columns_of, data_fields, format_of, lenient_outcome, line_text,
    payload_fields, row_record, summed, DataField, LogFormat, Outcome, PayloadWrapper,
};
use crate::laws::matching::lemma_occurs;
use crate::laws::texts::law_decimal_reads_back;
use crate::numbers::decimal;
use crate::text::{is_white, occurs_in, trim_front_of, trim_of};
use vstd::prelude::*;

verus! {

// ---------------------------------------------------------------------------
// Payloads
// ---------------------------------------------------------------------------

/// The fields of a payload are its named values: each text stands under its name,
/// the last of one name counting, and there are no others. Without event data there
/// are none.
pub proof fn law_payloads_give_their_named_values(d: Seq<DataField>, i: int, name: Seq<char>)
    ensures
        0 <= i < d.len() && d[i].text is Some && (forall|j: int|
            i < j < d.len() && (#[trigger] d[j]).name@ == d[i].name@ ==> d[j].text is None) ==> {
            &&& data_fields(d).contains_key(d[i].name@)
            &&& data_fields(d)[d[i].name@] == d[i].text->Some_0@
        },
        data_fields(d).contains_key(name) ==> exists|j: int|
            0 <= j < d.len() && (#[trigger] d[j]).name@ == name && d[j].text is Some,
    decreases d.len(),
{
    if d.len() > 0 {
        let f = d.drop_last();
        law_payloads_give_their_named_values(f, i, name);
        assert(d[d.len() - 1] == d.last());
        if 0 <= i < d.len() && d[i].text is Some && (forall|j: int|
            i < j < d.len() && (#[trigger] d[j]).name@ == d[i].name@ ==> d[j].text is None) {
            if i < f.len() {
                assert(f[i] == d[i]);
                assert forall|j: int|
                    i < j < f.len() && (#[trigger] f[j]).name@ == f[i].name@ implies f[j].text is None by {
                    assert(f[j] == d[j]);
                }
                assert(d[d.len() - 1].name@ == d[i].name@ ==> d[d.len() - 1].text is None);
            }
        }
        if data_fields(d).contains_key(name) {
            if data_fields(f).contains_key(name) {
                let j = choose|j: int|
                    0 <= j < f.len() && (#[trigger] f[j]).name@ == name && f[j].text is Some;
                assert(d[j] == f[j]);
            } else {
                assert(d[d.len() - 1].name@ == name);
            }
        }
    }
}

/// The fields of a payload are those of its event data.
pub proof fn law_fields_come_from_the_event_data(w: PayloadWrapper, name: Seq<char>)
    ensures
        payload_fields(w).contains_key(name) ==> w.event_data is Some && exists|j: int|
            0 <= j < w.event_data->Some_0.data@.len() && (
            #[trigger] w.event_data->Some_0.data@[j]).name@ == name
                && w.event_data->Some_0.data@[j].text is Some,
        w.event_data matches Some(e) ==> payload_fields(w) == data_fields(e.data@),
{
    if let Some(e) = w.event_data {
        law_payloads_give_their_named_values(e.data@, 0, name);
    }
}

/// A text that reads at the first attempt gives what it reads as, and one that does
/// not the error of the first attempt or what it reads as once it is repaired.
pub proof fn law_readable_texts_are_read_as_they_are<T, E, F: Fn(&str) -> Result<T, E>>(
    read: F,
    text: Seq<char>,
    r: Result<T, E>,
)
    requires
        lenient_outcome(read, text, r),
    ensures
        (forall|s: &str, e: E| s@ == text ==> !#[trigger] read.ensures((s,), Err(e))) ==> r is Ok
            && exists|s: &str| s@ == text && #[trigger] read.ensures((s,), r),
        r is Err ==> exists|s: &str| s@ == text && #[trigger] read.ensures((s,), r),
        (forall|s: &str, v: T| s@ == text ==> !#[trigger] read.ensures((s,), Ok(v))) && r is Ok
            ==> exists|t: &str|
            t@ == crate::lenient::repaired(text) && #[trigger] read.ensures((t,), r),
{
}

// ---------------------------------------------------------------------------
// Lines
// ---------------------------------------------------------------------------

/// Blank lines say nothing, other lines are read as they stand, and a byte order
/// mark is taken off the first line alone.
pub proof fn law_lines_are_read_as_they_stand(line: Seq<char>, number: u64)
    ensures
        number != 1 && trim_of(line).len() > 0 ==> line_text(line, number) == Some(line),
        number != 1 && trim_of(line).len() == 0 ==> line_text(line, number) is None,
        line.len() > 0 && line[0] != '\u{FEFF}' && trim_of(line).len() > 0 ==> line_text(
            line,
            number,
        ) == Some(line),
        line.len() > 0 && line[0] != '\u{FEFF}' && trim_of(line).len() > 0 ==> line_text(
            seq!['\u{FEFF}'] + line,
            1,
        ) == Some(line),
{
    let marked = seq!['\u{FEFF}'] + line;
    assert(marked.skip(1) =~= line);
    assert(marked[0] == '\u{FEFF}');
    if line.len() > 0 && line[0] != '\u{FEFF}' {
        assert(trim_front_of(line, '\u{FEFF}') == line);
        assert(trim_front_of(marked, '\u{FEFF}') == trim_front_of(line, '\u{FEFF}'));
    }
}

/// The format of a log: native where it has the signature, else lines of JSON where
/// its first line begins with a brace, and CSV where that line names the record
/// number among values separated by commas.
pub proof fn law_formats_are_told_by_the_start(
    head: Seq<u8>,
    line: Seq<char>,
    x: Seq<char>,
    y: Seq<char>,
)
    requires
        line.len() > 0 ==> line[0] != '\u{FEFF}' && !is_white(line[0]) && !is_white(line.last()),
    ensures
        head.len() == 8 && word64(head, 0) == 0x00656C6946666C45 ==> format_of(head, line)
            == LogFormat::Evtx,
        head.len() != 8 || word64(head, 0) != 0x00656C6946666C45 ==> {
            &&& line.len() > 0 && line[0] == '{' ==> format_of(head, line) == LogFormat::Ndjson
            &&& line.len() > 0 && line[0] != '{' && line == x + "RecordNumber"@ + y
                && line.contains(',') ==> format_of(head, line) == LogFormat::Csv
            &&& !line.contains(',') ==> format_of(head, line) == LogFormat::Ndjson
            &&& format_of(head, line) == LogFormat::Csv ==> occurs_in(line, "RecordNumber"@)
        },
{
    assert(trim_front_of(line, '\u{FEFF}') == line);
    crate::laws::texts::law_trimmed_texts_stay(line);
    lemma_occurs(line, "RecordNumber"@);
}

/// What comes of records read one after the other is what comes of each, in their
/// order.
pub proof fn law_outcomes_add_up(a: Seq<Outcome>, b: Seq<Outcome>, one: Outcome)
    ensures
        summed(a + b) == (summed(a).0 + summed(b).0, summed(a).1 + summed(b).1),
        summed(seq![one]) == one,
    decreases b.len(),
{
    if b.len() == 0 {
        assert(a + b =~= a);
        assert(summed(a).0 + summed(b).0 =~= summed(a).0);
        assert(summed(a).1 + summed(b).1 =~= summed(a).1);
    } else {
        law_outcomes_add_up(a, b.drop_last(), one);
        assert((a + b).drop_last() =~= a + b.drop_last());
        assert((a + b).last() == b.last());
        assert(summed(a + b).0 =~= summed(a).0 + summed(b).0);
        assert(summed(a + b).1 =~= summed(a).1 + summed(b).1);
    }
    let s = seq![one];
    let none = Seq::<Outcome>::empty();
    assert(s.drop_last() =~= none);
    assert(summed(none).0.len() == 0 && summed(none).1.len() == 0);
    assert(s.last() == one);
    assert(summed(s).0 =~= one.0);
    assert(summed(s).1 =~= one.1);
}

// ---------------------------------------------------------------------------
// Rows
// ---------------------------------------------------------------------------

/// Whether a text stands in a row under a header: in the column of that header, the
/// last one of that name.
pub open spec fn stands_under(
    headers: Seq<Seq<char>>,
    row: Seq<Seq<char>>,
    name: Seq<char>,
    text: Seq<char>,
) -> bool {
    exists|i: int|
        {
            &&& 0 <= i < headers.len()
            &&& i < row.len()
            &&& #[trigger] row[i] == text
            &&& headers[i] == name
            &&& forall|j: int| i < j < headers.len() ==> #[trigger] headers[j] != name
        }
}

proof fn lemma_column(headers: Seq<Seq<char>>, name: Seq<char>, i: int)
    requires
        0 <= i < headers.len(),
        headers[i] == name,
        forall|j: int| i < j < headers.len() ==> #[trigger] headers[j] != name,
        headers.len() <= usize::MAX,
    ensures
        column_of(headers, name) == Some(i as usize),
    decreases headers.len(),
{
    let f = headers.drop_last();
    assert(headers[headers.len() - 1] == headers.last());
    if i < f.len() {
        assert(f[i] == name);
        assert forall|j: int| i < j < f.len() implies #[trigger] f[j] != name by {
            assert(f[j] == headers[j]);
        }
        assert(headers[headers.len() - 1] != name);
        lemma_column(f, name, i);
    }
}

proof fn lemma_cell(headers: Seq<Seq<char>>, row: Seq<Seq<char>>, name: Seq<char>, text: Seq<char>)
    requires
        stands_under(headers, row, name, text),
        headers.len() <= usize::MAX,
    ensures
        text.len() > 0 ==> cell_of(row, column_of(headers, name)) == Some(text),
        text.len() == 0 ==> cell_of(row, column_of(headers, name)) is None,
{
    let i = choose|i: int|
        {
            &&& 0 <= i < headers.len()
            &&& i < row.len()
            &&& #[trigger] row[i] == text
            &&& headers[i] == name
            &&& forall|j: int| i < j < headers.len() ==> #[trigger] headers[j] != name
        };
    lemma_column(headers, name, i);
}

proof fn lemma_no_column(headers: Seq<Seq<char>>, name: Seq<char>)
    requires
        !headers.contains(name),
    ensures
        column_of(headers, name) is None,
    decreases headers.len(),
{
    if headers.len() > 0 {
        let f = headers.drop_last();
        assert(headers[headers.len() - 1] == headers.last());
        if f.contains(name) {
            let i = choose|i: int| 0 <= i < f.len() && f[i] == name;
            assert(headers[i] == name);
        }
        lemma_no_column(f, name);
    }
}

/// A row gives a record where it has an event number, a time and a payload under
/// their headers, and the record holds them. One that lacks any of them gives none.
pub proof fn law_rows_give_what_stands_under_the_headers(
    headers: Seq<Seq<char>>,
    row: Seq<Seq<char>>,
    number: u64,
    n: u16,
    time: Seq<char>,
    payload: Seq<char>,
)
    requires
        headers.len() <= usize::MAX,
        stands_under(headers, row, "EventId"@, decimal(n as nat)),
        stands_under(headers, row, "TimeCreated"@, time),
        stands_under(headers, row, "Payload"@, payload),
    ensures
        ({
            let r = row_record(columns_of(headers), row, number);
            &&& time.len() > 0 && payload.len() > 0 ==> r is Ok && r->Ok_0.event_id == n
                && r->Ok_0.time_created == time && r->Ok_0.payload == payload
            &&& time.len() == 0 || payload.len() == 0 ==> r is Err
        }),
{
    law_decimal_reads_back(n as nat, 0xffff);
    lemma_cell(headers, row, "EventId"@, decimal(n as nat));
    lemma_cell(headers, row, "TimeCreated"@, time);
    lemma_cell(headers, row, "Payload"@, payload);
    assert(decimal(n as nat).len() > 0);
}

/// The other columns of a row are taken into its record from under their own
/// headers, and are missing where they are empty or have no header. A record
/// number that is missing is that of the row.
pub proof fn law_rows_give_the_other_columns(
    headers: Seq<Seq<char>>,
    row: Seq<Seq<char>>,
    number: u64,
    text: Seq<char>,
    m: u64,
)
    requires
        headers.len() <= usize::MAX,
        row_record(columns_of(headers), row, number) is Ok,
        text.len() > 0,
    ensures
        ({
            let r = row_record(columns_of(headers), row, number)->Ok_0;
            &&& stands_under(headers, row, "Computer"@, text) ==> r.computer == text
            &&& stands_under(headers, row, "UserName"@, text) ==> r.user_name == Some(text)
            &&& stands_under(headers, row, "MapDescription"@, text) ==> r.map_description == Some(
                text,
            )
            &&& stands_under(headers, row, "ExecutableInfo"@, text) ==> r.executable_info == Some(
                text,
            )
            &&& stands_under(headers, row, "PayloadData1"@, text) ==> r.payload_data1 == Some(text)
            &&& stands_under(headers, row, "PayloadData2"@, text) ==> r.payload_data2 == Some(text)
            &&& stands_under(headers, row, "PayloadData3"@, text) ==> r.payload_data3 == Some(text)
            &&& stands_under(headers, row, "PayloadData4"@, text) ==> r.payload_data4 == Some(text)
            &&& stands_under(headers, row, "PayloadData5"@, text) ==> r.payload_data5 == Some(text)
            &&& stands_under(headers, row, "PayloadData6"@, text) ==> r.payload_data6 == Some(text)
            &&& stands_under(headers, row, "RecordNumber"@, decimal(m as nat)) ==> r.record_number
                == m
            &&& !headers.contains("RecordNumber"@) ==> r.record_number == number
            &&& !headers.contains("Computer"@) ==> r.computer.len() == 0
            &&& !headers.contains("UserName"@) ==> r.user_name is None
            &&& headers.contains("EventId"@)
            &&& headers.contains("TimeCreated"@)
            &&& headers.contains("Payload"@)
        }),
{
    lemma_given(headers, row, "Computer"@, text);
    lemma_given(headers, row, "UserName"@, text);
    lemma_given(headers, row, "MapDescription"@, text);
    lemma_given(headers, row, "ExecutableInfo"@, text);
    lemma_given(headers, row, "PayloadData1"@, text);
    lemma_given(headers, row, "PayloadData2"@, text);
    lemma_given(headers, row, "PayloadData3"@, text);
    lemma_given(headers, row, "PayloadData4"@, text);
    lemma_given(headers, row, "PayloadData5"@, text);
    lemma_given(headers, row, "PayloadData6"@, text);
    law_decimal_reads_back(m as nat, 0xffff_ffff_ffff_ffff);
    assert(decimal(m as nat).len() > 0);
    lemma_given(headers, row, "RecordNumber"@, decimal(m as nat));
    lemma_given(headers, row, "EventId"@, text);
    lemma_given(headers, row, "TimeCreated"@, text);
    lemma_given(headers, row, "Payload"@, text);
}

proof fn lemma_given(headers: Seq<Seq<char>>, row: Seq<Seq<char>>, name: Seq<char>, text: Seq<char>)
    requires
        headers.len() <= usize::MAX,
    ensures
        text.len() > 0 && stands_under(headers, row, name, text) ==> cell_of(
            row,
            column_of(headers, name),
        ) == Some(text),
        !headers.contains(name) ==> cell_of(row, column_of(headers, name)) is None,
{
    if stands_under(headers, row, name, text) {
        lemma_cell(headers, row, name, text);
    }
    if !headers.contains(name) {
        lemma_no_column(headers, name);
    }
}

} // verus!
