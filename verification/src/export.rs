//! Logs exported as text: one JSON record per line, or CSV.

use crate::clock::instant_of;
use crate::event::{EventText, SysmonEvent};
use crate::evtx::bytes::{u64_at, word64};
use crate::evtx::chunk::{all_full, flat, in_batches, lemma_events_join};
use crate::evtx::FILE_SIG;
use crate::interner::SharedRodeo;
use crate::lenient::{fix_unescaped_backslashes, repaired};
use crate::numbers::{parse_unsigned, unsigned_of};
use crate::parser::{
    add_record, all_held, at_most_one, event_complaints, event_of, events_text, law_records_agree,
    take_full, RawEvtxRecord, RecordText, BATCH_SIZE,
};
use crate::text::{
    chars_of, contains, has_char, occurs_in, opt_text, same_text, texts, trim, trim_front, trim_front_of,
    trim_of,
};
use crate::textmap::{fields_of, FieldMap, TextMap};
use crate::types::{complaints, only_added, Complaint, ParseError};
use vstd::prelude::*;

verus! {

// ---------------------------------------------------------------------------
// Formats
// ---------------------------------------------------------------------------

/// The formats of log files.
#[derive(Debug, Clone, Copy, PartialEq, Eq, Structural)]
pub enum LogFormat {
    /// Native event log.
    Evtx,
    /// One JSON record per line.
    Ndjson,
    /// Comma-separated values with a header row.
    Csv,
}

/// The format of a file: by the signature in its first eight bytes, else by its
/// first line. A line that tells nothing is taken for JSON.
pub open spec fn format_of(head: Seq<u8>, first_line: Seq<char>) -> LogFormat {
    let t = trim_of(trim_front_of(first_line, '\u{FEFF}'));
    if head.len() == 8 && word64(head, 0) == FILE_SIG {
        LogFormat::Evtx
    } else if t.len() > 0 && t[0] == '{' {
        LogFormat::Ndjson
    } else if occurs_in(t, "RecordNumber"@) && t.contains(',') {
        LogFormat::Csv
    } else {
        LogFormat::Ndjson
    }
}

/// Detects the format of a file from its first bytes and its first line.
pub fn detect_format(head: &[u8], first_line: &str) -> (f: LogFormat)
    ensures
        f == format_of(head@, first_line@),
{
    if head.len() == 8 && u64_at(head, 0) == FILE_SIG {
        return LogFormat::Evtx;
    }
    let line = trim_front(first_line, '\u{FEFF}');
    let t = trim(line.as_str());
    let v = chars_of(t.as_str());
    if v.len() > 0 && v[0] == '{' {
        return LogFormat::Ndjson;
    }
    if contains(t.as_str(), "RecordNumber") && has_char(v.as_slice(), ',') {
        LogFormat::Csv
    } else {
        LogFormat::Ndjson
    }
}

// ---------------------------------------------------------------------------
// Payloads
// ---------------------------------------------------------------------------

/// A named value of a payload.
pub struct DataField {
    pub name: String,
    pub text: Option<String>,
}

/// The event data of a payload.
pub struct EventDataWrapper {
    pub data: Vec<DataField>,
}

/// The payload of a record.
pub struct PayloadWrapper {
    pub event_data: Option<EventDataWrapper>,
}

/// The fields that named values make: those without text are left out, and of
/// several with one name the last counts.
pub open spec fn data_fields(d: Seq<DataField>) -> Map<Seq<char>, Seq<char>>
    decreases d.len(),
{
    if d.len() == 0 {
        Map::empty()
    } else {
        let front = data_fields(d.drop_last());
        match d.last().text {
            Some(t) => front.insert(d.last().name@, t@),
            None => front,
        }
    }
}

/// The fields of a payload.
pub open spec fn payload_fields(w: PayloadWrapper) -> Map<Seq<char>, Seq<char>> {
    match w.event_data {
        Some(e) => data_fields(e.data@),
        None => Map::empty(),
    }
}

/// Collects the fields of a payload.
pub fn collect_fields(wrapper: &PayloadWrapper) -> (m: FieldMap)
    ensures
        fields_of(m) == payload_fields(*wrapper),
{
    let mut m: FieldMap = TextMap::new();
    assert(fields_of(m) =~= Map::empty());
    match &wrapper.event_data {
        None => {},
        Some(e) => {
            let ghost d = e.data@;
            let mut i: usize = 0;
            assert(d.take(0) =~= Seq::empty());
            while i < e.data.len()
                invariant
                    i <= e.data.len(),
                    d == e.data@,
                    fields_of(m) == data_fields(d.take(i as int)),
                decreases e.data.len() - i,
            {
                assert(d.take(i + 1).drop_last() =~= d.take(i as int));
                let ghost before = fields_of(m);
                match &e.data[i].text {
                    Some(t) => {
                        m.insert(e.data[i].name.clone(), t.clone());
                        assert(fields_of(m) =~= before.insert(e.data@[i as int].name@, t@));
                    },
                    None => {},
                }
                i += 1;
            }
            assert(d.take(d.len() as int) =~= d);
        },
    }
    m
}

/// Whether `r` can come out of reading a text with `read`: what the text itself
/// reads as, or else what it reads as after the repair of its backslashes, or
/// else the error of the first attempt.
pub open spec fn lenient_outcome<T, E, F: Fn(&str) -> Result<T, E>>(
    read: F,
    text: Seq<char>,
    r: Result<T, E>,
) -> bool {
    match r {
        Ok(v) => {
            ||| exists|s: &str| s@ == text && #[trigger] read.ensures((s,), Ok(v))
            ||| exists|s: &str, e: E, t: &str|
                s@ == text && t@ == repaired(text) && #[trigger] read.ensures((s,), Err(e))
                    && #[trigger] read.ensures((t,), Ok(v))
        },
        Err(e) => exists|s: &str, t: &str, e2: E|
            s@ == text && t@ == repaired(text) && #[trigger] read.ensures((s,), Err(e))
                && #[trigger] read.ensures((t,), Err(e2)),
    }
}

/// Reads a text with `read`, and once more with its backslashes repaired where
/// that fails. If both fail, the error is that of the first attempt.
pub fn read_leniently<T, E, F: Fn(&str) -> Result<T, E>>(text: &str, read: &F) -> (r: Result<T, E>)
    requires
        forall|s: &str| #[trigger] read.requires((s,)),
    ensures
        lenient_outcome(*read, text@, r),
{
    match read(text) {
        Ok(v) => Ok(v),
        Err(first) => {
            let fixed = fix_unescaped_backslashes(text);
            match read(fixed.as_str()) {
                Ok(v) => Ok(v),
                Err(_) => Err(first),
            }
        },
    }
}

/// Reads the fields of a payload, with `read` as the reader of its JSON.
///
/// Some exporters write Windows paths with single backslashes, which is not
/// valid JSON; such payloads are repaired and read again.
pub fn parse_payload<F: Fn(&str) -> Result<PayloadWrapper, serde_json::Error>>(
    payload: &str,
    read: &F,
) -> (r: Result<FieldMap, serde_json::Error>)
    requires
        forall|s: &str| #[trigger] read.requires((s,)),
    ensures
        match r {
            Ok(m) => exists|w: PayloadWrapper| #[trigger]
                lenient_outcome(*read, payload@, Ok(w)) && fields_of(m) == payload_fields(w),
            Err(e) => lenient_outcome(*read, payload@, Err(e)),
        },
{
    match read_leniently(payload, read) {
        Ok(w) => Ok(collect_fields(&w)),
        Err(e) => Err(e),
    }
}

// ---------------------------------------------------------------------------
// Records
// ---------------------------------------------------------------------------

/// The events and complaints that come of something that was read.
pub type Outcome = (Seq<EventText>, Seq<Complaint>);

/// What comes of a record whose payload was read: its event, or the complaint
/// that the payload is not readable.
pub open spec fn payload_result(
    raw: RecordText,
    payload: Result<PayloadWrapper, serde_json::Error>,
    number: u64,
) -> Outcome {
    match payload {
        Ok(w) => (
            at_most_one(event_of(raw, payload_fields(w))),
            event_complaints(raw, payload_fields(w), number),
        ),
        Err(source) => (
            Seq::empty(),
            seq![Complaint::PayloadDeserialize { line: number, source }],
        ),
    }
}

/// Whether `out` can come of a record whose payload is read with `read`.
pub open spec fn payload_outcome<G: Fn(&str) -> Result<PayloadWrapper, serde_json::Error>>(
    read: G,
    raw: RecordText,
    number: u64,
    out: Outcome,
) -> bool {
    exists|p: Result<PayloadWrapper, serde_json::Error>| #[trigger]
        lenient_outcome(read, raw.payload, p) && out == payload_result(raw, p, number)
}

/// Whether `out` can come of the attempt to read a record.
pub open spec fn record_outcome<G: Fn(&str) -> Result<PayloadWrapper, serde_json::Error>>(
    read_payload: G,
    rec: Result<RawEvtxRecord, serde_json::Error>,
    number: u64,
    out: Outcome,
) -> bool {
    match rec {
        Ok(raw) => payload_outcome(read_payload, raw@, number, out),
        Err(source) => out == (
            Seq::<EventText>::empty(),
            seq![Complaint::TopLevelDeserialize { line: number, source }],
        ),
    }
}

/// The text of a line: without a byte order mark at the start of the first line,
/// and none for a blank line.
pub open spec fn line_text(line: Seq<char>, number: u64) -> Option<Seq<char>> {
    let t = if number == 1 {
        trim_front_of(line, '\u{FEFF}')
    } else {
        line
    };
    if trim_of(t).len() == 0 {
        None
    } else {
        Some(t)
    }
}

/// Whether `out` can come of a text that should be a record.
pub open spec fn text_outcome<
    F: Fn(&str) -> Result<RawEvtxRecord, serde_json::Error>,
    G: Fn(&str) -> Result<PayloadWrapper, serde_json::Error>,
>(read_record: F, read_payload: G, text: Seq<char>, number: u64, out: Outcome) -> bool {
    exists|rec: Result<RawEvtxRecord, serde_json::Error>| #[trigger]
        lenient_outcome(read_record, text, rec) && record_outcome(read_payload, rec, number, out)
}

/// Whether `out` can come of a line: nothing from a blank line, a complaint where
/// there is no record on it, and otherwise what the record gives.
pub open spec fn line_outcome<
    F: Fn(&str) -> Result<RawEvtxRecord, serde_json::Error>,
    G: Fn(&str) -> Result<PayloadWrapper, serde_json::Error>,
>(read_record: F, read_payload: G, line: Seq<char>, number: u64, out: Outcome) -> bool {
    match line_text(line, number) {
        None => out == (Seq::<EventText>::empty(), Seq::<Complaint>::empty()),
        Some(t) => text_outcome(read_record, read_payload, t, number, out),
    }
}

/// The columns of a CSV export, by their position in a row.
pub struct CsvColumns {
    pub record_number: Option<usize>,
    pub event_id: Option<usize>,
    pub time_created: Option<usize>,
    pub payload: Option<usize>,
    pub computer: Option<usize>,
    pub user_name: Option<usize>,
    pub map_description: Option<usize>,
    pub executable_info: Option<usize>,
    pub payload_data1: Option<usize>,
    pub payload_data2: Option<usize>,
    pub payload_data3: Option<usize>,
    pub payload_data4: Option<usize>,
    pub payload_data5: Option<usize>,
    pub payload_data6: Option<usize>,
}

/// The last position of a name among the headers.
pub open spec fn column_of(headers: Seq<Seq<char>>, name: Seq<char>) -> Option<usize>
    decreases headers.len(),
{
    if headers.len() == 0 {
        None
    } else if headers.last() == name {
        Some((headers.len() - 1) as usize)
    } else {
        column_of(headers.drop_last(), name)
    }
}

/// The cell of a row in a column; an empty cell counts as missing.
pub open spec fn cell_of(row: Seq<Seq<char>>, column: Option<usize>) -> Option<Seq<char>> {
    match column {
        Some(i) => if i < row.len() && row[i as int].len() > 0 {
            Some(row[i as int])
        } else {
            None
        },
        None => None,
    }
}

/// The record in a row, which must give an event number, a time and a payload, or
/// what the row lacks. The number of the row stands in for a missing record
/// number.
pub open spec fn row_record(c: CsvColumns, row: Seq<Seq<char>>, number: u64) -> Result<
    RecordText,
    Seq<char>,
> {
    let id = match cell_of(row, c.event_id) {
        Some(s) => unsigned_of(s, 0xffff),
        None => None,
    };
    let record_number = match cell_of(row, c.record_number) {
        Some(s) => match unsigned_of(s, 0xffff_ffff_ffff_ffff) {
            Some(n) => n as u64,
            None => number,
        },
        None => number,
    };
    match (id, cell_of(row, c.time_created), cell_of(row, c.payload)) {
        (Some(id), Some(time_created), Some(payload)) => Ok(
            RawEvtxRecord {
                event_id: id as u16,
                time_created,
                record_number,
                payload,
                computer: match cell_of(row, c.computer) {
                    Some(s) => s,
                    None => Seq::empty(),
                },
                user_name: cell_of(row, c.user_name),
                map_description: cell_of(row, c.map_description),
                executable_info: cell_of(row, c.executable_info),
                payload_data1: cell_of(row, c.payload_data1),
                payload_data2: cell_of(row, c.payload_data2),
                payload_data3: cell_of(row, c.payload_data3),
                payload_data4: cell_of(row, c.payload_data4),
                payload_data5: cell_of(row, c.payload_data5),
                payload_data6: cell_of(row, c.payload_data6),
            },
        ),
        (None, _, _) => Err("EventId is missing or no number"@),
        (_, None, _) => Err("TimeCreated is missing"@),
        _ => Err("Payload is missing"@),
    }
}

/// The complaint about a row that gives no record.
pub open spec fn row_complaint(number: u64, message: Seq<char>) -> Outcome {
    (Seq::empty(), seq![Complaint::CsvRowError { line: number, message }])
}

/// Whether `out` can come of the cells of a CSV row.
pub open spec fn row_outcome<G: Fn(&str) -> Result<PayloadWrapper, serde_json::Error>>(
    read_payload: G,
    c: CsvColumns,
    row: Seq<Seq<char>>,
    number: u64,
    out: Outcome,
) -> bool {
    match row_record(c, row, number) {
        Ok(raw) => payload_outcome(read_payload, raw, number, out),
        Err(message) => out == row_complaint(number, message),
    }
}

/// Whether two records make the same events: they agree but for what else the
/// export knows, and their times are readable and name the same instant.
pub open spec fn same_record(a: RecordText, b: RecordText) -> bool {
    &&& a.event_id == b.event_id
    &&& a.record_number == b.record_number
    &&& a.payload == b.payload
    &&& a.computer == b.computer
    &&& a.user_name == b.user_name
    &&& instant_of(trim_of(a.time_created)) is Some
    &&& instant_of(trim_of(a.time_created)) == instant_of(trim_of(b.time_created))
}

/// A record gives the same events and complaints whether it stood in a JSON line
/// or in a CSV row, as long as its time is readable in both.
pub proof fn law_formats_agree<G: Fn(&str) -> Result<PayloadWrapper, serde_json::Error>>(
    read: G,
    a: RecordText,
    b: RecordText,
    number: u64,
    out: Outcome,
)
    requires
        same_record(a, b),
    ensures
        payload_outcome(read, a, number, out) == payload_outcome(read, b, number, out),
{
    assert forall|p: Result<PayloadWrapper, serde_json::Error>| #[trigger]
        payload_result(a, p, number) == payload_result(b, p, number) by {
        if let Ok(w) = p {
            law_records_agree(a, b, payload_fields(w));
        }
    }
    if payload_outcome(read, a, number, out) {
        let p = choose|p: Result<PayloadWrapper, serde_json::Error>| #[trigger]
            lenient_outcome(read, a.payload, p) && out == payload_result(a, p, number);
        assert(lenient_outcome(read, b.payload, p));
        assert(out == payload_result(b, p, number));
    }
    if payload_outcome(read, b, number, out) {
        let p = choose|p: Result<PayloadWrapper, serde_json::Error>| #[trigger]
            lenient_outcome(read, b.payload, p) && out == payload_result(b, p, number);
        assert(lenient_outcome(read, a.payload, p));
        assert(out == payload_result(a, p, number));
    }
}

/// The columns that headers name.
pub open spec fn columns_of(headers: Seq<Seq<char>>) -> CsvColumns {
    CsvColumns {
        record_number: column_of(headers, "RecordNumber"@),
        event_id: column_of(headers, "EventId"@),
        time_created: column_of(headers, "TimeCreated"@),
        payload: column_of(headers, "Payload"@),
        computer: column_of(headers, "Computer"@),
        user_name: column_of(headers, "UserName"@),
        map_description: column_of(headers, "MapDescription"@),
        executable_info: column_of(headers, "ExecutableInfo"@),
        payload_data1: column_of(headers, "PayloadData1"@),
        payload_data2: column_of(headers, "PayloadData2"@),
        payload_data3: column_of(headers, "PayloadData3"@),
        payload_data4: column_of(headers, "PayloadData4"@),
        payload_data5: column_of(headers, "PayloadData5"@),
        payload_data6: column_of(headers, "PayloadData6"@),
    }
}

impl CsvColumns {
    /// The columns that a header row names.
    pub fn from_headers(headers: &Vec<String>) -> (c: CsvColumns)
        ensures
            c == columns_of(texts(headers@)),
    {
        CsvColumns {
            record_number: find_column(headers, "RecordNumber"),
            event_id: find_column(headers, "EventId"),
            time_created: find_column(headers, "TimeCreated"),
            payload: find_column(headers, "Payload"),
            computer: find_column(headers, "Computer"),
            user_name: find_column(headers, "UserName"),
            map_description: find_column(headers, "MapDescription"),
            executable_info: find_column(headers, "ExecutableInfo"),
            payload_data1: find_column(headers, "PayloadData1"),
            payload_data2: find_column(headers, "PayloadData2"),
            payload_data3: find_column(headers, "PayloadData3"),
            payload_data4: find_column(headers, "PayloadData4"),
            payload_data5: find_column(headers, "PayloadData5"),
            payload_data6: find_column(headers, "PayloadData6"),
        }
    }

    /// The record in a row, or what the row lacks.
    pub fn record(&self, row: &Vec<String>, number: u64) -> (r: Result<RawEvtxRecord, String>)
        ensures
            match r {
                Ok(raw) => row_record(*self, texts(row@), number) == Ok::<
                    RecordText,
                    Seq<char>,
                >(raw@),
                Err(message) => row_record(*self, texts(row@), number) == Err::<
                    RecordText,
                    Seq<char>,
                >(message@),
            },
    {
        let id: Option<u64> = match cell(row, self.event_id) {
            Some(s) => parse_unsigned(s.as_str(), 0xffff),
            None => None,
        };
        let id: u64 = match id {
            Some(n) => n,
            None => {
                return Err("EventId is missing or no number".to_owned());
            },
        };
        let record_number: u64 = match cell(row, self.record_number) {
            Some(s) => match parse_unsigned(s.as_str(), 0xffff_ffff_ffff_ffff) {
                Some(n) => n,
                None => number,
            },
            None => number,
        };
        let time_created = match cell(row, self.time_created) {
            Some(s) => s,
            None => {
                return Err("TimeCreated is missing".to_owned());
            },
        };
        let payload = match cell(row, self.payload) {
            Some(s) => s,
            None => {
                return Err("Payload is missing".to_owned());
            },
        };
        let computer = match cell(row, self.computer) {
            Some(s) => s,
            None => String::new(),
        };
        Ok(
            RawEvtxRecord {
                event_id: id as u16,
                time_created,
                record_number,
                payload,
                computer,
                user_name: cell(row, self.user_name),
                map_description: cell(row, self.map_description),
                executable_info: cell(row, self.executable_info),
                payload_data1: cell(row, self.payload_data1),
                payload_data2: cell(row, self.payload_data2),
                payload_data3: cell(row, self.payload_data3),
                payload_data4: cell(row, self.payload_data4),
                payload_data5: cell(row, self.payload_data5),
                payload_data6: cell(row, self.payload_data6),
            },
        )
    }
}

/// The last position of a name among the headers.
fn find_column(headers: &Vec<String>, name: &str) -> (r: Option<usize>)
    ensures
        r == column_of(texts(headers@), name@),
{
    let ghost h = texts(headers@);
    let mut n: usize = headers.len();
    assert(h.take(n as int) =~= h);
    while n > 0
        invariant
            n <= headers.len(),
            h == texts(headers@),
            column_of(h, name@) == column_of(h.take(n as int), name@),
        decreases n,
    {
        assert(h.take(n as int).last() == headers@[n - 1]@);
        assert(h.take(n as int).drop_last() =~= h.take(n - 1));
        if same_text(headers[n - 1].as_str(), name) {
            return Some(n - 1);
        }
        n -= 1;
    }
    None
}

/// The cell of a row in a column; an empty cell counts as missing.
fn cell(row: &Vec<String>, column: Option<usize>) -> (r: Option<String>)
    ensures
        opt_text(r) == cell_of(texts(row@), column),
{
    match column {
        Some(i) => if i < row.len() && !row[i].as_str().is_empty() {
            Some(row[i].clone())
        } else {
            None
        },
        None => None,
    }
}

// ---------------------------------------------------------------------------
// Reading record by record
// ---------------------------------------------------------------------------

/// The events that a reader hands out and those it keeps.
pub open spec fn handed_and_kept(full: Option<Vec<SysmonEvent>>, batch: Seq<SysmonEvent>) -> Seq<
    SysmonEvent,
> {
    match full {
        Some(f) => f@ + batch,
        None => batch,
    }
}

/// The events and complaints of several records, one after the other.
pub open spec fn summed(outs: Seq<Outcome>) -> Outcome
    decreases outs.len(),
{
    if outs.len() == 0 {
        (Seq::empty(), Seq::empty())
    } else {
        let front = summed(outs.drop_last());
        (front.0 + outs.last().0, front.1 + outs.last().1)
    }
}

/// The batches of a reader together with one that it hands out.
pub open spec fn with_full(
    batches: Seq<Vec<SysmonEvent>>,
    full: Option<Vec<SysmonEvent>>,
) -> Seq<Vec<SysmonEvent>> {
    match full {
        Some(f) => batches.push(f),
        None => batches,
    }
}

/// The batches that several steps hand out, in order.
pub open spec fn handed_out(fulls: Seq<Option<Vec<SysmonEvent>>>) -> Seq<Vec<SysmonEvent>>
    decreases fulls.len(),
{
    if fulls.len() == 0 {
        Seq::empty()
    } else {
        with_full(handed_out(fulls.drop_last()), fulls.last())
    }
}

/// Whether batches handed out and events kept hold what records gave after the
/// events that were kept at the start, and errors the complaints.
pub open spec fn taken_in(
    first: Seq<SysmonEvent>,
    batches: Seq<Vec<SysmonEvent>>,
    kept: Seq<SysmonEvent>,
    out: Outcome,
    errors_before: Seq<ParseError>,
    errors: Seq<ParseError>,
    r: SharedRodeo,
) -> bool {
    &&& all_full(batches)
    &&& all_held(flat(batches) + kept, r)
    &&& events_text(flat(batches) + kept, r) == events_text(first, r) + out.0
    &&& complaints(errors) == complaints(errors_before) + out.1
    &&& only_added(errors_before, errors)
}

/// A step adds what it reads to what was read before.
proof fn lemma_step(
    first: Seq<SysmonEvent>,
    batches: Seq<Vec<SysmonEvent>>,
    readers: (LogReader, LogReader),
    outs: Seq<Outcome>,
    out: Outcome,
    errors: (Seq<ParseError>, Seq<ParseError>, Seq<ParseError>),
    full: Option<Vec<SysmonEvent>>,
    r: SharedRodeo,
)
    requires
        taken_in(first, batches, readers.0.batch@, summed(outs), errors.0, errors.1, r),
        readers.0.stepped(readers.1, out, errors.1, errors.2, full, r),
    ensures
        taken_in(
            first,
            with_full(batches, full),
            readers.1.batch@,
            summed(outs.push(out)),
            errors.0,
            errors.2,
            r,
        ),
{
    let had = flat(batches);
    let kept = readers.0.batch@;
    let now = with_full(batches, full);
    let tail = handed_and_kept(full, readers.1.batch@);
    assert(outs.push(out).drop_last() =~= outs);
    if let Some(f) = full {
        assert(now.drop_last() =~= batches);
    }
    assert(flat(now) + readers.1.batch@ =~= had + tail);
    lemma_events_join(had, kept, r);
    lemma_events_join(had, tail, r);
    let e0 = events_text(had, r);
    let e1 = events_text(kept, r);
    let start = events_text(first, r);
    assert(e0 + (e1 + out.0) =~= (e0 + e1) + out.0);
    assert((start + summed(outs).0) + out.0 =~= start + (summed(outs).0 + out.0));
    let said = complaints(errors.0);
    assert((said + summed(outs).1) + out.1 =~= said + (summed(outs).1 + out.1));
    assert forall|i: int| 0 <= i < (had + tail).len() implies (#[trigger] (had + tail)[i]).held_by(
        r,
    ) by {
        if i < had.len() {
            assert((had + kept)[i] == had[i]);
        } else {
            assert(tail[i - had.len()].held_by(r));
        }
    }
}

/// Reading record after record loses no event and gives none twice: what any
/// number of steps hand out and keep is what was kept before and what the records
/// give, in order, and the errors grow by the complaints.
pub proof fn law_steps_add_up(
    readers: Seq<LogReader>,
    outs: Seq<Outcome>,
    errors: Seq<Seq<ParseError>>,
    fulls: Seq<Option<Vec<SysmonEvent>>>,
    r: SharedRodeo,
)
    requires
        readers.len() == outs.len() + 1,
        errors.len() == outs.len() + 1,
        fulls.len() == outs.len(),
        readers[0].wf(r),
        forall|i: int|
            #![trigger outs[i]]
            0 <= i < outs.len() ==> readers[i].stepped(
                readers[i + 1],
                outs[i],
                errors[i],
                errors[i + 1],
                fulls[i],
                r,
            ),
    ensures
        taken_in(
            readers[0].batch@,
            handed_out(fulls),
            readers.last().batch@,
            summed(outs),
            errors[0],
            errors.last(),
            r,
        ),
    decreases outs.len(),
{
    let n = outs.len() as int;
    let first = readers[0].batch@;
    if n == 0 {
        assert(flat(handed_out(fulls)) + first =~= first);
        assert(events_text(first, r) + summed(outs).0 =~= events_text(first, r));
        assert(complaints(errors[0]) + summed(outs).1 =~= complaints(errors[0]));
    } else {
        let front = outs.drop_last();
        assert forall|i: int|
            #![trigger front[i]]
            0 <= i < front.len() implies readers.drop_last()[i].stepped(
            readers.drop_last()[i + 1],
            front[i],
            errors.drop_last()[i],
            errors.drop_last()[i + 1],
            fulls.drop_last()[i],
            r,
        ) by {
            assert(front[i] == outs[i]);
        }
        law_steps_add_up(readers.drop_last(), front, errors.drop_last(), fulls.drop_last(), r);
        assert(outs[n - 1] == outs.last());
        lemma_step(
            first,
            handed_out(fulls.drop_last()),
            (readers[n - 1], readers[n]),
            front,
            outs.last(),
            (errors[0], errors[n - 1], errors[n]),
            fulls.last(),
            r,
        );
        assert(front.push(outs.last()) =~= outs);
    }
}

/// Adds an error.
fn add_error(error: ParseError, errors: &mut Vec<ParseError>)
    ensures
        complaints(final(errors)@) == complaints(old(errors)@) + seq![error@],
        only_added(old(errors)@, final(errors)@),
{
    errors.push(error);
    assert(complaints(errors@) =~= complaints(old(errors)@) + seq![error@]);
}

/// Reads a text log record by record, handing out batches of events.
pub struct LogReader {
    /// The number of the last line or row.
    pub line: u64,
    /// Events that do not fill a batch yet.
    pub batch: Vec<SysmonEvent>,
}

impl LogReader {
    /// The reader holds less than a batch of events of the interner.
    pub open spec fn wf(&self, r: SharedRodeo) -> bool {
        self.batch@.len() < BATCH_SIZE && all_held(self.batch@, r)
    }

    /// What a step that reads `out` does: the events are kept in order and handed
    /// out once there is a batch of them, and the complaints are added.
    pub open spec fn stepped(
        self,
        after: LogReader,
        out: Outcome,
        before_errors: Seq<ParseError>,
        errors: Seq<ParseError>,
        full: Option<Vec<SysmonEvent>>,
        r: SharedRodeo,
    ) -> bool {
        &&& after.wf(r)
        &&& full matches Some(f) ==> f@.len() == BATCH_SIZE && after.batch@.len() == 0
        &&& all_held(handed_and_kept(full, after.batch@), r)
        &&& events_text(handed_and_kept(full, after.batch@), r) == events_text(self.batch@, r)
            + out.0
        &&& complaints(errors) == complaints(before_errors) + out.1
        &&& only_added(before_errors, errors)
    }

    /// A reader at the start of a log.
    pub fn new() -> (r: LogReader)
        ensures
            r.line == 0,
            r.batch@.len() == 0,
    {
        LogReader { line: 0, batch: Vec::new() }
    }

    /// Adds a record whose payload is read with `read_payload`.
    fn add<G: Fn(&str) -> Result<PayloadWrapper, serde_json::Error>>(
        &mut self,
        raw: RawEvtxRecord,
        read_payload: &G,
        errors: &mut Vec<ParseError>,
        rodeo: &SharedRodeo,
    ) -> (full: Option<Vec<SysmonEvent>>)
        requires
            old(self).wf(*rodeo),
            forall|s: &str| #[trigger] read_payload.requires((s,)),
        ensures
            final(self).line == old(self).line,
            exists|out: Outcome| #[trigger]
                payload_outcome(*read_payload, raw@, old(self).line, out) && old(self).stepped(
                    *final(self),
                    out,
                    old(errors)@,
                    final(errors)@,
                    full,
                    *rodeo,
                ),
    {
        let number: u64 = self.line;
        let ghost record = raw@;
        let payload = read_leniently(raw.payload.as_str(), read_payload);
        let ghost p = payload;
        let ghost out = payload_result(record, p, number);
        assert(lenient_outcome(*read_payload, record.payload, p));
        assert(payload_outcome(*read_payload, record, number, out));
        match payload {
            Err(e) => {
                add_error(ParseError::PayloadDeserialize { line: number, source: e }, errors);
                assert(events_text(self.batch@, *rodeo) =~= events_text(old(self).batch@, *rodeo)
                    + out.0);
                None
            },
            Ok(w) => {
                let fields = collect_fields(&w);
                add_record(raw, &fields, number, &mut self.batch, errors, rodeo);
                let ghost grown = self.batch@;
                assert(events_text(grown, *rodeo).len() == grown.len());
                let full = take_full(&mut self.batch);
                assert(handed_and_kept(full, self.batch@) =~= grown);
                full
            },
        }
    }

    /// Reads the next line of a log with one JSON record per line. `read_record`
    /// and `read_payload` are the readers of the JSON of records and payloads.
    pub fn read_line<
        F: Fn(&str) -> Result<RawEvtxRecord, serde_json::Error>,
        G: Fn(&str) -> Result<PayloadWrapper, serde_json::Error>,
    >(
        &mut self,
        line: &str,
        read_record: &F,
        read_payload: &G,
        errors: &mut Vec<ParseError>,
        rodeo: &SharedRodeo,
    ) -> (full: Option<Vec<SysmonEvent>>)
        requires
            old(self).wf(*rodeo),
            old(self).line < u64::MAX,
            forall|s: &str| #[trigger] read_record.requires((s,)),
            forall|s: &str| #[trigger] read_payload.requires((s,)),
        ensures
            final(self).line == old(self).line + 1,
            exists|out: Outcome| #[trigger]
                line_outcome(*read_record, *read_payload, line@, final(self).line, out) && old(
                    self,
                ).stepped(*final(self), out, old(errors)@, final(errors)@, full, *rodeo),
    {
        let ghost kept = self.batch@;
        let ghost said = errors@;
        self.line += 1;
        let number: u64 = self.line;
        let text = if number == 1 {
            trim_front(line, '\u{FEFF}')
        } else {
            line.to_owned()
        };
        if trim(text.as_str()).as_str().is_empty() {
            let ghost out: Outcome = (Seq::empty(), Seq::empty());
            assert(complaints(errors@) =~= complaints(said) + out.1);
            assert(events_text(self.batch@, *rodeo) =~= events_text(kept, *rodeo) + out.0);
            assert(line_outcome(*read_record, *read_payload, line@, number, out));
            return None;
        }
        let read = read_leniently(text.as_str(), read_record);
        assert(line_text(line@, number) == Some(text@));
        let ghost rec = read;
        assert(lenient_outcome(*read_record, text@, rec));
        match read {
            Err(e) => {
                let ghost out: Outcome = (
                    Seq::empty(),
                    seq![Complaint::TopLevelDeserialize { line: number, source: e }],
                );
                add_error(ParseError::TopLevelDeserialize { line: number, source: e }, errors);
                assert(events_text(self.batch@, *rodeo) =~= events_text(kept, *rodeo) + out.0);
                assert(record_outcome(*read_payload, rec, number, out));
                assert(text_outcome(*read_record, *read_payload, text@, number, out));
                assert(line_outcome(*read_record, *read_payload, line@, number, out));
                None
            },
            Ok(raw) => {
                let ghost record = raw@;
                let ghost here = *self;
                let full = self.add(raw, read_payload, errors, rodeo);
                proof {
                    let out = choose|out: Outcome| #[trigger]
                        payload_outcome(*read_payload, record, number, out) && here.stepped(
                            *self,
                            out,
                            said,
                            errors@,
                            full,
                            *rodeo,
                        );
                    assert(record_outcome(*read_payload, rec, number, out));
                    assert(text_outcome(*read_record, *read_payload, text@, number, out));
                    assert(line_outcome(*read_record, *read_payload, line@, number, out));
                    assert(old(self).stepped(*self, out, said, errors@, full, *rodeo));
                }
                full
            },
        }
    }

    /// Reads the next row of a CSV log. A row that gives no record is passed over
    /// and reported.
    pub fn read_row<G: Fn(&str) -> Result<PayloadWrapper, serde_json::Error>>(
        &mut self,
        columns: &CsvColumns,
        row: &Vec<String>,
        read_payload: &G,
        errors: &mut Vec<ParseError>,
        rodeo: &SharedRodeo,
    ) -> (full: Option<Vec<SysmonEvent>>)
        requires
            old(self).wf(*rodeo),
            old(self).line < u64::MAX,
            forall|s: &str| #[trigger] read_payload.requires((s,)),
        ensures
            final(self).line == old(self).line + 1,
            exists|out: Outcome| #[trigger]
                row_outcome(*read_payload, *columns, texts(row@), final(self).line, out) && old(
                    self,
                ).stepped(*final(self), out, old(errors)@, final(errors)@, full, *rodeo),
    {
        let ghost kept = self.batch@;
        let ghost said = errors@;
        self.line += 1;
        let number: u64 = self.line;
        match columns.record(row, number) {
            Err(message) => {
                let ghost out = row_complaint(number, message@);
                add_error(ParseError::CsvRowError { line: number, message }, errors);
                assert(events_text(self.batch@, *rodeo) =~= events_text(kept, *rodeo) + out.0);
                assert(row_outcome(*read_payload, *columns, texts(row@), number, out));
                None
            },
            Ok(raw) => {
                let ghost record = raw@;
                let ghost here = *self;
                let full = self.add(raw, read_payload, errors, rodeo);
                proof {
                    let out = choose|out: Outcome| #[trigger]
                        payload_outcome(*read_payload, record, number, out) && here.stepped(
                            *self,
                            out,
                            said,
                            errors@,
                            full,
                            *rodeo,
                        );
                    assert(row_outcome(*read_payload, *columns, texts(row@), number, out));
                    assert(old(self).stepped(*self, out, said, errors@, full, *rodeo));
                }
                full
            },
        }
    }

    /// Takes note of a row that could not be read.
    pub fn bad_row(&mut self, message: String, errors: &mut Vec<ParseError>)
        requires
            old(self).line < u64::MAX,
        ensures
            final(self).line == old(self).line + 1,
            final(self).batch@ == old(self).batch@,
            complaints(final(errors)@) == complaints(old(errors)@) + seq![
                Complaint::CsvRowError { line: final(self).line, message: message@ },
            ],
            only_added(old(errors)@, final(errors)@),
    {
        self.line += 1;
        add_error(ParseError::CsvRowError { line: self.line, message }, errors);
    }

    /// Hands out the events that are left, where there are any.
    pub fn finish(self) -> (r: Option<Vec<SysmonEvent>>)
        ensures
            match r {
                Some(b) => b@ == self.batch@ && self.batch@.len() > 0,
                None => self.batch@.len() == 0,
            },
    {
        if self.batch.len() > 0 {
            Some(self.batch)
        } else {
            None
        }
    }
}

// ---------------------------------------------------------------------------
// Whole logs
// ---------------------------------------------------------------------------

/// Whether batches hold the events of `out` and errors grew by its complaints.
/// All batches but the last are full, and none is empty.
pub open spec fn delivered(
    batches: Seq<Vec<SysmonEvent>>,
    out: Outcome,
    errors_before: Seq<ParseError>,
    errors: Seq<ParseError>,
    r: SharedRodeo,
) -> bool {
    &&& in_batches(batches)
    &&& all_held(flat(batches), r)
    &&& events_text(flat(batches), r) == out.0
    &&& complaints(errors) == complaints(errors_before) + out.1
    &&& only_added(errors_before, errors)
}

/// Whether `out` can come of the lines of a log with one JSON record per line.
pub open spec fn lines_outcome<
    F: Fn(&str) -> Result<RawEvtxRecord, serde_json::Error>,
    G: Fn(&str) -> Result<PayloadWrapper, serde_json::Error>,
>(read_record: F, read_payload: G, lines: Seq<Seq<char>>, out: Outcome) -> bool {
    exists|outs: Seq<Outcome>|
        outs.len() == lines.len() && out == #[trigger] summed(outs) && forall|i: int|
            0 <= i < outs.len() ==> line_outcome(
                read_record,
                read_payload,
                lines[i],
                (i + 1) as u64,
                #[trigger] outs[i],
            )
}

/// A row of a CSV file: its cells, or why it is not readable.
pub type CsvRow = Result<Vec<String>, String>;

/// A row as text.
pub type RowText = Result<Seq<Seq<char>>, Seq<char>>;

/// A row as text.
pub open spec fn row_text(row: CsvRow) -> RowText {
    match row {
        Ok(cells) => Ok(texts(cells@)),
        Err(message) => Err(message@),
    }
}

/// A CSV file: its header row and the rows below.
pub struct CsvTable {
    pub headers: Vec<String>,
    pub rows: Vec<CsvRow>,
}

/// A CSV file as text.
pub type TableText = (Seq<Seq<char>>, Seq<RowText>);

/// What came of reading a CSV file, as text.
pub open spec fn table_text(r: Result<CsvTable, String>) -> Result<TableText, Seq<char>> {
    match r {
        Ok(table) => Ok(table@),
        Err(message) => Err(message@),
    }
}

/// The header row and the rows below that bytes hold as CSV, rows being free to
/// differ in length, or why the header row is not readable.
pub uninterp spec fn csv_table(bytes: Seq<u8>) -> Result<
    (Seq<Seq<char>>, Seq<Result<Seq<Seq<char>>, Seq<char>>>),
    Seq<char>,
>;

/// `csv::Reader::headers` and `csv::Reader::records`, of a reader made with
/// `has_headers` and `flexible`, errors being taken as the text that they show.
/// What they give depends on the bytes alone.
#[verifier::external_body]
pub(crate) fn read_csv(bytes: &[u8]) -> (r: Result<CsvTable, String>)
    ensures
        table_text(r) == csv_table(bytes@),
{
    let mut csv = csv::ReaderBuilder::new().has_headers(true).flexible(true).from_reader(bytes);
    let first = csv.headers().map_err(|e| e.to_string())?;
    let headers = first.iter().map(str::to_owned).collect();
    let rows = csv.records().map(|row| {
        let cells = row.map_err(|e| e.to_string())?;
        Ok(cells.iter().map(str::to_owned).collect())
    });
    Ok(CsvTable { headers, rows: rows.collect() })
}

/// Whether `out` can come of a row of a CSV file: the complaint about one that is
/// not readable, and otherwise what its cells give.
pub open spec fn table_row_outcome<G: Fn(&str) -> Result<PayloadWrapper, serde_json::Error>>(
    read_payload: G,
    c: CsvColumns,
    row: RowText,
    number: u64,
    out: Outcome,
) -> bool {
    match row {
        Ok(cells) => row_outcome(read_payload, c, cells, number, out),
        Err(message) => out == row_complaint(number, message),
    }
}

/// Whether `out` can come of the rows of a CSV file.
pub open spec fn table_outcome<G: Fn(&str) -> Result<PayloadWrapper, serde_json::Error>>(
    read_payload: G,
    table: TableText,
    out: Outcome,
) -> bool {
    exists|outs: Seq<Outcome>|
        outs.len() == table.1.len() && out == #[trigger] summed(outs) && forall|i: int|
            0 <= i < outs.len() ==> table_row_outcome(
                read_payload,
                columns_of(table.0),
                table.1[i],
                (i + 1) as u64,
                #[trigger] outs[i],
            )
}

/// Whether a text always reads as a record.
pub open spec fn reads_as<F: Fn(&str) -> Result<RawEvtxRecord, serde_json::Error>>(
    read: F,
    text: Seq<char>,
    record: RecordText,
) -> bool {
    &&& exists|rec: Result<RawEvtxRecord, serde_json::Error>| #[trigger]
        lenient_outcome(read, text, rec)
    &&& forall|rec: Result<RawEvtxRecord, serde_json::Error>| #[trigger]
        lenient_outcome(read, text, rec) ==> rec is Ok && rec->Ok_0@ == record
}

/// Whether a line and a row hold the same record.
pub open spec fn line_and_row_agree<F: Fn(&str) -> Result<RawEvtxRecord, serde_json::Error>>(
    read_record: F,
    line: Seq<char>,
    c: CsvColumns,
    row: RowText,
    number: u64,
) -> bool {
    &&& row is Ok
    &&& row_record(c, row->Ok_0, number) is Ok
    &&& exists|record: RecordText|
        same_record(row_record(c, row->Ok_0, number)->Ok_0, record) && line_text(line, number)
            is Some && #[trigger] reads_as(read_record, line_text(line, number)->Some_0, record)
}

/// A log gives the same events and complaints whether it was exported as lines of
/// JSON or as CSV.
pub proof fn law_exports_agree<
    F: Fn(&str) -> Result<RawEvtxRecord, serde_json::Error>,
    G: Fn(&str) -> Result<PayloadWrapper, serde_json::Error>,
>(
    read_record: F,
    read_payload: G,
    lines: Seq<Seq<char>>,
    table: TableText,
    out: Outcome,
)
    requires
        lines.len() == table.1.len(),
        forall|i: int|
            0 <= i < lines.len() ==> line_and_row_agree(
                read_record,
                #[trigger] lines[i],
                columns_of(table.0),
                table.1[i],
                (i + 1) as u64,
            ),
    ensures
        lines_outcome(read_record, read_payload, lines, out) == table_outcome(
            read_payload,
            table,
            out,
        ),
{
    let c = columns_of(table.0);
    assert forall|i: int, o: Outcome| 0 <= i < lines.len() implies #[trigger] line_outcome(
        read_record,
        read_payload,
        lines[i],
        (i + 1) as u64,
        o,
    ) == table_row_outcome(read_payload, c, table.1[i], (i + 1) as u64, o) by {
        let number = (i + 1) as u64;
        let a = row_record(c, table.1[i]->Ok_0, number)->Ok_0;
        let text = line_text(lines[i], number)->Some_0;
        let b = choose|b: RecordText|
            same_record(a, b) && line_text(lines[i], number) is Some && #[trigger] reads_as(
                read_record,
                text,
                b,
            );
        law_formats_agree(read_payload, a, b, number, o);
        let rec = choose|rec: Result<RawEvtxRecord, serde_json::Error>| #[trigger]
            lenient_outcome(read_record, text, rec);
        assert(record_outcome(read_payload, rec, number, o) == payload_outcome(
            read_payload,
            b,
            number,
            o,
        ));
        if text_outcome(read_record, read_payload, text, number, o) {
            let other = choose|other: Result<RawEvtxRecord, serde_json::Error>| #[trigger]
                lenient_outcome(read_record, text, other) && record_outcome(
                    read_payload,
                    other,
                    number,
                    o,
                );
            assert(payload_outcome(read_payload, b, number, o));
        }
    }
    if lines_outcome(read_record, read_payload, lines, out) {
        let outs = choose|outs: Seq<Outcome>|
            outs.len() == lines.len() && out == #[trigger] summed(outs) && forall|i: int|
                0 <= i < outs.len() ==> line_outcome(
                    read_record,
                    read_payload,
                    lines[i],
                    (i + 1) as u64,
                    #[trigger] outs[i],
                );
        assert forall|i: int| 0 <= i < outs.len() implies table_row_outcome(
            read_payload,
            c,
            table.1[i],
            (i + 1) as u64,
            #[trigger] outs[i],
        ) by {
            assert(line_outcome(read_record, read_payload, lines[i], (i + 1) as u64, outs[i]));
        }
        assert(out == summed(outs));
    }
    if table_outcome(read_payload, table, out) {
        let outs = choose|outs: Seq<Outcome>|
            outs.len() == table.1.len() && out == #[trigger] summed(outs) && forall|i: int|
                0 <= i < outs.len() ==> table_row_outcome(
                    read_payload,
                    c,
                    table.1[i],
                    (i + 1) as u64,
                    #[trigger] outs[i],
                );
        assert forall|i: int| 0 <= i < outs.len() implies line_outcome(
            read_record,
            read_payload,
            lines[i],
            (i + 1) as u64,
            #[trigger] outs[i],
        ) by {
            assert(table_row_outcome(read_payload, c, table.1[i], (i + 1) as u64, outs[i]));
        }
        assert(out == summed(outs));
    }
}

impl CsvTable {
    /// The table as text.
    pub open spec fn view(&self) -> TableText {
        (texts(self.headers@), self.rows@.map_values(|row: CsvRow| row_text(row)))
    }

    /// Reads the bytes of a CSV file.
    pub fn read(bytes: &[u8]) -> (r: Result<CsvTable, String>)
        ensures
            table_text(r) == csv_table(bytes@),
    {
        read_csv(bytes)
    }
}

impl LogReader {
    /// Reads the next row of a CSV file, which may be one that is not readable.
    pub fn read_table_row<G: Fn(&str) -> Result<PayloadWrapper, serde_json::Error>>(
        &mut self,
        columns: &CsvColumns,
        row: &CsvRow,
        read_payload: &G,
        errors: &mut Vec<ParseError>,
        rodeo: &SharedRodeo,
    ) -> (full: Option<Vec<SysmonEvent>>)
        requires
            old(self).wf(*rodeo),
            old(self).line < u64::MAX,
            forall|s: &str| #[trigger] read_payload.requires((s,)),
        ensures
            final(self).line == old(self).line + 1,
            exists|out: Outcome| #[trigger]
                table_row_outcome(*read_payload, *columns, row_text(*row), final(self).line, out)
                    && old(self).stepped(
                    *final(self),
                    out,
                    old(errors)@,
                    final(errors)@,
                    full,
                    *rodeo,
                ),
    {
        match row {
            Ok(cells) => {
                let full = self.read_row(columns, cells, read_payload, errors, rodeo);
                proof {
                    let out = choose|out: Outcome| #[trigger]
                        row_outcome(*read_payload, *columns, texts(cells@), self.line, out) && old(
                            self,
                        ).stepped(*self, out, old(errors)@, errors@, full, *rodeo);
                    assert(table_row_outcome(
                        *read_payload,
                        *columns,
                        row_text(*row),
                        self.line,
                        out,
                    ));
                }
                full
            },
            Err(message) => {
                self.bad_row(message.clone(), errors);
                proof {
                    let out = row_complaint(self.line, message@);
                    assert(events_text(self.batch@, *rodeo) =~= events_text(
                        old(self).batch@,
                        *rodeo,
                    ) + out.0);
                    assert(table_row_outcome(
                        *read_payload,
                        *columns,
                        row_text(*row),
                        self.line,
                        out,
                    ));
                }
                None
            },
        }
    }

    /// Puts the events that are left behind the batches that were handed out.
    fn close(self, batches: &mut Vec<Vec<SysmonEvent>>)
        requires
            all_full(old(batches)@),
            self.batch@.len() < BATCH_SIZE,
        ensures
            in_batches(final(batches)@),
            flat(final(batches)@) == flat(old(batches)@) + self.batch@,
    {
        let ghost before = batches@;
        match self.finish() {
            Some(rest) => {
                batches.push(rest);
                assert(batches@.drop_last() =~= before);
            },
            None => {
                assert(flat(batches@) + self.batch@ =~= flat(batches@));
            },
        }
    }
}

/// Reads all events of a log with one JSON record per line, in batches.
pub fn parse_lines<
    F: Fn(&str) -> Result<RawEvtxRecord, serde_json::Error>,
    G: Fn(&str) -> Result<PayloadWrapper, serde_json::Error>,
>(
    lines: &Vec<String>,
    read_record: &F,
    read_payload: &G,
    errors: &mut Vec<ParseError>,
    rodeo: &SharedRodeo,
) -> (batches: Vec<Vec<SysmonEvent>>)
    requires
        forall|s: &str| #[trigger] read_record.requires((s,)),
        forall|s: &str| #[trigger] read_payload.requires((s,)),
    ensures
        exists|out: Outcome| #[trigger]
            lines_outcome(*read_record, *read_payload, texts(lines@), out) && delivered(
                batches@,
                out,
                old(errors)@,
                final(errors)@,
                *rodeo,
            ),
{
    let mut reader = LogReader::new();
    let mut batches: Vec<Vec<SysmonEvent>> = Vec::new();
    let ghost first = reader.batch@;
    let ghost mut outs: Seq<Outcome> = Seq::empty();
    let mut i: usize = 0;
    proof {
        lemma_nothing_taken(first, errors@, *rodeo);
    }
    while i < lines.len()
        invariant
            i <= lines.len(),
            reader.line == i,
            reader.wf(*rodeo),
            first.len() == 0,
            forall|s: &str| #[trigger] read_record.requires((s,)),
            forall|s: &str| #[trigger] read_payload.requires((s,)),
            taken_in(
                first,
                batches@,
                reader.batch@,
                summed(outs),
                old(errors)@,
                errors@,
                *rodeo,
            ),
            outs.len() == i,
            forall|k: int|
                0 <= k < i ==> line_outcome(
                    *read_record,
                    *read_payload,
                    texts(lines@)[k],
                    (k + 1) as u64,
                    #[trigger] outs[k],
                ),
        decreases lines.len() - i,
    {
        let ghost before = reader;
        let ghost had = batches@;
        let ghost said = errors@;
        let full = reader.read_line(lines[i].as_str(), read_record, read_payload, errors, rodeo);
        proof {
            let out = choose|out: Outcome| #[trigger]
                line_outcome(*read_record, *read_payload, lines@[i as int]@, reader.line, out)
                    && before.stepped(reader, out, said, errors@, full, *rodeo);
            lemma_step(
                first,
                had,
                (before, reader),
                outs,
                out,
                (old(errors)@, said, errors@),
                full,
                *rodeo,
            );
            assert(texts(lines@)[i as int] == lines@[i as int]@);
            outs = outs.push(out);
        }
        if let Some(f) = full {
            batches.push(f);
        }
        i += 1;
    }
    reader.close(&mut batches);
    proof {
        assert(events_text(first, *rodeo) + summed(outs).0 =~= summed(outs).0);
        assert(lines_outcome(*read_record, *read_payload, texts(lines@), summed(outs)));
    }
    batches
}

/// At the start nothing has been read.
proof fn lemma_nothing_taken(first: Seq<SysmonEvent>, errors: Seq<ParseError>, r: SharedRodeo)
    requires
        first.len() == 0,
    ensures
        taken_in(first, Seq::empty(), first, summed(Seq::empty()), errors, errors, r),
{
    assert(flat(Seq::<Vec<SysmonEvent>>::empty()) + first =~= first);
    assert(events_text(first, r) + summed(Seq::empty()).0 =~= events_text(first, r));
    assert(complaints(errors) + summed(Seq::empty()).1 =~= complaints(errors));
}

/// Reads all events of the rows of a CSV file, in batches.
pub fn parse_table<G: Fn(&str) -> Result<PayloadWrapper, serde_json::Error>>(
    table: &CsvTable,
    read_payload: &G,
    errors: &mut Vec<ParseError>,
    rodeo: &SharedRodeo,
) -> (batches: Vec<Vec<SysmonEvent>>)
    requires
        forall|s: &str| #[trigger] read_payload.requires((s,)),
    ensures
        exists|out: Outcome| #[trigger]
            table_outcome(*read_payload, table@, out) && delivered(
                batches@,
                out,
                old(errors)@,
                final(errors)@,
                *rodeo,
            ),
{
    let columns = CsvColumns::from_headers(&table.headers);
    let mut reader = LogReader::new();
    let mut batches: Vec<Vec<SysmonEvent>> = Vec::new();
    let ghost first = reader.batch@;
    let ghost mut outs: Seq<Outcome> = Seq::empty();
    let mut i: usize = 0;
    proof {
        lemma_nothing_taken(first, errors@, *rodeo);
    }
    while i < table.rows.len()
        invariant
            i <= table.rows.len(),
            columns == columns_of(texts(table.headers@)),
            reader.line == i,
            reader.wf(*rodeo),
            first.len() == 0,
            forall|s: &str| #[trigger] read_payload.requires((s,)),
            taken_in(
                first,
                batches@,
                reader.batch@,
                summed(outs),
                old(errors)@,
                errors@,
                *rodeo,
            ),
            outs.len() == i,
            forall|k: int|
                0 <= k < i ==> table_row_outcome(
                    *read_payload,
                    columns,
                    table@.1[k],
                    (k + 1) as u64,
                    #[trigger] outs[k],
                ),
        decreases table.rows.len() - i,
    {
        let ghost before = reader;
        let ghost had = batches@;
        let ghost said = errors@;
        let full = reader.read_table_row(&columns, &table.rows[i], read_payload, errors, rodeo);
        proof {
            let row = row_text(table.rows@[i as int]);
            let out = choose|out: Outcome| #[trigger]
                table_row_outcome(*read_payload, columns, row, reader.line, out)
                    && before.stepped(reader, out, said, errors@, full, *rodeo);
            lemma_step(
                first,
                had,
                (before, reader),
                outs,
                out,
                (old(errors)@, said, errors@),
                full,
                *rodeo,
            );
            assert(table@.1[i as int] == row);
            outs = outs.push(out);
        }
        if let Some(f) = full {
            batches.push(f);
        }
        i += 1;
    }
    reader.close(&mut batches);
    proof {
        assert(events_text(first, *rodeo) + summed(outs).0 =~= summed(outs).0);
        assert(table_outcome(*read_payload, table@, summed(outs)));
    }
    batches
}

/// Reads all events of a CSV export, in batches. The error is that of a header row
/// that is not readable.
pub fn parse_csv<G: Fn(&str) -> Result<PayloadWrapper, serde_json::Error>>(
    bytes: &[u8],
    read_payload: &G,
    errors: &mut Vec<ParseError>,
    rodeo: &SharedRodeo,
) -> (r: Result<Vec<Vec<SysmonEvent>>, String>)
    requires
        forall|s: &str| #[trigger] read_payload.requires((s,)),
    ensures
        match r {
            Ok(batches) => csv_table(bytes@) is Ok && exists|out: Outcome| #[trigger]
                table_outcome(*read_payload, csv_table(bytes@)->Ok_0, out) && delivered(
                    batches@,
                    out,
                    old(errors)@,
                    final(errors)@,
                    *rodeo,
                ),
            Err(message) => csv_table(bytes@) is Err && csv_table(bytes@)->Err_0 == message@
                && final(errors)@ == old(errors)@,
        },
{
    match CsvTable::read(bytes) {
        Ok(table) => {
            assert(csv_table(bytes@)->Ok_0 == table@);
            Ok(parse_table(&table, read_payload, errors, rodeo))
        },
        Err(message) => Err(message),
    }
}

} // verus!
