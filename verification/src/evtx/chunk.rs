//! Chunks: the records of a chunk and the events they hold.

use crate::clock::{filetime_text, filetime_to_rfc3339};
use crate::event::{EventText, SysmonEvent};
use crate::evtx::binxml::nodes_text;
use crate::evtx::bytes::{i64_at, signed64, u32_at, u64_at, word32, word64};
use crate::evtx::fields::{
    extract_event_fields, law_record_number_kept, no_fields, walked, EventFields, FieldsText,
};
use crate::evtx::record::{parse_record_payload, payload_at, subs_text};
use crate::evtx::templates::{
    build_string_table, parse_templates, templates_of, templates_text, Templates,
};
use crate::interner::SharedRodeo;
use crate::parser::{
    add_record, all_held, at_most_one, event_complaints, event_of, events_text, take_full,
    RawEvtxRecord, RecordText, BATCH_SIZE,
};
use crate::text::same_text;
use crate::types::{complaints, only_added, Complaint, ParseError};
use vstd::prelude::*;

verus! {

broadcast use vstd::std_specs::hash::group_hash_axioms;

/// The signature of a chunk: "ElfChnk" and a NUL.
pub const CHUNK_SIG: u64 = 0x006B6E6843666C45;

/// The signature of a record.
pub const RECORD_SIG: u32 = 0x2A2A;

// ---------------------------------------------------------------------------
// What a chunk holds
// ---------------------------------------------------------------------------

/// Whether bytes are a chunk with records: long enough for its header, with the
/// signature, and with a first record number.
pub open spec fn is_chunk(c: Seq<u8>) -> bool {
    c.len() >= 0x200 && word64(c, 0) == CHUNK_SIG && signed64(word64(c, 0x18)) != -1
}

/// Where the records of a chunk start: after its string table and its template
/// table.
pub open spec fn records_start(c: Seq<u8>) -> int {
    word32(c, 0x28) + 0x180
}

/// The size of the record at a position, where there is one that is whole and
/// not past the last record of the chunk.
pub open spec fn record_size(c: Seq<u8>, pos: int) -> Option<int> {
    if pos + 8 > c.len() || pos > word32(c, 0x2c) || word32(c, pos) != RECORD_SIG || word32(
        c,
        pos + 4,
    ) < 24 || pos + word32(c, pos + 4) > c.len() {
        None
    } else {
        Some(word32(c, pos + 4) as int)
    }
}

/// Whether the number of the record at a position is one of the chunk's.
pub open spec fn in_range(c: Seq<u8>, pos: int) -> bool {
    signed64(word64(c, 0x18)) <= signed64(word64(c, pos + 8)) <= signed64(word64(c, 0x20))
}

/// The fields of the event in a record, where its template is known.
pub open spec fn record_fields(c: Seq<u8>, pos: int) -> Option<FieldsText> {
    match payload_at(c, pos + 24, pos) {
        Some((offset, subs)) => if templates_of(c).contains_key(offset) {
            Some(
                walked(
                    templates_of(c)[offset],
                    subs,
                    pos,
                    templates_of(c),
                    no_fields(word64(c, pos + 8)),
                ).fields,
            )
        } else {
            None
        },
        None => None,
    }
}

/// The record that fields make, if they are those of a numbered Sysmon event.
/// Where they give no time, it is that of the record's header.
pub open spec fn sysmon_record(f: FieldsText, header_time: i64) -> Option<RecordText> {
    if f.provider == Some("Microsoft-Windows-Sysmon"@) && f.event_id is Some {
        Some(
            RawEvtxRecord {
                event_id: f.event_id->Some_0,
                time_created: match f.time_created {
                    Some(t) if t.len() > 0 => t,
                    _ => filetime_text(header_time),
                },
                record_number: f.record_number,
                payload: Seq::empty(),
                computer: match f.computer {
                    Some(name) => name,
                    None => Seq::empty(),
                },
                user_name: None,
                map_description: None,
                executable_info: None,
                payload_data1: None,
                payload_data2: None,
                payload_data3: None,
                payload_data4: None,
                payload_data5: None,
                payload_data6: None,
            },
        )
    } else {
        None
    }
}

/// The event and the complaints that the record at a position gives.
pub open spec fn record_outcome(c: Seq<u8>, pos: int) -> (Seq<EventText>, Seq<Complaint>) {
    if !in_range(c, pos) {
        (Seq::empty(), Seq::empty())
    } else {
        match record_fields(c, pos) {
            Some(f) => match sysmon_record(f, signed64(word64(c, pos + 16))) {
                Some(raw) => (
                    at_most_one(event_of(raw, f.data)),
                    event_complaints(raw, f.data, word64(c, pos + 8)),
                ),
                None => (Seq::empty(), Seq::empty()),
            },
            None => (Seq::empty(), Seq::empty()),
        }
    }
}

/// The events and complaints of the records from a position on.
pub open spec fn outcome_from(c: Seq<u8>, pos: int) -> (Seq<EventText>, Seq<Complaint>)
    decreases c.len() - pos,
{
    match record_size(c, pos) {
        None => (Seq::empty(), Seq::empty()),
        Some(size) => {
            let first = record_outcome(c, pos);
            let rest = outcome_from(c, pos + size);
            (first.0 + rest.0, first.1 + rest.1)
        },
    }
}

/// The events and complaints of a chunk.
pub open spec fn chunk_outcome(c: Seq<u8>) -> (Seq<EventText>, Seq<Complaint>) {
    if is_chunk(c) {
        outcome_from(c, records_start(c))
    } else {
        (Seq::empty(), Seq::empty())
    }
}

/// The events of batches, one after the other.
pub open spec fn flat(batches: Seq<Vec<SysmonEvent>>) -> Seq<SysmonEvent>
    decreases batches.len(),
{
    if batches.len() == 0 {
        Seq::empty()
    } else {
        flat(batches.drop_last()) + batches.last()@
    }
}

/// Whether every batch has the size of a full one.
pub open spec fn all_full(batches: Seq<Vec<SysmonEvent>>) -> bool {
    forall|i: int| 0 <= i < batches.len() ==> (#[trigger] batches[i])@.len() == BATCH_SIZE
}

/// Whether all batches but the last are full, and the last is not empty.
pub open spec fn in_batches(batches: Seq<Vec<SysmonEvent>>) -> bool {
    batches.len() > 0 ==> all_full(batches.drop_last()) && 0 < batches.last()@.len() <= BATCH_SIZE
}

// ---------------------------------------------------------------------------
// Reading
// ---------------------------------------------------------------------------

/// The events of two lists joined.
pub proof fn lemma_events_join(a: Seq<SysmonEvent>, b: Seq<SysmonEvent>, r: SharedRodeo)
    ensures
        events_text(a + b, r) == events_text(a, r) + events_text(b, r),
{
    assert(events_text(a + b, r) =~= events_text(a, r) + events_text(b, r));
}

/// The raw record of the event that fields describe.
fn record_from_fields(f: &EventFields, header_time: i64) -> (r: Option<RawEvtxRecord>)
    ensures
        match r {
            Some(raw) => sysmon_record(f@, header_time) == Some(raw@),
            None => sysmon_record(f@, header_time) is None,
        },
{
    let sysmon = match &f.provider {
        Some(p) => same_text(p.as_str(), "Microsoft-Windows-Sysmon"),
        None => false,
    };
    if !sysmon {
        return None;
    }
    let event_id: u16 = match f.event_id {
        Some(id) => id,
        None => {
            return None;
        },
    };
    let given: Option<String> = match &f.time_created {
        Some(t) => if t.as_str().is_empty() {
            None
        } else {
            Some(t.clone())
        },
        None => None,
    };
    let time_created = match given {
        Some(t) => t,
        None => filetime_to_rfc3339(header_time),
    };
    let computer = match &f.computer {
        Some(name) => name.clone(),
        None => String::new(),
    };
    Some(
        RawEvtxRecord {
            event_id,
            time_created,
            record_number: f.record_number,
            payload: String::new(),
            computer,
            user_name: None,
            map_description: None,
            executable_info: None,
            payload_data1: None,
            payload_data2: None,
            payload_data3: None,
            payload_data4: None,
            payload_data5: None,
            payload_data6: None,
        },
    )
}

/// Adds the event of the record at a position to the batch.
fn process_record(
    chunk: &[u8],
    pos: usize,
    templates: &Templates,
    batch: &mut Vec<SysmonEvent>,
    errors: &mut Vec<ParseError>,
    rodeo: &SharedRodeo,
)
    requires
        is_chunk(chunk@),
        record_size(chunk@, pos as int) is Some,
        templates_text(*templates) == templates_of(chunk@),
        all_held(old(batch)@, *rodeo),
    ensures
        all_held(final(batch)@, *rodeo),
        final(batch)@.len() <= old(batch)@.len() + 1,
        events_text(final(batch)@, *rodeo) == events_text(old(batch)@, *rodeo) + record_outcome(
            chunk@,
            pos as int,
        ).0,
        complaints(final(errors)@) == complaints(old(errors)@) + record_outcome(
            chunk@,
            pos as int,
        ).1,
        only_added(old(errors)@, final(errors)@),
{
    let ghost events = events_text(batch@, *rodeo);
    let ghost wrong = complaints(errors@);
    assert(events + Seq::<EventText>::empty() =~= events);
    assert(wrong + Seq::<Complaint>::empty() =~= wrong);
    let len: usize = chunk.len();
    let number: i64 = i64_at(chunk, pos + 8);
    if number < i64_at(chunk, 0x18) || number > i64_at(chunk, 0x20) {
        return ;
    }
    let record_number: u64 = u64_at(chunk, pos + 8);
    let header_time: i64 = i64_at(chunk, pos + 16);
    if let Some((offset, subs)) = parse_record_payload(chunk, pos + 24, pos) {
        if let Some(nodes) = templates.get(&offset) {
            let fields = extract_event_fields(nodes, &subs, record_number, pos, templates);
            assert(record_fields(chunk@, pos as int) == Some(fields@));
            assert(fields@.record_number == record_number) by {
                law_record_number_kept(
                    nodes_text(nodes@),
                    subs_text(subs@),
                    pos as int,
                    templates_text(*templates),
                    no_fields(record_number),
                );
            }
            match record_from_fields(&fields, header_time) {
                Some(raw) => {
                    add_record(raw, &fields.data, record_number, batch, errors, rodeo);
                    assert(events_text(batch@, *rodeo).len() == batch@.len());
                },
                None => {},
            }
        }
    }
}

/// What is known once the events of a record went to a batch.
proof fn lemma_record_taken(
    done: Seq<SysmonEvent>,
    had: Seq<SysmonEvent>,
    now: Seq<SysmonEvent>,
    first: Seq<EventText>,
    later: Seq<EventText>,
    r: SharedRodeo,
)
    requires
        all_held(done + had, r),
        all_held(now, r),
        events_text(now, r) == events_text(had, r) + first,
    ensures
        all_held(done + now, r),
        events_text(done + now, r) + later == events_text(done + had, r) + (first + later),
{
    lemma_events_join(done, had, r);
    lemma_events_join(done, now, r);
    let a = events_text(done, r);
    let b = events_text(had, r);
    assert((a + (b + first)) + later =~= (a + b) + (first + later));
    assert forall|i: int| 0 <= i < (done + now).len() implies (#[trigger] (done + now)[i]).held_by(
        r,
    ) by {
        if i < done.len() {
            assert((done + had)[i] == done[i]);
        } else {
            assert(now[i - done.len()].held_by(r));
        }
    }
}

/// Reads a chunk: its events go to the batch, and each time the batch is full it
/// is handed out.
#[verifier::rlimit(40)]
pub fn process_chunk(
    chunk: &[u8],
    batch: &mut Vec<SysmonEvent>,
    errors: &mut Vec<ParseError>,
    rodeo: &SharedRodeo,
) -> (full: Vec<Vec<SysmonEvent>>)
    requires
        all_held(old(batch)@, *rodeo),
        old(batch)@.len() < BATCH_SIZE,
    ensures
        all_held(flat(full@) + final(batch)@, *rodeo),
        events_text(flat(full@) + final(batch)@, *rodeo) == events_text(old(batch)@, *rodeo)
            + chunk_outcome(chunk@).0,
        complaints(final(errors)@) == complaints(old(errors)@) + chunk_outcome(chunk@).1,
        only_added(old(errors)@, final(errors)@),
        all_full(full@),
        final(batch)@.len() < BATCH_SIZE,
{
    let mut full: Vec<Vec<SysmonEvent>> = Vec::new();
    let ghost outcome = chunk_outcome(chunk@);
    let ghost events = events_text(batch@, *rodeo);
    let ghost wrong = complaints(errors@);
    assert(flat(full@) =~= Seq::empty());
    assert(flat(full@) + batch@ =~= batch@);
    assert(events + Seq::<EventText>::empty() =~= events);
    assert(wrong + Seq::<Complaint>::empty() =~= wrong);
    let len: usize = chunk.len();
    if len < 0x200 || u64_at(chunk, 0) != CHUNK_SIG || i64_at(chunk, 0x18) == -1 {
        return full;
    }
    let table_offset: usize = u32_at(chunk, 0x28) as usize;
    let last_record: usize = u32_at(chunk, 0x2c) as usize;
    let mut strings = build_string_table(chunk, table_offset);
    let templates = parse_templates(chunk, &mut strings);
    if len < table_offset || len - table_offset < 0x180 {
        assert(outcome_from(chunk@, records_start(chunk@)).0 =~= Seq::empty());
        assert(outcome_from(chunk@, records_start(chunk@)).1 =~= Seq::empty());
        return full;
    }
    let mut pos: usize = table_offset + 0x180;
    loop
        invariant
            is_chunk(chunk@),
            outcome == chunk_outcome(chunk@),
            events == events_text(old(batch)@, *rodeo),
            wrong == complaints(old(errors)@),
            len == chunk@.len(),
            pos <= len,
            last_record == word32(chunk@, 0x2c),
            templates_text(templates) == templates_of(chunk@),
            all_held(flat(full@) + batch@, *rodeo),
            all_full(full@),
            batch@.len() < BATCH_SIZE,
            events_text(flat(full@) + batch@, *rodeo) + outcome_from(chunk@, pos as int).0
                == events + outcome.0,
            complaints(errors@) + outcome_from(chunk@, pos as int).1 == wrong + outcome.1,
            only_added(old(errors)@, errors@),
        decreases len - pos,
    {
        let ghost rest = outcome_from(chunk@, pos as int);
        if len - pos < 8 || pos > last_record || u32_at(chunk, pos) != RECORD_SIG {
            assert(rest.0 =~= Seq::empty() && rest.1 =~= Seq::empty());
            assert(events_text(flat(full@) + batch@, *rodeo) =~= events + outcome.0);
            assert(complaints(errors@) =~= wrong + outcome.1);
            return full;
        }
        let size: usize = u32_at(chunk, pos + 4) as usize;
        if size < 24 || len - pos < size {
            assert(rest.0 =~= Seq::empty() && rest.1 =~= Seq::empty());
            assert(events_text(flat(full@) + batch@, *rodeo) =~= events + outcome.0);
            assert(complaints(errors@) =~= wrong + outcome.1);
            return full;
        }
        let ghost done = flat(full@);
        let ghost had = batch@;
        let ghost first = record_outcome(chunk@, pos as int);
        let ghost later = outcome_from(chunk@, pos + size);
        assert forall|i: int| 0 <= i < had.len() implies (#[trigger] had[i]).held_by(*rodeo) by {
            assert(had[i] == (done + had)[done.len() + i]);
        }
        let ghost said = complaints(errors@);
        process_record(chunk, pos, &templates, batch, errors, rodeo);
        proof {
            lemma_record_taken(done, had, batch@, first.0, later.0, *rodeo);
            assert((said + first.1) + later.1 =~= said + (first.1 + later.1));
        }
        pos = pos + size;
        let ghost grown = batch@;
        match take_full(batch) {
            Some(b) => {
                let ghost before = full@;
                full.push(b);
                assert(full@.drop_last() =~= before);
                assert(flat(full@) =~= done + grown);
                assert(flat(full@) + batch@ =~= done + grown);
            },
            None => {},
        }
    }
}

} // verus!
