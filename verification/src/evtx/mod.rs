//! Native reader of Windows event logs (.evtx).
//!
//! Event log files are read directly and give the same stream of events as the
//! exported text formats.

pub mod binxml;
pub mod bytes;
pub mod chunk;
pub mod fields;
pub mod record;
pub mod templates;
pub mod value;

use crate::event::{EventText, SysmonEvent};
use crate::evtx::bytes::{u16_at, u64_at, word16, word64};
use crate::evtx::chunk::{
    all_full, chunk_outcome, flat, in_batches, lemma_events_join, process_chunk,
};
use crate::interner::SharedRodeo;
use crate::parser::{all_held, events_text, BATCH_SIZE};
use crate::types::{complaints, only_added, Complaint, ParseError};
use vstd::prelude::*;
use vstd::slice::slice_subrange;

verus! {

/// The signature of an event log file: "ElfFile" and a NUL.
pub const FILE_SIG: u64 = 0x00656C6946666C45;

/// The size of the file header.
pub const FILE_HEADER_SIZE: usize = 0x1000;

/// The size of a chunk.
pub const CHUNK_SIZE: usize = 0x10000;

/// Why bytes are no event log file.
#[derive(Debug, Clone, Copy, PartialEq, Eq, Structural)]
pub enum EvtxError {
    /// They are shorter than a file header.
    TooSmall,
    /// They do not begin with the signature.
    BadSignature,
}

/// What is wrong with the header of a file.
pub open spec fn header_error(data: Seq<u8>) -> Option<EvtxError> {
    if data.len() < FILE_HEADER_SIZE {
        Some(EvtxError::TooSmall)
    } else if word64(data, 0) != FILE_SIG {
        Some(EvtxError::BadSignature)
    } else {
        None
    }
}

/// The bytes of a chunk; the last one may be cut short.
pub open spec fn chunk_at(data: Seq<u8>, i: int) -> Option<Seq<u8>> {
    let start = FILE_HEADER_SIZE + i * CHUNK_SIZE;
    if start >= data.len() {
        None
    } else if start + CHUNK_SIZE <= data.len() {
        Some(data.subrange(start, start + CHUNK_SIZE))
    } else {
        Some(data.subrange(start, data.len() as int))
    }
}

/// The events and complaints of the first `n` chunks of a file.
pub open spec fn chunks_outcome(data: Seq<u8>, n: nat) -> (Seq<EventText>, Seq<Complaint>)
    decreases n,
{
    if n == 0 {
        (Seq::empty(), Seq::empty())
    } else {
        let front = chunks_outcome(data, (n - 1) as nat);
        match chunk_at(data, n - 1) {
            Some(c) => (front.0 + chunk_outcome(c).0, front.1 + chunk_outcome(c).1),
            None => front,
        }
    }
}

/// The events and complaints of a file: those of as many chunks as its header
/// counts.
pub open spec fn file_outcome(data: Seq<u8>) -> (Seq<EventText>, Seq<Complaint>) {
    chunks_outcome(data, word16(data, 0x2a) as nat)
}

/// Past the last chunk there is nothing more to read.
proof fn lemma_no_more_chunks(data: Seq<u8>, n: nat, m: nat)
    requires
        n <= m,
        chunk_at(data, n as int) is None,
    ensures
        chunks_outcome(data, m) == chunks_outcome(data, n),
    decreases m,
{
    if n < m {
        lemma_no_more_chunks(data, n, (m - 1) as nat);
        assert(chunk_at(data, m - 1) is None) by {
            assert(FILE_HEADER_SIZE + n * CHUNK_SIZE <= FILE_HEADER_SIZE + (m - 1) * CHUNK_SIZE);
        }
    }
}

/// Reads an event log file chunk by chunk.
pub struct EvtxReader {
    /// The number of chunks that the header counts.
    pub chunk_count: usize,
    /// The next chunk to read.
    pub next: usize,
    /// Events that do not fill a batch yet.
    pub batch: Vec<SysmonEvent>,
}

/// What the reading of one chunk gives.
pub struct ChunkRead {
    /// The number of bytes read.
    pub bytes: usize,
    /// The batches that are full.
    pub full: Vec<Vec<SysmonEvent>>,
}

impl EvtxReader {
    /// The reader fits the file, has not run past its chunks, and holds less than
    /// a batch of events of the interner.
    pub open spec fn wf(&self, data: Seq<u8>, r: SharedRodeo) -> bool {
        &&& header_error(data) is None
        &&& self.chunk_count == word16(data, 0x2a)
        &&& self.next <= self.chunk_count
        &&& self.batch@.len() < BATCH_SIZE
        &&& all_held(self.batch@, r)
    }

    /// Checks the header of a file.
    pub fn open(data: &[u8]) -> (r: Result<EvtxReader, EvtxError>)
        ensures
            match r {
                Ok(e) => header_error(data@) is None && e.next == 0 && e.batch@.len() == 0 && e
                    .chunk_count == word16(data@, 0x2a),
                Err(e) => header_error(data@) == Some(e),
            },
    {
        if data.len() < FILE_HEADER_SIZE {
            return Err(EvtxError::TooSmall);
        }
        if u64_at(data, 0) != FILE_SIG {
            return Err(EvtxError::BadSignature);
        }
        let chunk_count: usize = u16_at(data, 0x2a) as usize;
        Ok(EvtxReader { chunk_count, next: 0, batch: Vec::new() })
    }

    /// Reads the next chunk; none where the chunks or the bytes have run out.
    pub fn step(
        &mut self,
        data: &[u8],
        errors: &mut Vec<ParseError>,
        rodeo: &SharedRodeo,
    ) -> (r: Option<ChunkRead>)
        requires
            old(self).wf(data@, *rodeo),
        ensures
            final(self).wf(data@, *rodeo),
            final(self).chunk_count == old(self).chunk_count,
            match r {
                Some(read) => {
                    &&& old(self).next < old(self).chunk_count
                    &&& final(self).next == old(self).next + 1
                    &&& chunk_at(data@, old(self).next as int) matches Some(c)
                    &&& read.bytes == c.len()
                    &&& all_full(read.full@)
                    &&& all_held(flat(read.full@) + final(self).batch@, *rodeo)
                    &&& events_text(flat(read.full@) + final(self).batch@, *rodeo)
                        == events_text(old(self).batch@, *rodeo) + chunk_outcome(c).0
                    &&& complaints(final(errors)@) == complaints(old(errors)@) + chunk_outcome(c).1
                    &&& only_added(old(errors)@, final(errors)@)
                },
                None => {
                    &&& old(self).next == old(self).chunk_count || chunk_at(
                        data@,
                        old(self).next as int,
                    ) is None
                    &&& final(self).next == old(self).next
                    &&& final(self).batch@ == old(self).batch@
                    &&& final(errors)@ == old(errors)@
                },
            },
    {
        if self.next >= self.chunk_count {
            return None;
        }
        let len: usize = data.len();
        if (len - FILE_HEADER_SIZE) / CHUNK_SIZE < self.next {
            return None;
        }
        let start: usize = FILE_HEADER_SIZE + self.next * CHUNK_SIZE;
        if start >= len {
            return None;
        }
        let end: usize = if len - start < CHUNK_SIZE {
            len
        } else {
            start + CHUNK_SIZE
        };
        let chunk = slice_subrange(data, start, end);
        let full = process_chunk(chunk, &mut self.batch, errors, rodeo);
        self.next += 1;
        proof {
            let all = flat(full@) + self.batch@;
            assert forall|i: int| 0 <= i < self.batch@.len() implies (
            #[trigger] self.batch@[i]).held_by(*rodeo) by {
                assert(all[flat(full@).len() + i] == self.batch@[i]);
            }
        }
        Some(ChunkRead { bytes: end - start, full })
    }

    /// Hands out the events that are left, where there are any.
    pub fn finish(self) -> (r: Option<Vec<SysmonEvent>>)
        ensures
            match r {
                Some(b) => b@ == self.batch@ && self.batch@.len() > 0,
                None => self.batch@.len() == 0,
            },
    {
        if self.batch.len() > 0 {
            Some(self.batch)
        } else {
            None
        }
    }
}

/// The events of two lists of batches joined.
proof fn lemma_flat_join(a: Seq<Vec<SysmonEvent>>, b: Seq<Vec<SysmonEvent>>)
    ensures
        flat(a + b) == flat(a) + flat(b),
    decreases b.len(),
{
    if b.len() == 0 {
        assert(a + b =~= a);
        assert(flat(a) + flat(b) =~= flat(a));
    } else {
        lemma_flat_join(a, b.drop_last());
        assert((a + b).drop_last() =~= a + b.drop_last());
        assert(flat(a + b) =~= flat(a) + flat(b));
    }
}

/// Reads all events of an event log file, in batches. Only Sysmon events are
/// given out. All batches but the last are full, and none is empty.
pub fn parse_evtx_bytes(data: &[u8], errors: &mut Vec<ParseError>, rodeo: &SharedRodeo) -> (r:
    Result<Vec<Vec<SysmonEvent>>, EvtxError>)
    ensures
        match r {
            Ok(batches) => {
                &&& header_error(data@) is None
                &&& all_held(flat(batches@), *rodeo)
                &&& events_text(flat(batches@), *rodeo) == file_outcome(data@).0
                &&& complaints(final(errors)@) == complaints(old(errors)@) + file_outcome(data@).1
                &&& only_added(old(errors)@, final(errors)@)
                &&& in_batches(batches@)
            },
            Err(e) => header_error(data@) == Some(e) && final(errors)@ == old(errors)@,
        },
{
    let mut reader = match EvtxReader::open(data) {
        Ok(reader) => reader,
        Err(e) => {
            return Err(e);
        },
    };
    let mut batches: Vec<Vec<SysmonEvent>> = Vec::new();
    let ghost wrong = complaints(errors@);
    assert(flat(batches@) + reader.batch@ =~= Seq::empty());
    assert(events_text(flat(batches@) + reader.batch@, *rodeo) =~= Seq::empty());
    assert(wrong + Seq::<Complaint>::empty() =~= wrong);
    loop
        invariant
            reader.wf(data@, *rodeo),
            wrong == complaints(old(errors)@),
            all_full(batches@),
            all_held(flat(batches@) + reader.batch@, *rodeo),
            events_text(flat(batches@) + reader.batch@, *rodeo) == chunks_outcome(
                data@,
                reader.next as nat,
            ).0,
            complaints(errors@) == wrong + chunks_outcome(data@, reader.next as nat).1,
            only_added(old(errors)@, errors@),
        ensures
            reader.batch@.len() < BATCH_SIZE,
            header_error(data@) is None,
            wrong == complaints(old(errors)@),
            all_full(batches@),
            all_held(flat(batches@) + reader.batch@, *rodeo),
            events_text(flat(batches@) + reader.batch@, *rodeo) == file_outcome(data@).0,
            complaints(errors@) == wrong + file_outcome(data@).1,
            only_added(old(errors)@, errors@),
        decreases reader.chunk_count - reader.next,
    {
        let ghost n = reader.next as nat;
        let ghost had = flat(batches@);
        let ghost kept = reader.batch@;
        let ghost said = chunks_outcome(data@, n).1;
        match reader.step(data, errors, rodeo) {
            None => {
                proof {
                    if n < reader.chunk_count {
                        lemma_no_more_chunks(data@, n, reader.chunk_count as nat);
                    }
                }
                break;
            },
            Some(read) => {
                let mut full = read.full;
                let ghost more = full@;
                let ghost before = batches@;
                let ghost c = chunk_at(data@, n as int)->Some_0;
                batches.append(&mut full);
                proof {
                    assert(batches@ =~= before + more);
                    lemma_flat_join(before, more);
                    let tail = flat(more) + reader.batch@;
                    assert(flat(batches@) + reader.batch@ =~= had + tail);
                    lemma_events_join(had, kept, *rodeo);
                    lemma_events_join(had, tail, *rodeo);
                    let e0 = events_text(had, *rodeo);
                    let e1 = events_text(kept, *rodeo);
                    assert(e0 + (e1 + chunk_outcome(c).0) =~= (e0 + e1) + chunk_outcome(c).0);
                    assert((wrong + said) + chunk_outcome(c).1 =~= wrong + (said + chunk_outcome(
                        c,
                    ).1));
                    assert forall|i: int| 0 <= i < (had + tail).len() implies (#[trigger] (had
                        + tail)[i]).held_by(*rodeo) by {
                        if i < had.len() {
                            assert((had + kept)[i] == had[i]);
                        } else {
                            assert(tail[i - had.len()].held_by(*rodeo));
                        }
                    }
                    assert forall|i: int| 0 <= i < batches@.len() implies (
                    #[trigger] batches@[i])@.len() == BATCH_SIZE by {
                        if i < before.len() {
                            assert(batches@[i] == before[i]);
                        } else {
                            assert(batches@[i] == more[i - before.len()]);
                        }
                    }
                }
            },
        }
    }
    let ghost all = flat(batches@) + reader.batch@;
    let ghost before = batches@;
    match reader.finish() {
        Some(rest) => {
            batches.push(rest);
            assert(batches@.drop_last() =~= before);
            assert(flat(batches@) =~= all);
        },
        None => {
            assert(all =~= flat(batches@));
            assert(batches@.len() > 0 ==> batches@.last()@.len() == BATCH_SIZE);
        },
    }
    Ok(batches)
}

} // verus!
