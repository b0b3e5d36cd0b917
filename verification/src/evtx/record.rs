//! Event records: the template that a record refers to, its substitutions, and
//! the fields that come out of both.

use crate::evtx::bytes::{past, signed32, skipped, word16_or_zero, word32, Cur};
use vstd::prelude::*;
use vstd::slice::slice_to_vec;

verus! {

// ---------------------------------------------------------------------------
// Substitutions
// ---------------------------------------------------------------------------

/// A substitution: the type of a value and its bytes.
pub struct SubEntry<B = Vec<u8>> {
    pub vtype: u16,
    pub data: B,
}

/// A substitution with its bytes as a sequence.
pub type SubText = SubEntry<Seq<u8>>;

/// Substitutions with their bytes as sequences.
pub open spec fn subs_text(v: Seq<SubEntry>) -> Seq<SubText> {
    v.map_values(|e: SubEntry| SubEntry { vtype: e.vtype, data: e.data@ })
}

/// The sizes and types of `n` substitutions from a position on, and the position
/// after them. Numbers that are missing count as 0.
pub open spec fn descriptors_at(b: Seq<u8>, p: int, n: nat) -> (Seq<(u16, u16)>, int)
    decreases n,
{
    if n == 0 {
        (Seq::empty(), p)
    } else {
        let (front, q) = descriptors_at(b, p, (n - 1) as nat);
        let r = past(b, q, 2);
        (front.push((word16_or_zero(b, q), word16_or_zero(b, r))), past(b, r, 2))
    }
}

/// The substitutions with the given sizes and types, from a position on, and the
/// position after them. A value that does not fit is empty.
pub open spec fn values_at(b: Seq<u8>, p: int, d: Seq<(u16, u16)>) -> (Seq<SubText>, int)
    decreases d.len(),
{
    if d.len() == 0 {
        (Seq::empty(), p)
    } else {
        let (front, q) = values_at(b, p, d.drop_last());
        let size = d.last().0 as int;
        let data = if q + size <= b.len() {
            b.subrange(q, q + size)
        } else {
            Seq::empty()
        };
        (front.push(SubEntry { vtype: d.last().1, data }), past(b, q, size))
    }
}

/// The array of `n` substitutions at a position.
pub open spec fn substitutions_at(b: Seq<u8>, p: int, n: nat) -> Seq<SubText> {
    let (d, q) = descriptors_at(b, p, n);
    values_at(b, q, d).0
}

/// The position after an array of `n` substitutions.
pub open spec fn past_substitutions(b: Seq<u8>, p: int, n: nat) -> int {
    let (d, q) = descriptors_at(b, p, n);
    values_at(b, q, d).1
}

/// Descriptors lie within the bytes.
proof fn lemma_descriptors(b: Seq<u8>, p: int, n: nat)
    requires
        0 <= p <= b.len(),
    ensures
        p <= descriptors_at(b, p, n).1 <= b.len(),
        descriptors_at(b, p, n).0.len() == n,
    decreases n,
{
    if n > 0 {
        lemma_descriptors(b, p, (n - 1) as nat);
    }
}

/// Values lie within the bytes.
proof fn lemma_values(b: Seq<u8>, p: int, d: Seq<(u16, u16)>)
    requires
        0 <= p <= b.len(),
    ensures
        p <= values_at(b, p, d).1 <= b.len(),
        values_at(b, p, d).0.len() == d.len(),
        forall|i: int|
            0 <= i < d.len() ==> (#[trigger] values_at(b, p, d).0[i]).data.len() <= b.len() - p,
    decreases d.len(),
{
    if d.len() > 0 {
        lemma_values(b, p, d.drop_last());
        let v = values_at(b, p, d).0;
        let front = values_at(b, p, d.drop_last()).0;
        assert forall|i: int| 0 <= i < d.len() implies (#[trigger] v[i]).data.len() <= b.len() - p by {
            if i < front.len() {
                assert(v[i] == front[i]);
            }
        }
    }
}

/// There are as many substitutions as were asked for, and none is longer than
/// what follows the start of the array.
pub proof fn law_substitutions_fit(b: Seq<u8>, p: int, n: nat)
    requires
        0 <= p <= b.len(),
    ensures
        substitutions_at(b, p, n).len() == n,
        forall|i: int|
            0 <= i < n ==> (#[trigger] substitutions_at(b, p, n)[i]).data.len() <= b.len() - p,
{
    lemma_descriptors(b, p, n);
    let (d, q) = descriptors_at(b, p, n);
    lemma_values(b, q, d);
}

/// Reads an array of `count` substitutions.
pub fn read_substitutions(cur: &mut Cur, count: usize) -> (subs: Vec<SubEntry>)
    requires
        old(cur).wf(),
    ensures
        final(cur).wf(),
        final(cur).buf@ == old(cur).buf@,
        subs_text(subs@) == substitutions_at(old(cur).buf@, old(cur).pos as int, count as nat),
        final(cur).pos == past_substitutions(old(cur).buf@, old(cur).pos as int, count as nat),
{
    let ghost b = cur.buf@;
    let ghost p = cur.pos as int;
    let mut found: Vec<(u16, u16)> = Vec::new();
    let mut i: usize = 0;
    while i < count
        invariant
            i <= count,
            cur.wf(),
            cur.buf@ == b,
            found@ == descriptors_at(b, p, i as nat).0,
            cur.pos == descriptors_at(b, p, i as nat).1,
        decreases count - i,
    {
        let size: u16 = match cur.read_u16() {
            Some(v) => v,
            None => 0,
        };
        let vtype: u16 = match cur.read_u16() {
            Some(v) => v,
            None => 0,
        };
        found.push((size, vtype));
        i += 1;
    }
    let ghost q = cur.pos as int;
    let ghost d = found@;
    let mut subs: Vec<SubEntry> = Vec::new();
    let mut j: usize = 0;
    assert(d.take(0) =~= Seq::empty());
    assert(subs_text(subs@) =~= Seq::empty());
    while j < found.len()
        invariant
            j <= found.len(),
            cur.wf(),
            cur.buf@ == b,
            d == found@,
            subs_text(subs@) == values_at(b, q, d.take(j as int)).0,
            cur.pos == values_at(b, q, d.take(j as int)).1,
        decreases found.len() - j,
    {
        let ghost before = subs@;
        let (size, vtype) = found[j];
        assert(d.take(j + 1).drop_last() =~= d.take(j as int));
        assert(d.take(j + 1).last() == (size, vtype));
        let data: Vec<u8> = match cur.read_bytes(size as usize) {
            Some(bytes) => slice_to_vec(bytes),
            None => Vec::new(),
        };
        subs.push(SubEntry { vtype, data });
        assert(subs_text(subs@) =~= subs_text(before).push(SubEntry { vtype, data: data@ }));
        assert(subs_text(subs@) =~= values_at(b, q, d.take(j + 1)).0);
        j += 1;
    }
    assert(d.take(d.len() as int) =~= d);
    subs
}

// ---------------------------------------------------------------------------
// Template instances
// ---------------------------------------------------------------------------

/// The template instance at a position: the offset of its template and its
/// substitutions. A template at or after the record is defined in place, and its
/// definition is skipped. None where the instance is cut short or counts fewer
/// than no substitutions.
pub open spec fn instance_at(b: Seq<u8>, p: int, record: int) -> Option<(i32, Seq<SubText>)> {
    let q = past(b, past(b, p, 1), 4);
    if q + 4 > b.len() {
        None
    } else {
        let offset = signed32(word32(b, q));
        let r = q + 4;
        let after = if 0 <= offset < record {
            Some(r)
        } else {
            let s = skipped(b, past(b, r, 4), 16);
            if s + 4 > b.len() {
                None
            } else {
                Some(skipped(b, s + 4, signed32(word32(b, s)) as int))
            }
        };
        match after {
            None => None,
            Some(t) => if t + 4 > b.len() {
                None
            } else {
                let count = signed32(word32(b, t));
                if count < 0 {
                    None
                } else {
                    Some((offset, substitutions_at(b, t + 4, count as nat)))
                }
            },
        }
    }
}

/// Reads a template instance from after its opcode.
pub fn read_instance(from: Cur, record: usize) -> (r: Option<(i32, Vec<SubEntry>)>)
    requires
        from.wf(),
    ensures
        match r {
            Some((offset, subs)) => instance_at(from.buf@, from.pos as int, record as int) == Some(
                (offset, subs_text(subs@)),
            ),
            None => instance_at(from.buf@, from.pos as int, record as int) is None,
        },
{
    let mut cur = from;
    let _version = cur.read_u8();
    let _id = cur.read_i32();
    let offset: i32 = match cur.read_i32() {
        Some(v) => v,
        None => {
            return None;
        },
    };
    if !(offset >= 0 && (offset as usize) < record) {
        let _next = cur.read_i32();
        cur.skip(16);
        let size: i32 = match cur.read_i32() {
            Some(v) => v,
            None => {
                return None;
            },
        };
        cur.skip(size);
    }
    let count: i32 = match cur.read_i32() {
        Some(v) => v,
        None => {
            return None;
        },
    };
    if count < 0 {
        return None;
    }
    Some((offset, read_substitutions(&mut cur, count as usize)))
}

/// The template instance of a record's payload: the start of a stream, three
/// bytes of version and flags, and an instance.
pub open spec fn payload_at(c: Seq<u8>, p: int, record: int) -> Option<(i32, Seq<SubText>)> {
    let q = skipped(c, p + 1, 3);
    if p + 1 > c.len() || c[p] != 0x0f || q + 1 > c.len() || c[q] != 0x0c {
        None
    } else {
        instance_at(c, q + 1, record)
    }
}

/// Reads the payload of a record.
pub fn parse_record_payload(chunk: &[u8], payload_start: usize, record: usize) -> (r: Option<
    (i32, Vec<SubEntry>),
>)
    requires
        payload_start <= chunk@.len(),
    ensures
        match r {
            Some((offset, subs)) => payload_at(
                chunk@,
                payload_start as int,
                record as int,
            ) == Some((offset, subs_text(subs@))),
            None => payload_at(chunk@, payload_start as int, record as int) is None,
        },
{
    let mut cur = Cur::new(chunk, payload_start);
    match cur.read_u8() {
        Some(0x0f) => {},
        _ => {
            return None;
        },
    }
    cur.skip(3);
    match cur.read_u8() {
        Some(0x0c) => {},
        _ => {
            return None;
        },
    }
    read_instance(cur, record)
}

} // verus!
