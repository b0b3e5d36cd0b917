//! Little-endian numbers in byte sequences, and a cursor that reads them.

use vstd::prelude::*;
use vstd::slice::slice_subrange;

verus! {

// ---------------------------------------------------------------------------
// Numbers at a position
// ---------------------------------------------------------------------------

/// The 16-bit number at a position.
pub open spec fn word16(b: Seq<u8>, p: int) -> u16 {
    (b[p] + b[p + 1] * 0x100) as u16
}

/// The 32-bit number at a position.
pub open spec fn word32(b: Seq<u8>, p: int) -> u32 {
    (word16(b, p) + word16(b, p + 2) * 0x1_0000) as u32
}

/// The 64-bit number at a position.
pub open spec fn word64(b: Seq<u8>, p: int) -> u64 {
    (word32(b, p) + word32(b, p + 4) * 0x1_0000_0000) as u64
}

/// A 16-bit number taken as signed.
pub open spec fn signed16(v: u16) -> i16 {
    if v < 0x8000 {
        v as i16
    } else {
        (v - 0x1_0000) as i16
    }
}

/// A 32-bit number taken as signed.
pub open spec fn signed32(v: u32) -> i32 {
    if v < 0x8000_0000 {
        v as i32
    } else {
        (v - 0x1_0000_0000) as i32
    }
}

/// A 64-bit number taken as signed.
pub open spec fn signed64(v: u64) -> i64 {
    if v < 0x8000_0000_0000_0000 {
        v as i64
    } else {
        (v - 0x1_0000_0000_0000_0000) as i64
    }
}

/// The 16-bit number at a position.
pub fn u16_at(b: &[u8], p: usize) -> (v: u16)
    requires
        p + 2 <= b@.len(),
    ensures
        v == word16(b@, p as int),
{
    b[p] as u16 + b[p + 1] as u16 * 0x100
}

/// The 32-bit number at a position.
pub fn u32_at(b: &[u8], p: usize) -> (v: u32)
    requires
        p + 4 <= b@.len(),
    ensures
        v == word32(b@, p as int),
{
    let len: usize = b.len();
    assert(p + 4 <= len);
    u16_at(b, p) as u32 + u16_at(b, p + 2) as u32 * 0x1_0000
}

/// The 64-bit number at a position.
pub fn u64_at(b: &[u8], p: usize) -> (v: u64)
    requires
        p + 8 <= b@.len(),
    ensures
        v == word64(b@, p as int),
{
    let len: usize = b.len();
    assert(p + 8 <= len);
    u32_at(b, p) as u64 + u32_at(b, p + 4) as u64 * 0x1_0000_0000
}

/// A 16-bit number taken as signed.
pub fn to_i16(v: u16) -> (s: i16)
    ensures
        s == signed16(v),
{
    if v < 0x8000 {
        v as i16
    } else {
        -((0xffff - v) as i16) - 1
    }
}

/// A 32-bit number taken as signed.
pub fn to_i32(v: u32) -> (s: i32)
    ensures
        s == signed32(v),
{
    if v < 0x8000_0000 {
        v as i32
    } else {
        -((0xffff_ffff - v) as i32) - 1
    }
}

/// A 64-bit number taken as signed.
pub fn to_i64(v: u64) -> (s: i64)
    ensures
        s == signed64(v),
{
    if v < 0x8000_0000_0000_0000 {
        v as i64
    } else {
        -((0xffff_ffff_ffff_ffff - v) as i64) - 1
    }
}

/// The signed 32-bit number at a position.
pub fn i32_at(b: &[u8], p: usize) -> (v: i32)
    requires
        p + 4 <= b@.len(),
    ensures
        v == signed32(word32(b@, p as int)),
{
    to_i32(u32_at(b, p))
}

/// The signed 64-bit number at a position.
pub fn i64_at(b: &[u8], p: usize) -> (v: i64)
    requires
        p + 8 <= b@.len(),
    ensures
        v == signed64(word64(b@, p as int)),
{
    to_i64(u64_at(b, p))
}

// ---------------------------------------------------------------------------
// Reading in sequence
// ---------------------------------------------------------------------------

/// Where a cursor at `p` stands after an attempt to read `n` bytes: past them,
/// or still at `p` where they are not all there.
pub open spec fn past(b: Seq<u8>, p: int, n: int) -> int {
    if 0 <= n && p + n <= b.len() {
        p + n
    } else {
        p
    }
}

/// Where a cursor at `p` stands after skipping `n` bytes: at the end at most.
/// A size that was stored as a negative number reaches past any end.
pub open spec fn skipped(b: Seq<u8>, p: int, n: int) -> int {
    if n < 0 || p + n > b.len() {
        b.len() as int
    } else {
        p + n
    }
}

/// The byte at a position, 0 where there is none.
pub open spec fn byte_or_zero(b: Seq<u8>, p: int) -> u8 {
    if p + 1 <= b.len() {
        b[p]
    } else {
        0
    }
}

/// The 16-bit number at a position, 0 where there is none.
pub open spec fn word16_or_zero(b: Seq<u8>, p: int) -> u16 {
    if p + 2 <= b.len() {
        word16(b, p)
    } else {
        0
    }
}

/// A cursor over bytes. It never stands past their end.
pub struct Cur<'a> {
    pub buf: &'a [u8],
    pub pos: usize,
}

impl<'a> Cur<'a> {
    /// The cursor stands within the bytes or at their end.
    pub open spec fn wf(&self) -> bool {
        self.pos <= self.buf@.len()
    }

    /// A cursor at a position, or at the end where the position lies past it.
    pub fn new(buf: &'a [u8], pos: usize) -> (c: Self)
        ensures
            c.wf(),
            c.buf@ == buf@,
            c.pos == skipped(buf@, 0, pos as int),
    {
        let at: usize = if pos <= buf.len() {
            pos
        } else {
            buf.len()
        };
        Cur { buf, pos: at }
    }

    /// The number of bytes after the cursor.
    pub fn remaining(&self) -> (n: usize)
        requires
            self.wf(),
        ensures
            n == self.buf@.len() - self.pos,
    {
        self.buf.len() - self.pos
    }

    /// Reads one byte.
    pub fn read_u8(&mut self) -> (r: Option<u8>)
        requires
            old(self).wf(),
        ensures
            final(self).wf(),
            final(self).buf@ == old(self).buf@,
            final(self).pos == past(old(self).buf@, old(self).pos as int, 1),
            r is Some == (old(self).pos + 1 <= old(self).buf@.len()),
            r matches Some(v) ==> v == old(self).buf@[old(self).pos as int],
    {
        if self.buf.len() - self.pos < 1 {
            return None;
        }
        let v: u8 = self.buf[self.pos];
        self.pos += 1;
        Some(v)
    }

    /// Reads a 16-bit number.
    pub fn read_u16(&mut self) -> (r: Option<u16>)
        requires
            old(self).wf(),
        ensures
            final(self).wf(),
            final(self).buf@ == old(self).buf@,
            final(self).pos == past(old(self).buf@, old(self).pos as int, 2),
            r is Some == (old(self).pos + 2 <= old(self).buf@.len()),
            r matches Some(v) ==> v == word16(old(self).buf@, old(self).pos as int),
    {
        if self.buf.len() - self.pos < 2 {
            return None;
        }
        let v: u16 = u16_at(self.buf, self.pos);
        self.pos += 2;
        Some(v)
    }

    /// Reads a 32-bit number.
    pub fn read_u32(&mut self) -> (r: Option<u32>)
        requires
            old(self).wf(),
        ensures
            final(self).wf(),
            final(self).buf@ == old(self).buf@,
            final(self).pos == past(old(self).buf@, old(self).pos as int, 4),
            r is Some == (old(self).pos + 4 <= old(self).buf@.len()),
            r matches Some(v) ==> v == word32(old(self).buf@, old(self).pos as int),
    {
        if self.buf.len() - self.pos < 4 {
            return None;
        }
        let v: u32 = u32_at(self.buf, self.pos);
        self.pos += 4;
        Some(v)
    }

    /// Reads a signed 32-bit number.
    pub fn read_i32(&mut self) -> (r: Option<i32>)
        requires
            old(self).wf(),
        ensures
            final(self).wf(),
            final(self).buf@ == old(self).buf@,
            final(self).pos == past(old(self).buf@, old(self).pos as int, 4),
            r is Some == (old(self).pos + 4 <= old(self).buf@.len()),
            r matches Some(v) ==> v == signed32(word32(old(self).buf@, old(self).pos as int)),
    {
        match self.read_u32() {
            Some(v) => Some(to_i32(v)),
            None => None,
        }
    }

    /// Reads `n` bytes; none at all where fewer are left.
    pub fn read_bytes(&mut self, n: usize) -> (r: Option<&'a [u8]>)
        requires
            old(self).wf(),
        ensures
            final(self).wf(),
            final(self).buf@ == old(self).buf@,
            final(self).pos == past(old(self).buf@, old(self).pos as int, n as int),
            r is Some == (old(self).pos + n <= old(self).buf@.len()),
            r matches Some(v) ==> v@ == old(self).buf@.subrange(
                old(self).pos as int,
                old(self).pos + n,
            ),
    {
        if self.buf.len() - self.pos < n {
            return None;
        }
        let v: &'a [u8] = slice_subrange(self.buf, self.pos, self.pos + n);
        self.pos += n;
        Some(v)
    }

    /// Skips a number of bytes that was stored as a signed number.
    pub fn skip(&mut self, n: i32)
        requires
            old(self).wf(),
        ensures
            final(self).wf(),
            final(self).buf@ == old(self).buf@,
            final(self).pos == skipped(old(self).buf@, old(self).pos as int, n as int),
    {
        if n < 0 || self.buf.len() - self.pos < n as usize {
            self.pos = self.buf.len();
        } else {
            self.pos += n as usize;
        }
    }
}

/// Reading and skipping never move a cursor back.
pub proof fn law_cursor_moves_forward(b: Seq<u8>, p: int, n: int)
    requires
        0 <= p <= b.len(),
    ensures
        p <= past(b, p, n) <= b.len(),
        p <= skipped(b, p, n) <= b.len(),
{
}

} // verus!
