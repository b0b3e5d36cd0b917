//! Binary XML: the templates of events as flat lists of nodes.

use crate::evtx::bytes::{
    byte_or_zero, past, signed16, signed32, skipped, to_i16, u16_at, word16, word16_or_zero, word32,
    Cur,
};
use crate::utf16::{decode_utf16le, utf16le_text};
use std::collections::HashMap;
use vstd::prelude::*;
use vstd::slice::slice_subrange;

verus! {

broadcast use vstd::std_specs::hash::group_hash_axioms;

// ---------------------------------------------------------------------------
// Nodes
// ---------------------------------------------------------------------------

/// A value in a template: literal text, or a reference into the substitutions.
pub enum TValue<S = String> {
    Literal(S),
    Sub { id: u16, vtype: u16, optional: bool },
}

/// A flat node of a template.
pub enum TNode<S = String> {
    /// The start of an element.
    OpenElem(S),
    /// An attribute of the element that was opened last.
    Attr(S, TValue<S>),
    /// The end of an element without content.
    CloseEmpty,
    /// The end of an element.
    CloseElem,
    /// Text content.
    Text(TValue<S>),
}

/// A node as text.
pub type NodeText = TNode<Seq<char>>;

impl TValue {
    /// The value as text.
    pub open spec fn view(&self) -> TValue<Seq<char>> {
        match self {
            TValue::Literal(s) => TValue::Literal(s@),
            TValue::Sub { id, vtype, optional } => TValue::Sub {
                id: *id,
                vtype: *vtype,
                optional: *optional,
            },
        }
    }
}

impl TNode {
    /// The node as text.
    pub open spec fn view(&self) -> NodeText {
        match self {
            TNode::OpenElem(s) => TNode::OpenElem(s@),
            TNode::Attr(s, v) => TNode::Attr(s@, v@),
            TNode::CloseEmpty => TNode::CloseEmpty,
            TNode::CloseElem => TNode::CloseElem,
            TNode::Text(v) => TNode::Text(v@),
        }
    }
}

/// A list of nodes as text.
pub open spec fn nodes_text(v: Seq<TNode>) -> Seq<NodeText> {
    v.map_values(|n: TNode| n@)
}

// ---------------------------------------------------------------------------
// Names
// ---------------------------------------------------------------------------

/// The name stored at an offset: four bytes and a hash, the number of UTF-16
/// units, and the units themselves.
pub open spec fn string_at(b: Seq<u8>, offset: int) -> Option<Seq<char>> {
    if offset + 8 > b.len() {
        None
    } else {
        let end = offset + 8 + word16(b, offset + 6) * 2;
        if end > b.len() {
            None
        } else {
            Some(utf16le_text(b.subrange(offset + 8, end)))
        }
    }
}

/// Names already read, by their offset.
pub type Strings = HashMap<u32, String>;

/// Every name kept stands in the bytes at its offset.
pub open spec fn coherent(strings: Strings, b: Seq<u8>) -> bool {
    forall|k: u32| #[trigger]
        strings@.contains_key(k) ==> string_at(b, k as int) == Some(strings@[k]@)
}

/// Whether names were kept and others may have been added.
pub open spec fn keeps(before: Strings, after: Strings) -> bool {
    before@.dom().subset_of(after@.dom())
}

/// The name stored at an offset, read from the bytes.
pub fn read_string(b: &[u8], offset: u32) -> (r: Option<String>)
    ensures
        crate::text::opt_text(r) == string_at(b@, offset as int),
{
    let i: usize = offset as usize;
    let len: usize = b.len();
    if i > len || len - i < 8 {
        return None;
    }
    let size: usize = u16_at(b, i + 6) as usize * 2;
    if len - i - 8 < size {
        return None;
    }
    Some(decode_utf16le(slice_subrange(b, i + 8, i + 8 + size)))
}

/// The name stored at an offset, through the names already read, to which it is
/// added.
pub fn get_string(b: &[u8], strings: &mut Strings, offset: u32) -> (r: Option<String>)
    requires
        coherent(*old(strings), b@),
    ensures
        coherent(*final(strings), b@),
        final(strings)@.dom() == if string_at(b@, offset as int) is Some {
            old(strings)@.dom().insert(offset)
        } else {
            old(strings)@.dom()
        },
        crate::text::opt_text(r) == string_at(b@, offset as int),
{
    if let Some(s) = strings.get(&offset) {
        return Some(s.clone());
    }
    match read_string(b, offset) {
        Some(s) => {
            strings.insert(offset, s.clone());
            Some(s)
        },
        None => None,
    }
}

// ---------------------------------------------------------------------------
// Values and attributes
// ---------------------------------------------------------------------------

/// The literal value at a position: its text where it is a string, and the
/// position after it.
pub open spec fn literal_at(b: Seq<u8>, p: int) -> (Option<Seq<char>>, int) {
    let q = past(b, p, 1);
    let size = signed16(word16_or_zero(b, q));
    let r = past(b, q, 2);
    if byte_or_zero(b, p) == 1 {
        if size >= 0 && r + size * 2 <= b.len() {
            (Some(utf16le_text(b.subrange(r, r + size * 2))), r + size * 2)
        } else {
            (Some(utf16le_text(Seq::empty())), r)
        }
    } else {
        (None, skipped(b, r, size as int))
    }
}

/// The substitution reference at a position.
pub open spec fn reference_at(b: Seq<u8>, p: int, optional: bool) -> TValue<Seq<char>> {
    TValue::Sub {
        id: word16_or_zero(b, p),
        vtype: byte_or_zero(b, past(b, p, 2)) as u16,
        optional,
    }
}

/// The position after a substitution reference.
pub open spec fn past_reference(b: Seq<u8>, p: int) -> int {
    past(b, past(b, p, 2), 1)
}

/// The position after a name whose definition may stand right here: a name
/// stored at `here` or later is defined in the stream.
pub open spec fn past_name(b: Seq<u8>, p: int, offset: u32, here: int, name: Seq<char>) -> int {
    if offset >= here {
        skipped(b, p, 10 + name.len() as int * 2)
    } else {
        p
    }
}

/// The value of an attribute and the position after it.
pub open spec fn attribute_value(b: Seq<u8>, p: int) -> (TValue<Seq<char>>, int) {
    let op = b[p];
    let q = p + 1;
    if op == 0x05 || op == 0x45 {
        let (t, r) = literal_at(b, q);
        (
            TValue::Literal(
                match t {
                    Some(s) => s,
                    None => Seq::empty(),
                },
            ),
            r,
        )
    } else if op == 0x0d || op == 0x0e {
        (reference_at(b, q, op == 0x0e), past_reference(b, q))
    } else {
        (TValue::Literal(Seq::empty()), q)
    }
}

/// The attribute at a position, if it is complete, and the position after it.
pub open spec fn attribute_at(b: Seq<u8>, p: int) -> (Seq<NodeText>, int) {
    if p + 4 > b.len() {
        (Seq::empty(), p)
    } else {
        let offset = word32(b, p);
        match string_at(b, offset as int) {
            None => (Seq::empty(), p + 4),
            Some(name) => {
                let q = past_name(b, p + 4, offset, p, name);
                if q >= b.len() {
                    (Seq::empty(), q)
                } else {
                    let (v, r) = attribute_value(b, q);
                    (seq![TNode::Attr(name, v)], r)
                }
            },
        }
    }
}

/// Reading an attribute does not move back.
pub proof fn lemma_attribute_forward(b: Seq<u8>, p: int)
    requires
        0 <= p <= b.len(),
    ensures
        p <= attribute_at(b, p).1 <= b.len(),
{
}

/// The attributes from a position up to `end`, and the position after them.
pub open spec fn attributes_at(b: Seq<u8>, p: int, end: int) -> (Seq<NodeText>, int)
    decreases b.len() - p,
{
    if p < 0 || p >= end || p >= b.len() {
        (Seq::empty(), p)
    } else if b[p] != 0x06 && b[p] != 0x46 {
        (Seq::empty(), p + 1)
    } else {
        proof {
            lemma_attribute_forward(b, p + 1);
        }
        let (first, q) = attribute_at(b, p + 1);
        let (rest, r) = attributes_at(b, q, end);
        (first + rest, r)
    }
}

/// Reading attributes does not move back.
pub proof fn lemma_attributes_forward(b: Seq<u8>, p: int, end: int)
    requires
        0 <= p <= b.len(),
    ensures
        p <= attributes_at(b, p, end).1 <= b.len(),
    decreases b.len() - p,
{
    if !(p >= end || p >= b.len()) && (b[p] == 0x06 || b[p] == 0x46) {
        lemma_attribute_forward(b, p + 1);
        lemma_attributes_forward(b, attribute_at(b, p + 1).1, end);
    }
}

// ---------------------------------------------------------------------------
// Elements
// ---------------------------------------------------------------------------

/// The end of a region of a stored size that starts at `p`: not past `end`, nor
/// past the last byte.
pub open spec fn region_end(b: Seq<u8>, p: int, size: int, end: int) -> int {
    let e = skipped(b, p, size);
    if e < end {
        e
    } else {
        end
    }
}

/// The attribute list of an element: its nodes and the position after it, or
/// none where its size is missing.
pub open spec fn attribute_list(b: Seq<u8>, p: int) -> Option<(Seq<NodeText>, int)> {
    if p + 4 > b.len() {
        None
    } else {
        let end = skipped(b, p + 4, signed32(word32(b, p)) as int);
        let (nodes, q) = attributes_at(b, p + 4, end);
        Some(
            (
                nodes,
                if q < end {
                    end
                } else {
                    q
                },
            ),
        )
    }
}

/// Adds the end of an element where its content does not end in one.
pub open spec fn closed_off(nodes: Seq<NodeText>) -> Seq<NodeText> {
    if nodes.len() > 0 && nodes.last() == TNode::<Seq<char>>::CloseElem {
        nodes
    } else {
        nodes.push(TNode::CloseElem)
    }
}

/// The element whose opening stands right before `p`: its nodes and the
/// position after it. What is missing at the end of the bytes is left out.
pub open spec fn element_at(b: Seq<u8>, p: int, has_attr: bool, end: int) -> (Seq<NodeText>, int)
    decreases b.len() - p, 1int,
{
    let s = past(b, p, 2);
    if p < 0 || p > b.len() || s + 4 > b.len() {
        (Seq::empty(), s)
    } else {
        let size = signed32(word32(b, s)) as int;
        let start = s + 4;
        if start + 4 > b.len() {
            (Seq::empty(), start)
        } else {
            let offset = word32(b, start);
            match string_at(b, offset as int) {
                None => (Seq::empty(), start + 4),
                Some(name) => {
                    let open = seq![TNode::OpenElem(name)];
                    let q = past_name(b, start + 4, offset, start, name);
                    let list = if has_attr {
                        attribute_list(b, q)
                    } else {
                        Some((Seq::empty(), q))
                    };
                    match list {
                        None => (open, q),
                        Some((attrs, r)) => {
                            if r >= b.len() {
                                (open + attrs, r)
                            } else if b[r] == 0x03 {
                                ((open + attrs).push(TNode::CloseEmpty), r + 1)
                            } else {
                                proof {
                                    if has_attr {
                                        lemma_attributes_forward(
                                            b,
                                            q + 4,
                                            skipped(b, q + 4, signed32(word32(b, q)) as int),
                                        );
                                    }
                                }
                                let (inner, t) = binxml_at(
                                    b,
                                    r + 1,
                                    region_end(b, start, size, end),
                                );
                                (closed_off(open + attrs + inner), t)
                            }
                        },
                    }
                },
            }
        }
    }
}

/// The nodes of the binary XML from a position up to `end`, and the position
/// after what was read.
pub open spec fn binxml_at(b: Seq<u8>, p: int, end: int) -> (Seq<NodeText>, int)
    decreases b.len() - p, 0int,
{
    if p < 0 || p >= end || p >= b.len() {
        (Seq::empty(), p)
    } else {
        let op = b[p];
        let q = p + 1;
        if op == 0x00 {
            (Seq::empty(), q)
        } else if op == 0x01 || op == 0x41 {
            let (first, r) = element_at(b, q, op == 0x41, end);
            if p < r <= b.len() {
                let (rest, t) = binxml_at(b, r, end);
                (first + rest, t)
            } else {
                (first, r)
            }
        } else if op == 0x04 {
            let (rest, t) = binxml_at(b, q, end);
            (seq![TNode::CloseElem] + rest, t)
        } else if op == 0x05 || op == 0x45 {
            let (text, r) = literal_at(b, q);
            let (rest, t) = binxml_at(b, r, end);
            (
                match text {
                    Some(s) => seq![TNode::Text(TValue::Literal(s))] + rest,
                    None => rest,
                },
                t,
            )
        } else if op == 0x0d || op == 0x0e {
            let (rest, t) = binxml_at(b, past_reference(b, q), end);
            (seq![TNode::Text(reference_at(b, q, op == 0x0e))] + rest, t)
        } else if op == 0x0f {
            binxml_at(b, skipped(b, q, 3), end)
        } else {
            (Seq::empty(), end)
        }
    }
}

/// Reading an element moves forward or stays.
pub proof fn law_element_moves_forward(b: Seq<u8>, p: int, has_attr: bool, end: int)
    requires
        0 <= p <= b.len(),
        end <= b.len(),
    ensures
        p <= element_at(b, p, has_attr, end).1 <= b.len(),
    decreases b.len() - p, 1int,
{
    let s = past(b, p, 2);
    if s + 8 <= b.len() {
        let size = signed32(word32(b, s)) as int;
        let start = s + 4;
        let offset = word32(b, start);
        if let Some(name) = string_at(b, offset as int) {
            let q = past_name(b, start + 4, offset, start, name);
            if has_attr && q + 4 <= b.len() {
                lemma_attributes_forward(b, q + 4, skipped(b, q + 4, signed32(word32(b, q)) as int));
            }
            let list = if has_attr {
                attribute_list(b, q)
            } else {
                Some((Seq::empty(), q))
            };
            if let Some((attrs, r)) = list {
                if r < b.len() && b[r] != 0x03 {
                    law_binxml_moves_forward(b, r + 1, region_end(b, start, size, end));
                }
            }
        }
    }
}

/// Reading binary XML moves forward or stays.
pub proof fn law_binxml_moves_forward(b: Seq<u8>, p: int, end: int)
    requires
        0 <= p <= b.len(),
        end <= b.len(),
    ensures
        p <= binxml_at(b, p, end).1 <= b.len(),
    decreases b.len() - p, 0int,
{
    if !(p >= end || p >= b.len()) {
        let op = b[p];
        let q = p + 1;
        if op == 0x01 || op == 0x41 {
            law_element_moves_forward(b, q, op == 0x41, end);
            law_binxml_moves_forward(b, element_at(b, q, op == 0x41, end).1, end);
        } else if op == 0x04 {
            law_binxml_moves_forward(b, q, end);
        } else if op == 0x05 || op == 0x45 {
            law_binxml_moves_forward(b, literal_at(b, q).1, end);
        } else if op == 0x0d || op == 0x0e {
            law_binxml_moves_forward(b, past_reference(b, q), end);
        } else if op == 0x0f {
            law_binxml_moves_forward(b, skipped(b, q, 3), end);
        }
    }
}

// ---------------------------------------------------------------------------
// Reading
// ---------------------------------------------------------------------------

/// Appending to a list of nodes appends to its text.
proof fn lemma_nodes_push(v: Seq<TNode>, n: TNode)
    ensures
        nodes_text(v.push(n)) == nodes_text(v).push(n@),
{
    assert(nodes_text(v.push(n)) =~= nodes_text(v).push(n@));
}

/// Reads a literal value; its text where it is a string.
fn read_literal(cur: &mut Cur) -> (text: Option<String>)
    requires
        old(cur).wf(),
    ensures
        final(cur).wf(),
        final(cur).buf@ == old(cur).buf@,
        crate::text::opt_text(text) == literal_at(old(cur).buf@, old(cur).pos as int).0,
        final(cur).pos == literal_at(old(cur).buf@, old(cur).pos as int).1,
{
    let vtype: u8 = match cur.read_u8() {
        Some(v) => v,
        None => 0,
    };
    let size: i16 = match cur.read_u16() {
        Some(v) => to_i16(v),
        None => 0,
    };
    if vtype == 1 {
        if size >= 0 {
            if let Some(bytes) = cur.read_bytes(size as usize * 2) {
                return Some(decode_utf16le(bytes));
            }
        }
        let none: [u8; 0] = [];
        let bytes: &[u8] = none.as_slice();
        assert(bytes@ =~= Seq::empty());
        Some(decode_utf16le(bytes))
    } else {
        cur.skip(size as i32);
        None
    }
}

/// Reads a substitution reference.
fn read_reference(cur: &mut Cur, optional: bool) -> (v: TValue)
    requires
        old(cur).wf(),
    ensures
        final(cur).wf(),
        final(cur).buf@ == old(cur).buf@,
        v@ == reference_at(old(cur).buf@, old(cur).pos as int, optional),
        final(cur).pos == past_reference(old(cur).buf@, old(cur).pos as int),
{
    let id: u16 = match cur.read_u16() {
        Some(v) => v,
        None => 0,
    };
    let vtype: u8 = match cur.read_u8() {
        Some(v) => v,
        None => 0,
    };
    TValue::Sub { id, vtype: vtype as u16, optional }
}

/// Skips the definition of a name that stands right here.
fn skip_name(cur: &mut Cur, offset: u32, here: usize, name: &str)
    requires
        old(cur).wf(),
    ensures
        final(cur).wf(),
        final(cur).buf@ == old(cur).buf@,
        final(cur).pos == past_name(
            old(cur).buf@,
            old(cur).pos as int,
            offset,
            here as int,
            name@,
        ),
{
    if offset as usize >= here {
        let count: usize = name.unicode_len();
        let rest: usize = cur.buf.len() - cur.pos;
        if count > rest || rest - count < count || rest - count - count < 10 {
            cur.pos = cur.buf.len();
        } else {
            cur.pos = cur.pos + 10 + count + count;
        }
    }
}

/// Reads one attribute.
fn parse_attribute(cur: &mut Cur, strings: &mut Strings, nodes: &mut Vec<TNode>)
    requires
        old(cur).wf(),
        coherent(*old(strings), old(cur).buf@),
    ensures
        final(cur).wf(),
        final(cur).buf@ == old(cur).buf@,
        coherent(*final(strings), old(cur).buf@),
        keeps(*old(strings), *final(strings)),
        nodes_text(final(nodes)@) == nodes_text(old(nodes)@) + attribute_at(
            old(cur).buf@,
            old(cur).pos as int,
        ).0,
        final(cur).pos == attribute_at(old(cur).buf@, old(cur).pos as int).1,
{
    let here: usize = cur.pos;
    let offset: u32 = match cur.read_u32() {
        Some(v) => v,
        None => {
            return ;
        },
    };
    let name = match get_string(cur.buf, strings, offset) {
        Some(s) => s,
        None => {
            return ;
        },
    };
    skip_name(cur, offset, here, name.as_str());
    let op: u8 = match cur.read_u8() {
        Some(v) => v,
        None => {
            return ;
        },
    };
    let value = if op == 0x05 || op == 0x45 {
        match read_literal(cur) {
            Some(s) => TValue::Literal(s),
            None => TValue::Literal(String::new()),
        }
    } else if op == 0x0d || op == 0x0e {
        read_reference(cur, op == 0x0e)
    } else {
        TValue::Literal(String::new())
    };
    let node = TNode::Attr(name, value);
    proof {
        lemma_nodes_push(nodes@, node);
    }
    nodes.push(node);
}

/// Reads the attributes of an element up to `end`.
fn parse_attributes(cur: &mut Cur, strings: &mut Strings, end: usize, nodes: &mut Vec<TNode>)
    requires
        old(cur).wf(),
        coherent(*old(strings), old(cur).buf@),
    ensures
        final(cur).wf(),
        final(cur).buf@ == old(cur).buf@,
        coherent(*final(strings), old(cur).buf@),
        keeps(*old(strings), *final(strings)),
        nodes_text(final(nodes)@) == nodes_text(old(nodes)@) + attributes_at(
            old(cur).buf@,
            old(cur).pos as int,
            end as int,
        ).0,
        final(cur).pos == attributes_at(old(cur).buf@, old(cur).pos as int, end as int).1,
{
    let ghost b = cur.buf@;
    let ghost goal = attributes_at(b, cur.pos as int, end as int);
    while cur.pos < end
        invariant
            cur.wf(),
            cur.buf@ == b,
            b == old(cur).buf@,
            goal == attributes_at(old(cur).buf@, old(cur).pos as int, end as int),
            coherent(*strings, b),
            keeps(*old(strings), *strings),
            nodes_text(old(nodes)@) + goal.0 == nodes_text(nodes@) + attributes_at(
                b,
                cur.pos as int,
                end as int,
            ).0,
            goal.1 == attributes_at(b, cur.pos as int, end as int).1,
        decreases b.len() - cur.pos,
    {
        let ghost p = cur.pos as int;
        let op: u8 = match cur.read_u8() {
            Some(v) => v,
            None => {
                assert(attributes_at(b, p, end as int).0 =~= Seq::empty());
                return ;
            },
        };
        if op != 0x06 && op != 0x46 {
            assert(attributes_at(b, p, end as int).0 =~= Seq::empty());
            return ;
        }
        proof {
            lemma_attribute_forward(b, p + 1);
        }
        let ghost before = nodes_text(nodes@);
        parse_attribute(cur, strings, nodes);
        proof {
            let first = attribute_at(b, p + 1).0;
            let rest = attributes_at(b, cur.pos as int, end as int).0;
            assert(attributes_at(b, p, end as int).0 == first + rest);
            assert(before + (first + rest) =~= nodes_text(nodes@) + rest);
        }
    }
    assert(attributes_at(b, cur.pos as int, end as int).0 =~= Seq::empty());
}

/// Where a region of a stored size from the cursor on ends, within the bytes.
fn end_of_region(cur: &Cur, from: usize, size: i32) -> (end: usize)
    requires
        cur.wf(),
        from <= cur.buf@.len(),
    ensures
        end == skipped(cur.buf@, from as int, size as int),
{
    if size < 0 || cur.buf.len() - from < size as usize {
        cur.buf.len()
    } else {
        from + size as usize
    }
}

/// Reads an element whose opening was just read.
fn parse_open_element(
    cur: &mut Cur,
    strings: &mut Strings,
    has_attr: bool,
    parent_end: usize,
    nodes: &mut Vec<TNode>,
)
    requires
        old(cur).wf(),
        parent_end <= old(cur).buf@.len(),
        coherent(*old(strings), old(cur).buf@),
    ensures
        final(cur).wf(),
        final(cur).buf@ == old(cur).buf@,
        coherent(*final(strings), old(cur).buf@),
        keeps(*old(strings), *final(strings)),
        nodes_text(final(nodes)@) == nodes_text(old(nodes)@) + element_at(
            old(cur).buf@,
            old(cur).pos as int,
            has_attr,
            parent_end as int,
        ).0,
        final(cur).pos == element_at(
            old(cur).buf@,
            old(cur).pos as int,
            has_attr,
            parent_end as int,
        ).1,
    decreases old(cur).buf@.len() - old(cur).pos, 1int,
{
    let ghost b = cur.buf@;
    let ghost p = cur.pos as int;
    let ghost before = nodes_text(nodes@);
    let ghost goal = element_at(b, p, has_attr, parent_end as int);
    let _slot = cur.read_u16();
    let size: i32 = match cur.read_i32() {
        Some(v) => v,
        None => {
            assert(goal.0 =~= Seq::empty());
            return ;
        },
    };
    let start: usize = cur.pos;
    let offset: u32 = match cur.read_u32() {
        Some(v) => v,
        None => {
            assert(goal.0 =~= Seq::empty());
            return ;
        },
    };
    let name = match get_string(cur.buf, strings, offset) {
        Some(s) => s,
        None => {
            assert(goal.0 =~= Seq::empty());
            return ;
        },
    };
    skip_name(cur, offset, start, name.as_str());
    let ghost q = cur.pos as int;
    let ghost open = seq![TNode::<Seq<char>>::OpenElem(name@)];
    let node = TNode::OpenElem(name);
    proof {
        lemma_nodes_push(nodes@, node);
    }
    nodes.push(node);
    assert(nodes_text(nodes@) =~= before + open);
    let ghost mut attrs: Seq<NodeText> = Seq::empty();
    if has_attr {
        let attr_size: i32 = match cur.read_i32() {
            Some(v) => v,
            None => {
                return ;
            },
        };
        let attr_end: usize = end_of_region(cur, cur.pos, attr_size);
        proof {
            attrs = attributes_at(b, q + 4, attr_end as int).0;
            lemma_attributes_forward(b, q + 4, attr_end as int);
        }
        parse_attributes(cur, strings, attr_end, nodes);
        if cur.pos < attr_end {
            cur.pos = attr_end;
        }
    }
    assert(nodes_text(nodes@) =~= before + (open + attrs));
    let close: u8 = match cur.read_u8() {
        Some(v) => v,
        None => {
            assert(goal.0 =~= open + attrs);
            return ;
        },
    };
    if close == 0x03 {
        let node = TNode::CloseEmpty;
        proof {
            lemma_nodes_push(nodes@, node);
        }
        nodes.push(node);
        assert(nodes_text(nodes@) =~= before + goal.0);
        return ;
    }
    let mut end: usize = end_of_region(cur, start, size);
    if parent_end < end {
        end = parent_end;
    }
    assert(end == region_end(b, start as int, size as int, parent_end as int));
    let ghost inner = binxml_at(b, cur.pos as int, end as int).0;
    let mut children = parse_binxml(cur, strings, end);
    let ghost had = nodes@;
    let ghost added = children@;
    nodes.append(&mut children);
    assert(nodes_text(nodes@) =~= nodes_text(had) + nodes_text(added));
    assert(nodes_text(nodes@) =~= before + (open + attrs + inner));
    let ghost all = open + attrs + inner;
    assert(all.len() > 0);
    assert((before + all).last() == all.last());
    assert(nodes_text(nodes@).last() == nodes@.last()@);
    let closed = match &nodes[nodes.len() - 1] {
        TNode::CloseElem => true,
        _ => false,
    };
    assert(closed == (all.last() == TNode::<Seq<char>>::CloseElem));
    if !closed {
        let node = TNode::CloseElem;
        proof {
            lemma_nodes_push(nodes@, node);
        }
        nodes.push(node);
    }
    assert(goal.0 == closed_off(all));
    assert(nodes_text(nodes@) =~= before + goal.0);
}

/// Reads binary XML from the cursor up to `end` into a flat list of nodes.
pub fn parse_binxml(cur: &mut Cur, strings: &mut Strings, end: usize) -> (nodes: Vec<TNode>)
    requires
        old(cur).wf(),
        end <= old(cur).buf@.len(),
        coherent(*old(strings), old(cur).buf@),
    ensures
        final(cur).wf(),
        final(cur).buf@ == old(cur).buf@,
        coherent(*final(strings), old(cur).buf@),
        keeps(*old(strings), *final(strings)),
        nodes_text(nodes@) == binxml_at(old(cur).buf@, old(cur).pos as int, end as int).0,
        final(cur).pos == binxml_at(old(cur).buf@, old(cur).pos as int, end as int).1,
    decreases old(cur).buf@.len() - old(cur).pos, 0int,
{
    let ghost b = cur.buf@;
    let ghost goal = binxml_at(b, cur.pos as int, end as int);
    let mut nodes: Vec<TNode> = Vec::new();
    assert(nodes_text(nodes@) + goal.0 =~= goal.0);
    while cur.pos < end
        invariant
            cur.wf(),
            cur.buf@ == b,
            b == old(cur).buf@,
            old(cur).pos <= cur.pos,
            end <= b.len(),
            goal == binxml_at(old(cur).buf@, old(cur).pos as int, end as int),
            coherent(*strings, b),
            keeps(*old(strings), *strings),
            goal.0 == nodes_text(nodes@) + binxml_at(b, cur.pos as int, end as int).0,
            goal.1 == binxml_at(b, cur.pos as int, end as int).1,
        decreases b.len() - cur.pos,
    {
        let ghost p = cur.pos as int;
        let ghost before = nodes_text(nodes@);
        let op: u8 = match cur.read_u8() {
            Some(v) => v,
            None => {
                assert(false);
                return nodes;
            },
        };
        if op == 0x00 {
            assert(binxml_at(b, p, end as int).0 =~= Seq::empty());
            assert(before + Seq::<NodeText>::empty() =~= before);
            return nodes;
        } else if op == 0x01 || op == 0x41 {
            proof {
                law_element_moves_forward(b, p + 1, op == 0x41, end as int);
            }
            parse_open_element(cur, strings, op == 0x41, end, &mut nodes);
            proof {
                let first = element_at(b, p + 1, op == 0x41, end as int).0;
                let rest = binxml_at(b, cur.pos as int, end as int).0;
                assert(binxml_at(b, p, end as int).0 == first + rest);
                assert(before + (first + rest) =~= nodes_text(nodes@) + rest);
            }
        } else if op == 0x04 {
            let node = TNode::CloseElem;
            proof {
                lemma_nodes_push(nodes@, node);
            }
            nodes.push(node);
            proof {
                let first = seq![TNode::<Seq<char>>::CloseElem];
                let rest = binxml_at(b, cur.pos as int, end as int).0;
                assert(binxml_at(b, p, end as int).0 == first + rest);
                assert(before + (first + rest) =~= nodes_text(nodes@) + rest);
            }
        } else if op == 0x05 || op == 0x45 {
            let literal = read_literal(cur);
            if let Some(s) = literal {
                let node = TNode::Text(TValue::Literal(s));
                let ghost first = seq![node@];
                proof {
                    lemma_nodes_push(nodes@, node);
                }
                nodes.push(node);
                proof {
                    let rest = binxml_at(b, cur.pos as int, end as int).0;
                    assert(binxml_at(b, p, end as int).0 == first + rest);
                    assert(before + (first + rest) =~= nodes_text(nodes@) + rest);
                }
            }
        } else if op == 0x0d || op == 0x0e {
            let node = TNode::Text(read_reference(cur, op == 0x0e));
            let ghost first = seq![node@];
            proof {
                lemma_nodes_push(nodes@, node);
            }
            nodes.push(node);
            proof {
                let rest = binxml_at(b, cur.pos as int, end as int).0;
                assert(binxml_at(b, p, end as int).0 == first + rest);
                assert(before + (first + rest) =~= nodes_text(nodes@) + rest);
            }
        } else if op == 0x0f {
            cur.skip(3);
        } else {
            cur.pos = end;
            assert(binxml_at(b, p, end as int).0 =~= Seq::empty());
            assert(before + Seq::<NodeText>::empty() =~= before);
            return nodes;
        }
    }
    assert(binxml_at(b, cur.pos as int, end as int).0 =~= Seq::empty());
    assert(goal.0 =~= nodes_text(nodes@));
    nodes
}

} // verus!
