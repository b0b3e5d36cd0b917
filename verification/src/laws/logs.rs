//! Laws of log files: their templates, their records and their chunks.

use crate::event::EventText;
use crate::evtx::binxml::{
    attribute_at, attribute_list, attributes_at, binxml_at, closed_off, element_at, literal_at,
    reference_at, region_end, string_at, NodeText, TNode, TValue,
};
use crate::evtx::bytes::{signed32, skipped, word16, word32, word64};
use crate::evtx::chunk::{chunk_outcome, outcome_from, record_outcome};
use crate::evtx::templates::{chain_from, chains_of, template_at, templates_of, TemplateTexts};
use crate::evtx::{chunk_at, chunks_outcome, file_outcome, header_error, EvtxError};
use crate::laws::evtx::{
    element_nodes, elements_nodes, event_data_nodes, has_at, law_stored_numbers_read_back, stored16,
    stored32, DataElement,
};
use crate::laws::values::{law_stored_texts_read_back, stored_text, text_units};
use crate::types::Complaint;
use vstd::prelude::*;

verus! {

// ---------------------------------------------------------------------------
// Names
// ---------------------------------------------------------------------------

/// A name is read back from where it is stored: four bytes and a hash of two, the
/// number of its UTF-16 units, and the units.
pub proof fn law_stored_names_read_back(b: Seq<u8>, offset: int, head: Seq<u8>, name: Seq<char>)
    requires
        head.len() == 6,
        text_units(name).len() < 0x1_0000,
        name.len() == 0 || name.last() != '\0',
        has_at(b, offset, head + (stored16(text_units(name).len() as int) + stored_text(name))),
    ensures
        string_at(b, offset) == Some(name),
{
    let n = text_units(name).len() as int;
    lemma_parts(b, offset, head, stored16(n) + stored_text(name));
    lemma_parts(b, offset + 6, stored16(n), stored_text(name));
    law_stored_numbers_read_back(b, offset + 6, n);
    law_stored_texts_read_back(name);
}

proof fn lemma_parts(b: Seq<u8>, p: int, s: Seq<u8>, t: Seq<u8>)
    requires
        has_at(b, p, s + t),
    ensures
        has_at(b, p, s),
        has_at(b, p + s.len(), t),
        p + s.len() + t.len() <= b.len(),
{
    let w = b.subrange(p, p + (s + t).len());
    assert(b.subrange(p, p + s.len()) =~= w.subrange(0, s.len() as int));
    assert((s + t).subrange(0, s.len() as int) =~= s);
    assert(b.subrange(p + s.len(), p + s.len() + t.len()) =~= w.subrange(
        s.len() as int,
        (s.len() + t.len()) as int,
    ));
    assert((s + t).subrange(s.len() as int, (s.len() + t.len()) as int) =~= t);
}

proof fn lemma_byte(b: Seq<u8>, p: int, v: u8)
    requires
        has_at(b, p, seq![v]),
    ensures
        0 <= p < b.len(),
        b[p] == v,
{
    assert(b.subrange(p, p + 1)[0] == b[p]);
}

// ---------------------------------------------------------------------------
// Templates
// ---------------------------------------------------------------------------

/// Where the names of event data stand in a chunk.
pub struct NameOffsets {
    pub event_data: u32,
    pub data: u32,
    pub name: u32,
}

/// Whether the names of event data stand in a chunk before a position.
pub open spec fn named_before(b: Seq<u8>, o: NameOffsets, p: int) -> bool {
    &&& string_at(b, o.event_data as int) == Some("EventData"@)
    &&& string_at(b, o.data as int) == Some("Data"@)
    &&& string_at(b, o.name as int) == Some("Name"@)
    &&& o.event_data < p
    &&& o.data < p
    &&& o.name < p
}

/// The attribute `Name` of a data element as it is stored.
pub open spec fn stored_attribute(d: DataElement, o: NameOffsets) -> Seq<u8> {
    seq![0x06u8] + (stored32(o.name as int) + (seq![0x05u8, 0x01u8] + (stored16(
        text_units(d.name).len() as int,
    ) + stored_text(d.name))))
}

/// What stands in a data element as it is stored: a substitution, which is optional
/// or not, and the end of the element.
pub open spec fn stored_content(d: DataElement) -> Seq<u8> {
    seq![
        if d.optional {
            0x0eu8
        } else {
            0x0du8
        },
    ] + (stored16(d.id as int) + seq![d.vtype as u8, 0x04u8])
}

/// A data element as it is stored: the opcode of an element with attributes, an
/// identifier, its size, the offset of its name, its attributes, and its content.
pub open spec fn stored_element(d: DataElement, o: NameOffsets) -> Seq<u8> {
    let attribute = stored_attribute(d, o);
    let inner = stored32(o.data as int) + (stored32(attribute.len() as int) + (attribute + (seq![
        0x02u8,
    ] + stored_content(d))));
    seq![0x41u8] + (stored16(0) + (stored32(inner.len() as int) + inner))
}

/// Whether a data element can be stored.
pub open spec fn can_be_stored(d: DataElement) -> bool {
    &&& text_units(d.name).len() < 0x8000
    &&& d.name.len() == 0 || d.name.last() != '\0'
    &&& d.vtype < 0x100
}

proof fn lemma_lengths(d: DataElement, o: NameOffsets)
    ensures
        stored_text(d.name).len() == 2 * text_units(d.name).len(),
        stored_attribute(d, o).len() == 9 + 2 * text_units(d.name).len(),
        stored_content(d).len() == 5,
        stored_element(d, o).len() == 7 + 8 + stored_attribute(d, o).len() + 6,
{
}

/// The attribute of a data element is read back.
proof fn lemma_attribute(b: Seq<u8>, p: int, d: DataElement, o: NameOffsets)
    requires
        has_at(b, p, stored_attribute(d, o)),
        can_be_stored(d),
        string_at(b, o.name as int) == Some("Name"@),
        o.name < p,
    ensures
        ({
            let end = p + stored_attribute(d, o).len();
            attributes_at(b, p, end) == (
                seq![TNode::Attr("Name"@, TValue::Literal(d.name))],
                end,
            )
        }),
{
    lemma_lengths(d, o);
    let n = text_units(d.name).len() as int;
    let r3 = stored16(n) + stored_text(d.name);
    let r2 = seq![0x05u8, 0x01u8] + r3;
    let r1 = stored32(o.name as int) + r2;
    let end = p + stored_attribute(d, o).len();
    lemma_parts(b, p, seq![0x06u8], r1);
    lemma_byte(b, p, 0x06);
    lemma_parts(b, p + 1, stored32(o.name as int), r2);
    law_stored_numbers_read_back(b, p + 1, o.name as int);
    lemma_parts(b, p + 5, seq![0x05u8, 0x01u8], r3);
    assert(b.subrange(p + 5, p + 7)[0] == b[p + 5]);
    assert(b.subrange(p + 5, p + 7)[1] == b[p + 6]);
    lemma_parts(b, p + 7, stored16(n), stored_text(d.name));
    law_stored_numbers_read_back(b, p + 7, n);
    law_stored_texts_read_back(d.name);
    assert(literal_at(b, p + 6) == (Some(d.name), p + 9 + 2 * n));
    let one = seq![TNode::Attr("Name"@, TValue::Literal(d.name))];
    assert(attribute_at(b, p + 1) == (one, end));
    assert(attributes_at(b, end, end) == (Seq::<NodeText>::empty(), end));
    assert(one + Seq::<NodeText>::empty() =~= one);
}

/// The content of a data element is read back.
proof fn lemma_content(b: Seq<u8>, p: int, d: DataElement)
    requires
        has_at(b, p, stored_content(d)),
        d.vtype < 0x100,
    ensures
        binxml_at(b, p, p + 5) == (
            seq![
                TNode::<Seq<char>>::Text(TValue::Sub { id: d.id, vtype: d.vtype, optional: d.optional }),
                TNode::CloseElem,
            ],
            p + 5,
        ),
{
    let op = if d.optional {
        0x0eu8
    } else {
        0x0du8
    };
    let r = seq![d.vtype as u8, 0x04u8];
    lemma_parts(b, p, seq![op], stored16(d.id as int) + r);
    lemma_byte(b, p, op);
    lemma_parts(b, p + 1, stored16(d.id as int), r);
    law_stored_numbers_read_back(b, p + 1, d.id as int);
    assert(b.subrange(p + 3, p + 5)[0] == b[p + 3]);
    assert(b.subrange(p + 3, p + 5)[1] == b[p + 4]);
    let none = Seq::<NodeText>::empty();
    let close = TNode::<Seq<char>>::CloseElem;
    assert(binxml_at(b, p + 5, p + 5) == (none, p + 5));
    assert(seq![close] + none =~= seq![close]);
    assert(binxml_at(b, p + 4, p + 5) == (seq![close], p + 5));
    let v = TValue::<Seq<char>>::Sub { id: d.id, vtype: d.vtype, optional: d.optional };
    assert(reference_at(b, p + 1, d.optional) == v);
    let text = TNode::Text(v);
    assert(seq![text] + seq![close] =~= seq![text, close]);
}

/// A data element is read back.
proof fn lemma_element(b: Seq<u8>, p: int, d: DataElement, o: NameOffsets, end: int)
    requires
        has_at(b, p, stored_element(d, o)),
        can_be_stored(d),
        named_before(b, o, p),
        p + stored_element(d, o).len() <= end <= b.len(),
    ensures
        b[p] == 0x41,
        element_at(b, p + 1, true, end) == (element_nodes(d), p + stored_element(d, o).len()),
{
    lemma_lengths(d, o);
    let attribute = stored_attribute(d, o);
    let a = attribute.len() as int;
    let content = stored_content(d);
    let r4 = seq![0x02u8] + content;
    let r3 = attribute + r4;
    let r2 = stored32(a) + r3;
    let inner = stored32(o.data as int) + r2;
    let size = inner.len() as int;
    let r1 = stored32(size) + inner;
    lemma_parts(b, p, seq![0x41u8], stored16(0) + r1);
    lemma_byte(b, p, 0x41);
    lemma_parts(b, p + 1, stored16(0), r1);
    lemma_parts(b, p + 3, stored32(size), inner);
    law_stored_numbers_read_back(b, p + 3, size);
    let start = p + 7;
    lemma_parts(b, start, stored32(o.data as int), r2);
    law_stored_numbers_read_back(b, start, o.data as int);
    let q = start + 4;
    lemma_parts(b, q, stored32(a), r3);
    law_stored_numbers_read_back(b, q, a);
    lemma_parts(b, q + 4, attribute, r4);
    lemma_attribute(b, q + 4, d, o);
    let r = q + 4 + a;
    let attrs = seq![TNode::Attr("Name"@, TValue::Literal(d.name))];
    assert(skipped(b, q + 4, signed32(word32(b, q)) as int) == r);
    assert(attribute_list(b, q) == Some((attrs, r)));
    lemma_parts(b, r, seq![0x02u8], content);
    lemma_byte(b, r, 0x02);
    lemma_content(b, r + 1, d);
    assert(region_end(b, start, size, end) == r + 6);
    let open = seq![TNode::OpenElem("Data"@)];
    let body = seq![
        TNode::<Seq<char>>::Text(TValue::Sub { id: d.id, vtype: d.vtype, optional: d.optional }),
        TNode::CloseElem,
    ];
    assert(open + attrs + body =~= element_nodes(d));
    assert(closed_off(element_nodes(d)) == element_nodes(d));
}

/// Data elements as they are stored, one after the other.
pub open spec fn stored_elements(elements: Seq<DataElement>, o: NameOffsets) -> Seq<u8>
    decreases elements.len(),
{
    if elements.len() == 0 {
        Seq::empty()
    } else {
        stored_element(elements[0], o) + stored_elements(elements.skip(1), o)
    }
}

/// Event data as they are stored: the opcode of an element, an identifier, its size,
/// the offset of its name, its content and its end.
pub open spec fn stored_event_data(elements: Seq<DataElement>, o: NameOffsets) -> Seq<u8> {
    let inner = stored32(o.event_data as int) + (seq![0x02u8] + (stored_elements(elements, o)
        + seq![0x04u8]));
    seq![0x01u8] + (stored16(0) + (stored32(inner.len() as int) + inner))
}

proof fn lemma_elements_nodes(elements: Seq<DataElement>)
    requires
        elements.len() > 0,
    ensures
        elements_nodes(elements) == element_nodes(elements[0]) + elements_nodes(elements.skip(1)),
    decreases elements.len(),
{
    let rest = elements.skip(1);
    if elements.len() == 1 {
        assert(elements.drop_last() =~= Seq::<DataElement>::empty());
        assert(rest =~= Seq::<DataElement>::empty());
        assert(elements_nodes(Seq::<DataElement>::empty()) =~= Seq::<NodeText>::empty());
        assert(elements_nodes(elements) =~= element_nodes(elements[0]) + elements_nodes(rest));
    } else {
        let f = elements.drop_last();
        lemma_elements_nodes(f);
        assert(f.skip(1) =~= rest.drop_last());
        assert(rest.last() == elements.last());
        assert(elements_nodes(elements) =~= element_nodes(elements[0]) + elements_nodes(rest));
    }
}

proof fn lemma_elements(
    b: Seq<u8>,
    p: int,
    elements: Seq<DataElement>,
    o: NameOffsets,
    end: int,
)
    requires
        has_at(b, p, stored_elements(elements, o) + seq![0x04u8]),
        forall|i: int| 0 <= i < elements.len() ==> can_be_stored(#[trigger] elements[i]),
        named_before(b, o, p),
        end == p + stored_elements(elements, o).len() + 1,
    ensures
        binxml_at(b, p, end) == (elements_nodes(elements).push(TNode::CloseElem), end),
    decreases elements.len(),
{
    let none = Seq::<NodeText>::empty();
    let close = TNode::<Seq<char>>::CloseElem;
    lemma_parts(b, p, stored_elements(elements, o), seq![0x04u8]);
    if elements.len() == 0 {
        assert(stored_elements(elements, o).len() == 0);
        lemma_byte(b, p, 0x04);
        assert(binxml_at(b, p + 1, end) == (none, p + 1));
        assert(seq![close] + none =~= none.push(close));
    } else {
        let d = elements[0];
        let rest = elements.skip(1);
        let first = stored_element(d, o);
        let more = stored_elements(rest, o);
        lemma_lengths(d, o);
        lemma_parts(b, p, first, more);
        let q = p + first.len();
        assert((first + more) + seq![0x04u8] =~= first + (more + seq![0x04u8]));
        lemma_parts(b, p, first, more + seq![0x04u8]);
        lemma_element(b, p, d, o, end);
        assert forall|i: int| 0 <= i < rest.len() implies can_be_stored(#[trigger] rest[i]) by {
            assert(rest[i] == elements[i + 1]);
        }
        lemma_elements(b, q, rest, o, end);
        lemma_elements_nodes(elements);
        assert(element_nodes(d) + elements_nodes(rest).push(close) =~= elements_nodes(
            elements,
        ).push(close));
    }
}

/// A template of event data is read back from its stored form: every data element
/// with its name and its substitution.
pub proof fn law_stored_event_data_read_back(
    b: Seq<u8>,
    p: int,
    elements: Seq<DataElement>,
    o: NameOffsets,
)
    requires
        has_at(b, p, stored_event_data(elements, o)),
        forall|i: int| 0 <= i < elements.len() ==> can_be_stored(#[trigger] elements[i]),
        named_before(b, o, p),
        stored_event_data(elements, o).len() < 0x8000_0000,
    ensures
        binxml_at(b, p, p + stored_event_data(elements, o).len()).0 == event_data_nodes(elements),
{
    let body = stored_elements(elements, o) + seq![0x04u8];
    let r2 = seq![0x02u8] + body;
    let inner = stored32(o.event_data as int) + r2;
    let size = inner.len() as int;
    let r1 = stored32(size) + inner;
    let end = p + stored_event_data(elements, o).len();
    assert(end == p + 7 + size);
    lemma_parts(b, p, seq![0x01u8], stored16(0) + r1);
    lemma_byte(b, p, 0x01);
    lemma_parts(b, p + 1, stored16(0), r1);
    lemma_parts(b, p + 3, stored32(size), inner);
    law_stored_numbers_read_back(b, p + 3, size);
    lemma_parts(b, p + 7, stored32(o.event_data as int), r2);
    law_stored_numbers_read_back(b, p + 7, o.event_data as int);
    lemma_parts(b, p + 11, seq![0x02u8], body);
    lemma_byte(b, p + 11, 0x02);
    lemma_elements(b, p + 12, elements, o, end);
    assert(region_end(b, p + 7, size, end) == end);
    let open = seq![TNode::OpenElem("EventData"@)];
    let none = Seq::<NodeText>::empty();
    let content = elements_nodes(elements).push(TNode::CloseElem);
    assert(open + none + content =~= event_data_nodes(elements));
    assert(closed_off(event_data_nodes(elements)) == event_data_nodes(elements));
    assert(element_at(b, p + 1, false, end) == (event_data_nodes(elements), end));
    assert(binxml_at(b, end, end) == (none, end));
    assert(event_data_nodes(elements) + none =~= event_data_nodes(elements));
}

/// A template is read back from its stored form: an opcode, a version, an
/// identifier, its offset, that of the next template, a GUID, its length and its
/// binary XML.
pub proof fn law_stored_templates_read_back(
    c: Seq<u8>,
    k: int,
    version: u8,
    id: u32,
    offset: i32,
    next: i32,
    guid: Seq<u8>,
    body: Seq<u8>,
)
    requires
        0 < offset,
        0 <= next,
        guid.len() == 16,
        body.len() < 0x8000_0000,
        has_at(
            c,
            k,
            seq![0x0cu8, version] + (stored32(id as int) + (stored32(offset as int) + (stored32(
                next as int,
            ) + (guid + (stored32(body.len() as int) + body))))),
        ),
    ensures
        template_at(c, k) == Some((offset, next, binxml_at(c, k + 34, k + 34 + body.len()).0)),
{
    let r5 = stored32(body.len() as int) + body;
    let r4 = guid + r5;
    let r3 = stored32(next as int) + r4;
    let r2 = stored32(offset as int) + r3;
    let r1 = stored32(id as int) + r2;
    lemma_parts(c, k, seq![0x0cu8, version], r1);
    assert(c.subrange(k, k + 2)[0] == c[k]);
    lemma_parts(c, k + 2, stored32(id as int), r2);
    lemma_parts(c, k + 6, stored32(offset as int), r3);
    law_stored_numbers_read_back(c, k + 6, offset as int);
    lemma_parts(c, k + 10, stored32(next as int), r4);
    law_stored_numbers_read_back(c, k + 10, next as int);
    lemma_parts(c, k + 14, guid, r5);
    lemma_parts(c, k + 30, stored32(body.len() as int), body);
    law_stored_numbers_read_back(c, k + 30, body.len() as int);
}

/// Whether every position that was visited has left its template, and led on to the
/// next one of its chain, and every template that was found stands somewhere.
spec fn collected(c: Seq<u8>, found: TemplateTexts, visited: Set<int>, open: Set<int>) -> bool {
    &&& forall|v: int| #[trigger]
        visited.contains(v) && 0 <= v < c.len() ==> (template_at(c, v) matches Some((o, n, _)) ==> {
            &&& found.contains_key(o)
            &&& n >= 10 ==> visited.contains(n - 10) || open.contains(n - 10)
        })
    &&& forall|o: i32| #[trigger]
        found.contains_key(o) ==> exists|v: int|
            0 <= v < c.len() && (#[trigger] template_at(c, v)) is Some && template_at(
                c,
                v,
            )->Some_0.0 == o && template_at(c, v)->Some_0.2 == found[o]
}

proof fn lemma_chain(c: Seq<u8>, start: int, found: TemplateTexts, visited: Set<int>)
    requires
        collected(c, found, visited, set![start]),
    ensures
        ({
            let (f, v) = chain_from(c, start, found, visited);
            &&& collected(c, f, v, Set::empty())
            &&& visited.subset_of(v)
            &&& v.contains(start)
        }),
    decreases crate::evtx::templates::unvisited(c, visited).len(),
{
    if visited.contains(start) || start < 0 || start >= c.len() {
        let v = visited.insert(start);
        assert(collected(c, found, v, Set::empty()));
    } else {
        match template_at(c, start) {
            None => {
                assert(collected(c, found, visited.insert(start), Set::empty()));
            },
            Some((o, next, nodes)) => {
                let f = found.insert(o, nodes);
                let v = visited.insert(start);
                assert forall|x: i32| #[trigger] f.contains_key(x) implies exists|y: int|
                    0 <= y < c.len() && (#[trigger] template_at(c, y)) is Some && template_at(
                        c,
                        y,
                    )->Some_0.0 == x && template_at(c, y)->Some_0.2 == f[x] by {
                    if x == o {
                        assert(template_at(c, start) is Some);
                    } else {
                        assert(found.contains_key(x));
                    }
                }
                if next >= 10 {
                    crate::evtx::templates::lemma_visit(c, visited, start);
                    assert(collected(c, f, v, set![next - 10]));
                    lemma_chain(c, next - 10, f, v);
                } else {
                    assert(collected(c, f, v, Set::empty()));
                }
            },
        }
    }
}

proof fn lemma_chains(c: Seq<u8>, n: nat)
    ensures
        ({
            let (f, v) = chains_of(c, n);
            &&& collected(c, f, v, Set::empty())
            &&& forall|i: int|
                0 <= i < n && 0x180 + 4 * i + 4 <= c.len() && (#[trigger] word32(c, 0x180 + i * 4))
                    >= 10 ==> v.contains(word32(c, 0x180 + i * 4) - 10)
        }),
    decreases n,
{
    if n > 0 {
        lemma_chains(c, (n - 1) as nat);
        let (f, v) = chains_of(c, (n - 1) as nat);
        let entry = 0x180 + (n - 1) * 4;
        if entry + 4 <= c.len() && word32(c, entry) >= 10 {
            let start = word32(c, entry) - 10;
            assert(collected(c, f, v, set![start]));
            lemma_chain(c, start, f, v);
        }
        let (g, w) = chains_of(c, n);
        assert(v.subset_of(w));
        assert forall|i: int|
            0 <= i < n && 0x180 + 4 * i + 4 <= c.len() && (#[trigger] word32(c, 0x180 + i * 4))
                >= 10 implies w.contains(word32(c, 0x180 + i * 4) - 10) by {
            if i < n - 1 {
                assert(v.contains(word32(c, 0x180 + i * 4) - 10));
            }
        }
    }
}

/// The templates of a chunk are those that its table of 32 entries leads to, each
/// entry to a chain in which one template names the next. All of them are found,
/// and what is found under an offset is a template that stands in the chunk with
/// that offset.
pub proof fn law_all_templates_of_a_chunk_are_found(c: Seq<u8>, i: int, at: Seq<int>)
    requires
        0 <= i < 32,
        0x200 <= c.len(),
        at.len() > 0,
        word32(c, 0x180 + i * 4) == at[0] + 10,
        forall|j: int|
            0 <= j < at.len() ==> 0 <= #[trigger] at[j] < c.len() && template_at(c, at[j]) is Some,
        forall|j: int|
            0 <= j < at.len() - 1 ==> template_at(c, #[trigger] at[j])->Some_0.1 == at[j + 1] + 10,
    ensures
        forall|j: int|
            0 <= j < at.len() ==> templates_of(c).contains_key(
                template_at(c, #[trigger] at[j])->Some_0.0,
            ),
        forall|o: i32| #[trigger]
            templates_of(c).contains_key(o) ==> exists|v: int|
                0 <= v < c.len() && (#[trigger] template_at(c, v)) is Some && template_at(
                    c,
                    v,
                )->Some_0.0 == o && template_at(c, v)->Some_0.2 == templates_of(c)[o],
{
    lemma_chains(c, 32);
    let (f, v) = chains_of(c, 32);
    assert(word32(c, 0x180 + i * 4) >= 10);
    assert(v.contains(at[0]));
    assert forall|j: int| 0 <= j < at.len() implies v.contains(#[trigger] at[j]) by {
        lemma_reached(c, f, v, at, j);
    }
    assert forall|j: int| 0 <= j < at.len() implies templates_of(c).contains_key(
        template_at(c, #[trigger] at[j])->Some_0.0,
    ) by {
        assert(v.contains(at[j]));
    }
}

proof fn lemma_reached(c: Seq<u8>, f: TemplateTexts, v: Set<int>, at: Seq<int>, j: int)
    requires
        collected(c, f, v, Set::empty()),
        0 <= j < at.len(),
        v.contains(at[0]),
        forall|j: int|
            0 <= j < at.len() ==> 0 <= #[trigger] at[j] < c.len() && template_at(c, at[j]) is Some,
        forall|j: int|
            0 <= j < at.len() - 1 ==> template_at(c, #[trigger] at[j])->Some_0.1 == at[j + 1] + 10,
    ensures
        v.contains(at[j]),
    decreases j,
{
    if j > 0 {
        lemma_reached(c, f, v, at, j - 1);
        assert(template_at(c, at[j - 1])->Some_0.1 == at[j] + 10);
        assert(at[j] >= 0);
    }
}

// ---------------------------------------------------------------------------
// Chunks
// ---------------------------------------------------------------------------

/// Whether a record stands at a position of a chunk: its signature and its size,
/// which takes in its header and fits the chunk, and not past the last record that
/// the chunk names.
pub open spec fn record_stands_at(c: Seq<u8>, pos: int, size: int) -> bool {
    &&& 0 <= pos
    &&& 24 <= size
    &&& pos + size <= c.len()
    &&& word32(c, pos) == 0x2a2a
    &&& word32(c, pos + 4) == size
    &&& pos <= word32(c, 0x2c)
}

/// What comes of the record at a position.
#[verifier::opaque]
pub open spec fn given_at(c: Seq<u8>, pos: int) -> (Seq<EventText>, Seq<Complaint>) {
    record_outcome(c, pos)
}

/// What comes of the records from a position on.
#[verifier::opaque]
spec fn given_from(c: Seq<u8>, pos: int) -> (Seq<EventText>, Seq<Complaint>) {
    outcome_from(c, pos)
}

/// What comes of records at given positions, in their order.
pub open spec fn outcomes_at(c: Seq<u8>, at: Seq<int>) -> (Seq<EventText>, Seq<Complaint>)
    decreases at.len(),
{
    if at.len() == 0 {
        (Seq::empty(), Seq::empty())
    } else {
        let first = given_at(c, at[0]);
        let rest = outcomes_at(c, at.skip(1));
        (first.0 + rest.0, first.1 + rest.1)
    }
}

/// A record that stands at a position gives its outcome, and what follows it comes
/// behind.
#[verifier::spinoff_prover]
#[verifier::rlimit(40)]
proof fn lemma_one_record(c: Seq<u8>, pos: int, size: int)
    requires
        record_stands_at(c, pos, size),
    ensures
        given_from(c, pos).0 == given_at(c, pos).0 + given_from(c, pos + size).0,
        given_from(c, pos).1 == given_at(c, pos).1 + given_from(c, pos + size).1,
{
    reveal(given_at);
    reveal(given_from);
}

proof fn lemma_no_more_records(c: Seq<u8>, end: int)
    requires
        end > word32(c, 0x2c),
    ensures
        given_from(c, end) == (Seq::<EventText>::empty(), Seq::<Complaint>::empty()),
{
    reveal(given_from);
}

proof fn lemma_records(c: Seq<u8>, at: Seq<int>, end: int)
    requires
        at.len() > 0,
        forall|i: int|
            0 <= i < at.len() - 1 ==> record_stands_at(c, #[trigger] at[i], at[i + 1] - at[i]),
        record_stands_at(c, at.last(), end - at.last()),
        end > word32(c, 0x2c),
    ensures
        given_from(c, at[0]) == outcomes_at(c, at),
    decreases at.len(),
{
    let rest = at.skip(1);
    if at.len() == 1 {
        assert(at[0] == at.last());
        lemma_one_record(c, at[0], end - at[0]);
        lemma_no_more_records(c, end);
        assert(outcomes_at(c, rest) == given_from(c, end));
    } else {
        assert(record_stands_at(c, at[0], at[1] - at[0]));
        assert(rest[0] == at[1]);
        assert(rest.last() == at.last());
        assert forall|i: int| 0 <= i < rest.len() - 1 implies record_stands_at(
            c,
            #[trigger] rest[i],
            rest[i + 1] - rest[i],
        ) by {
            assert(rest[i] == at[i + 1]);
            assert(record_stands_at(c, at[i + 1], at[i + 2] - at[i + 1]));
        }
        lemma_records(c, rest, end);
        lemma_one_record(c, at[0], at[1] - at[0]);
    }
}

/// A chunk gives what its records give, all of them and in their order, from behind
/// its tables up to the last record that it names. Bytes that are no chunk, or a
/// chunk without records, give nothing.
pub proof fn law_chunks_give_all_their_records(c: Seq<u8>, at: Seq<int>, end: int)
    ensures
        c.len() < 0x200 || word64(c, 0) != 0x006B6E6843666C45 || word64(c, 0x18)
            == 0xffff_ffff_ffff_ffff ==> chunk_outcome(c) == (
            Seq::<EventText>::empty(),
            Seq::<Complaint>::empty(),
        ),
        c.len() >= 0x200 && word64(c, 0) == 0x006B6E6843666C45 && word64(c, 0x18)
            != 0xffff_ffff_ffff_ffff && at.len() > 0 && at[0] == word32(c, 0x28) + 0x100 + 0x80 && (
        forall|i: int|
            0 <= i < at.len() - 1 ==> record_stands_at(c, #[trigger] at[i], at[i + 1] - at[i]))
            && record_stands_at(c, at.last(), end - at.last()) && end > word32(c, 0x2c)
            ==> chunk_outcome(c) == outcomes_at(c, at),
{
    if at.len() > 0 && (forall|i: int|
        0 <= i < at.len() - 1 ==> record_stands_at(c, #[trigger] at[i], at[i + 1] - at[i]))
        && record_stands_at(c, at.last(), end - at.last()) && end > word32(c, 0x2c) {
        lemma_records(c, at, end);
        reveal(given_from);
    }
}

// ---------------------------------------------------------------------------
// Files
// ---------------------------------------------------------------------------

/// What comes of the first chunks of a file, chunk by chunk.
pub open spec fn outcomes_of_chunks(data: Seq<u8>, n: nat) -> (Seq<EventText>, Seq<Complaint>)
    decreases n,
{
    if n == 0 {
        (Seq::empty(), Seq::empty())
    } else {
        let front = outcomes_of_chunks(data, (n - 1) as nat);
        let start = 0x1000 + (n - 1) * 0x1_0000;
        let last = chunk_outcome(data.subrange(start, start + 0x1_0000));
        (front.0 + last.0, front.1 + last.1)
    }
}

proof fn lemma_chunks(data: Seq<u8>, n: nat)
    requires
        0x1000 + n * 0x1_0000 <= data.len(),
    ensures
        chunks_outcome(data, n) == outcomes_of_chunks(data, n),
    decreases n,
{
    if n > 0 {
        lemma_chunks(data, (n - 1) as nat);
        let start = 0x1000 + (n - 1) * 0x1_0000;
        assert(start + 0x1_0000 <= data.len());
        assert(chunk_at(data, n - 1) == Some(data.subrange(start, start + 0x1_0000)));
    }
}

/// A file gives what its chunks give, as many as its header counts and in their
/// order. Each stands behind the header of 4096 bytes in 65536 bytes of its own.
/// Bytes that are too few for a header or lack the signature are no log file.
pub proof fn law_files_give_all_their_chunks(data: Seq<u8>)
    ensures
        data.len() >= 0x1000 + word16(data, 0x2a) * 0x1_0000 ==> file_outcome(data)
            == outcomes_of_chunks(data, word16(data, 0x2a) as nat),
        data.len() < 0x1000 ==> header_error(data) == Some(EvtxError::TooSmall),
        data.len() >= 0x1000 && word64(data, 0) != 0x00656C6946666C45 ==> header_error(data)
            == Some(EvtxError::BadSignature),
        data.len() >= 0x1000 && word64(data, 0) == 0x00656C6946666C45 ==> header_error(data) is None,
{
    if data.len() >= 0x1000 + word16(data, 0x2a) * 0x1_0000 {
        lemma_chunks(data, word16(data, 0x2a) as nat);
    }
}

} // verus!
