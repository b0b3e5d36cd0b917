//! Laws of event logs: what is stored in the bytes of a log is what is read from
//! them.

use crate::clock::filetime_text;
use crate::evtx::binxml::{NodeText, TNode, TValue};
use crate::evtx::bytes::{signed32, signed64, word16, word32, word64};
use crate::evtx::chunk::{record_fields, record_outcome, sysmon_record};
use crate::evtx::fields::{embedded, on_attr, on_close, on_open, on_text, value_of, walked};
use crate::evtx::fields::{no_fields, EventFields, FieldsText, Walk};
use crate::evtx::record::{
    descriptors_at, instance_at, payload_at, substitutions_at, values_at, SubText,
};
use crate::evtx::templates::{templates_of, TemplateTexts};
use crate::evtx::value::value_text;
use crate::laws::texts::law_decimal_reads_back;
use crate::numbers::{decimal, unsigned_of};
use crate::parser::{at_most_one, event_of, RecordText};
use vstd::prelude::*;

verus! {

// ---------------------------------------------------------------------------
// Stored numbers
// ---------------------------------------------------------------------------

/// A number below 2^16 as it is stored: two bytes, the lower one first.
pub open spec fn stored16(n: int) -> Seq<u8> {
    seq![(n % 256) as u8, (n / 256) as u8]
}

/// A number below 2^32 as it is stored.
pub open spec fn stored32(n: int) -> Seq<u8> {
    stored16(n % 0x1_0000) + stored16(n / 0x1_0000)
}

/// A number below 2^64 as it is stored.
pub open spec fn stored64(n: int) -> Seq<u8> {
    stored32(n % 0x1_0000_0000) + stored32(n / 0x1_0000_0000)
}

/// Whether bytes stand in others at a position.
pub open spec fn has_at(b: Seq<u8>, p: int, s: Seq<u8>) -> bool {
    0 <= p && p + s.len() <= b.len() && b.subrange(p, p + s.len()) == s
}

/// What stands at a position in two parts stands there part by part.
proof fn lemma_has_parts(b: Seq<u8>, p: int, s: Seq<u8>, t: Seq<u8>)
    requires
        has_at(b, p, s + t),
    ensures
        has_at(b, p, s),
        has_at(b, p + s.len(), t),
{
    let w = b.subrange(p, p + (s + t).len());
    assert(b.subrange(p, p + s.len()) =~= w.subrange(0, s.len() as int));
    assert((s + t).subrange(0, s.len() as int) =~= s);
    assert(b.subrange(p + s.len(), p + s.len() + t.len()) =~= w.subrange(
        s.len() as int,
        (s.len() + t.len()) as int,
    ));
    assert((s + t).subrange(s.len() as int, (s.len() + t.len()) as int) =~= t);
}

proof fn lemma_word16(b: Seq<u8>, p: int, n: int)
    requires
        has_at(b, p, stored16(n)),
        0 <= n < 0x1_0000,
    ensures
        word16(b, p) == n,
        p + 2 <= b.len(),
{
    let s = b.subrange(p, p + 2);
    assert(s[0] == b[p] && s[1] == b[p + 1]);
    assert(s[0] == (n % 256) as u8 && s[1] == (n / 256) as u8);
}

proof fn lemma_word32(b: Seq<u8>, p: int, n: int)
    requires
        has_at(b, p, stored32(n)),
        0 <= n < 0x1_0000_0000,
    ensures
        word32(b, p) == n,
        p + 4 <= b.len(),
{
    lemma_has_parts(b, p, stored16(n % 0x1_0000), stored16(n / 0x1_0000));
    lemma_word16(b, p, n % 0x1_0000);
    lemma_word16(b, p + 2, n / 0x1_0000);
}

proof fn lemma_word64(b: Seq<u8>, p: int, n: int)
    requires
        has_at(b, p, stored64(n)),
        0 <= n < 0x1_0000_0000_0000_0000,
    ensures
        word64(b, p) == n,
        p + 8 <= b.len(),
{
    lemma_has_parts(b, p, stored32(n % 0x1_0000_0000), stored32(n / 0x1_0000_0000));
    lemma_word32(b, p, n % 0x1_0000_0000);
    lemma_word32(b, p + 4, n / 0x1_0000_0000);
}

/// A number is read back from the bytes that store it, wherever they stand.
pub proof fn law_stored_numbers_read_back(b: Seq<u8>, p: int, n: int)
    ensures
        0 <= n < 0x1_0000 && has_at(b, p, stored16(n)) ==> word16(b, p) == n,
        0 <= n < 0x1_0000_0000 && has_at(b, p, stored32(n)) ==> word32(b, p) == n,
        0 <= n < 0x1_0000_0000_0000_0000 && has_at(b, p, stored64(n)) ==> word64(b, p) == n,
{
    if 0 <= n < 0x1_0000 && has_at(b, p, stored16(n)) {
        lemma_word16(b, p, n);
    }
    if 0 <= n < 0x1_0000_0000 && has_at(b, p, stored32(n)) {
        lemma_word32(b, p, n);
    }
    if 0 <= n < 0x1_0000_0000_0000_0000 && has_at(b, p, stored64(n)) {
        lemma_word64(b, p, n);
    }
}

// ---------------------------------------------------------------------------
// Template instances
// ---------------------------------------------------------------------------

/// The descriptors of substitutions as they are stored: the size and the type of
/// each.
pub open spec fn stored_descriptors(subs: Seq<SubText>) -> Seq<u8>
    decreases subs.len(),
{
    if subs.len() == 0 {
        Seq::empty()
    } else {
        stored_descriptors(subs.drop_last()) + (stored16(subs.last().data.len() as int) + stored16(
            subs.last().vtype as int,
        ))
    }
}

/// The values of substitutions as they are stored: one after the other.
pub open spec fn stored_values(subs: Seq<SubText>) -> Seq<u8>
    decreases subs.len(),
{
    if subs.len() == 0 {
        Seq::empty()
    } else {
        stored_values(subs.drop_last()) + subs.last().data
    }
}

/// An array of substitutions as it is stored: their number, their descriptors and
/// their values.
pub open spec fn stored_subs(subs: Seq<SubText>) -> Seq<u8> {
    stored32(subs.len() as int) + (stored_descriptors(subs) + stored_values(subs))
}

/// Whether substitutions can be stored: their number fits, and the size of each.
pub open spec fn storable(subs: Seq<SubText>) -> bool {
    &&& subs.len() < 0x8000_0000
    &&& forall|i: int| 0 <= i < subs.len() ==> (#[trigger] subs[i]).data.len() < 0x1_0000
}

/// The sizes and types of substitutions.
spec fn descriptors(subs: Seq<SubText>) -> Seq<(u16, u16)> {
    Seq::new(subs.len(), |i: int| (subs[i].data.len() as u16, subs[i].vtype))
}

proof fn lemma_descriptors(b: Seq<u8>, p: int, subs: Seq<SubText>)
    requires
        storable(subs),
        has_at(b, p, stored_descriptors(subs)),
    ensures
        stored_descriptors(subs).len() == 4 * subs.len(),
        descriptors_at(b, p, subs.len()) == (descriptors(subs), p + 4 * subs.len()),
    decreases subs.len(),
{
    if subs.len() > 0 {
        let f = subs.drop_last();
        let last = subs.last();
        assert(subs[subs.len() - 1] == last);
        let size = last.data.len() as int;
        lemma_has_parts(b, p, stored_descriptors(f), stored16(size) + stored16(last.vtype as int));
        assert forall|i: int| 0 <= i < f.len() implies (#[trigger] f[i]).data.len() < 0x1_0000 by {
            assert(f[i] == subs[i]);
        }
        lemma_descriptors(b, p, f);
        let q = p + 4 * f.len();
        lemma_has_parts(b, q, stored16(size), stored16(last.vtype as int));
        lemma_word16(b, q, size);
        lemma_word16(b, q + 2, last.vtype as int);
        assert(descriptors(subs) =~= descriptors(f).push((size as u16, last.vtype)));
    } else {
        assert(descriptors(subs) =~= Seq::empty());
    }
}

proof fn lemma_values(b: Seq<u8>, p: int, subs: Seq<SubText>)
    requires
        storable(subs),
        has_at(b, p, stored_values(subs)),
    ensures
        values_at(b, p, descriptors(subs)) == (subs, p + stored_values(subs).len()),
    decreases subs.len(),
{
    if subs.len() > 0 {
        let f = subs.drop_last();
        let last = subs.last();
        assert(subs[subs.len() - 1] == last);
        lemma_has_parts(b, p, stored_values(f), last.data);
        assert forall|i: int| 0 <= i < f.len() implies (#[trigger] f[i]).data.len() < 0x1_0000 by {
            assert(f[i] == subs[i]);
        }
        lemma_values(b, p, f);
        let d = descriptors(subs);
        assert(d.drop_last() =~= descriptors(f));
        assert(f.push(last) =~= subs);
    } else {
        assert(descriptors(subs) =~= Seq::empty());
        assert(subs =~= Seq::empty());
    }
}

/// Substitutions are read back from the bytes that store them, each with its type
/// and its value.
pub proof fn law_stored_substitutions_read_back(b: Seq<u8>, p: int, subs: Seq<SubText>)
    requires
        storable(subs),
        has_at(b, p, stored_descriptors(subs) + stored_values(subs)),
    ensures
        substitutions_at(b, p, subs.len()) == subs,
{
    lemma_has_parts(b, p, stored_descriptors(subs), stored_values(subs));
    lemma_descriptors(b, p, subs);
    lemma_values(b, p + 4 * subs.len(), subs);
}

/// A reference to a template that stands earlier in the chunk, as it is stored
/// after its opcode: a version, an identifier, the offset of the template, and the
/// substitutions.
pub open spec fn stored_reference(version: u8, id: u32, offset: i32, subs: Seq<SubText>) -> Seq<u8> {
    seq![version] + (stored32(id as int) + (stored32(offset as int) + stored_subs(subs)))
}

/// A template that is defined where it is used, as it is stored after its opcode:
/// a version, an identifier, its offset, that of the next template, a GUID, its
/// length and its bytes, and then the substitutions.
pub open spec fn stored_definition(
    version: u8,
    id: u32,
    offset: i32,
    next: u32,
    guid: Seq<u8>,
    body: Seq<u8>,
    subs: Seq<SubText>,
) -> Seq<u8> {
    seq![version] + (stored32(id as int) + (stored32(offset as int) + (stored32(next as int) + (guid
        + (stored32(body.len() as int) + (body + stored_subs(subs)))))))
}

proof fn lemma_subs(b: Seq<u8>, t: int, subs: Seq<SubText>)
    requires
        storable(subs),
        has_at(b, t, stored_subs(subs)),
    ensures
        t + 4 <= b.len(),
        signed32(word32(b, t)) == subs.len(),
        substitutions_at(b, t + 4, subs.len()) == subs,
{
    lemma_has_parts(
        b,
        t,
        stored32(subs.len() as int),
        stored_descriptors(subs) + stored_values(subs),
    );
    lemma_word32(b, t, subs.len() as int);
    law_stored_substitutions_read_back(b, t + 4, subs);
}

/// A template instance is read back from the bytes that store it, whether its
/// template stands earlier in the chunk or is defined in place.
pub proof fn law_stored_instances_read_back(
    b: Seq<u8>,
    p: int,
    record: int,
    version: u8,
    id: u32,
    offset: i32,
    next: u32,
    guid: Seq<u8>,
    body: Seq<u8>,
    subs: Seq<SubText>,
)
    requires
        storable(subs),
        0 <= offset,
        guid.len() == 16,
        body.len() < 0x8000_0000,
    ensures
        offset < record && has_at(b, p, stored_reference(version, id, offset, subs)) ==> instance_at(
            b,
            p,
            record,
        ) == Some((offset, subs)),
        offset >= record && has_at(
            b,
            p,
            stored_definition(version, id, offset, next, guid, body, subs),
        ) ==> instance_at(b, p, record) == Some((offset, subs)),
{
    if offset < record && has_at(b, p, stored_reference(version, id, offset, subs)) {
        let rest = stored32(offset as int) + stored_subs(subs);
        lemma_has_parts(b, p, seq![version], stored32(id as int) + rest);
        lemma_has_parts(b, p + 1, stored32(id as int), rest);
        lemma_has_parts(b, p + 5, stored32(offset as int), stored_subs(subs));
        lemma_word32(b, p + 5, offset as int);
        lemma_subs(b, p + 9, subs);
    }
    if offset >= record && has_at(
        b,
        p,
        stored_definition(version, id, offset, next, guid, body, subs),
    ) {
        let r5 = body + stored_subs(subs);
        let r4 = stored32(body.len() as int) + r5;
        let r3 = guid + r4;
        let r2 = stored32(next as int) + r3;
        let r1 = stored32(offset as int) + r2;
        lemma_has_parts(b, p, seq![version], stored32(id as int) + r1);
        lemma_has_parts(b, p + 1, stored32(id as int), r1);
        lemma_has_parts(b, p + 5, stored32(offset as int), r2);
        lemma_word32(b, p + 5, offset as int);
        lemma_has_parts(b, p + 9, stored32(next as int), r3);
        lemma_has_parts(b, p + 13, guid, r4);
        lemma_has_parts(b, p + 29, stored32(body.len() as int), r5);
        lemma_word32(b, p + 29, body.len() as int);
        lemma_has_parts(b, p + 33, body, stored_subs(subs));
        lemma_subs(b, p + 33 + body.len(), subs);
    }
}

/// The payload of a record is the start of a stream, three bytes of version and
/// flags, and a template instance, which is read back from it. Without the two
/// opcodes there is none.
pub proof fn law_stored_payloads_read_back(
    c: Seq<u8>,
    p: int,
    record: int,
    flags: Seq<u8>,
    version: u8,
    id: u32,
    offset: i32,
    subs: Seq<SubText>,
)
    requires
        storable(subs),
        0 <= offset < record,
        flags.len() == 3,
        0 <= p,
    ensures
        has_at(
            c,
            p,
            seq![0x0fu8] + (flags + (seq![0x0cu8] + stored_reference(version, id, offset, subs))),
        ) ==> payload_at(c, p, record) == Some((offset, subs)),
        p + 5 <= c.len() && (c[p] != 0x0f || c[p + 4] != 0x0c) ==> payload_at(c, p, record) is None,
{
    let r3 = stored_reference(version, id, offset, subs);
    let r2 = seq![0x0cu8] + r3;
    let r1 = flags + r2;
    if has_at(c, p, seq![0x0fu8] + r1) {
        lemma_has_parts(c, p, seq![0x0fu8], r1);
        lemma_has_parts(c, p + 1, flags, r2);
        lemma_has_parts(c, p + 4, seq![0x0cu8], r3);
        assert(c.subrange(p, p + 1)[0] == c[p]);
        assert(c.subrange(p + 4, p + 5)[0] == c[p + 4]);
        law_stored_instances_read_back(
            c,
            p + 5,
            record,
            version,
            id,
            offset,
            0,
            Seq::new(16, |i: int| 0u8),
            Seq::empty(),
            subs,
        );
    }
}

// ---------------------------------------------------------------------------
// Event data
// ---------------------------------------------------------------------------

/// A data element of a template: `<Data Name="name">` with the value of a
/// substitution in it.
pub struct DataElement {
    pub name: Seq<char>,
    pub id: u16,
    pub vtype: u16,
    pub optional: bool,
}

/// The nodes of a data element.
pub open spec fn element_nodes(d: DataElement) -> Seq<NodeText> {
    seq![
        TNode::OpenElem("Data"@),
        TNode::Attr("Name"@, TValue::Literal(d.name)),
        TNode::Text(TValue::Sub { id: d.id, vtype: d.vtype, optional: d.optional }),
        TNode::CloseElem,
    ]
}

/// The nodes of data elements, one after the other.
pub open spec fn elements_nodes(elements: Seq<DataElement>) -> Seq<NodeText>
    decreases elements.len(),
{
    if elements.len() == 0 {
        Seq::empty()
    } else {
        elements_nodes(elements.drop_last()) + element_nodes(elements.last())
    }
}

/// The nodes of event data: `<EventData>` with data elements in it.
pub open spec fn event_data_nodes(elements: Seq<DataElement>) -> Seq<NodeText> {
    seq![TNode::OpenElem("EventData"@)] + elements_nodes(elements) + seq![TNode::CloseElem]
}

/// The text that the substitutions give for a data element; empty where there is
/// none.
#[verifier::opaque]
pub open spec fn element_text(d: DataElement, subs: Seq<SubText>) -> Seq<char> {
    if d.id < subs.len() && !(d.optional && subs[d.id as int].vtype == 0) {
        value_text(subs[d.id as int].data, subs[d.id as int].vtype)
    } else {
        Seq::empty()
    }
}

/// Whether data fields are those of before with the texts of data elements put
/// under their names, as far as they are not empty. A later element of the same
/// name counts.
pub open spec fn holds_elements(
    before: Map<Seq<char>, Seq<char>>,
    after: Map<Seq<char>, Seq<char>>,
    elements: Seq<DataElement>,
    subs: Seq<SubText>,
) -> bool {
    &&& forall|i: int|
        {
            &&& 0 <= i < elements.len()
            &&& element_text(#[trigger] elements[i], subs).len() > 0
            &&& forall|j: int|
                i < j < elements.len() && element_text(elements[j], subs).len() > 0
                    ==> (#[trigger] elements[j]).name != elements[i].name
        } ==> after.contains_key(elements[i].name) && after[elements[i].name] == element_text(
            elements[i],
            subs,
        )
    &&& forall|n: Seq<char>|
        (forall|i: int|
            0 <= i < elements.len() && (#[trigger] elements[i]).name == n ==> element_text(
                elements[i],
                subs,
            ).len() == 0) ==> #[trigger] after.contains_key(n) == before.contains_key(n)
            && after[n] == before[n]
}

/// A walk after one node more.
#[verifier::opaque]
spec fn stepped(
    w: Walk,
    n: NodeText,
    subs: Seq<SubText>,
    record: int,
    templates: TemplateTexts,
) -> Walk {
    match n {
        TNode::OpenElem(name) => on_open(w, name),
        TNode::Attr(name, v) => on_attr(w, name, value_of(v, subs)),
        TNode::Text(v) => match v {
            TValue::Sub { id, vtype: 0x21, .. } => if id < subs.len() {
                Walk {
                    fields: embedded(subs[id as int].data, record, templates, w.fields),
                    ..w
                }
            } else {
                w
            },
            _ => on_text(w, value_of(v, subs)),
        },
        TNode::CloseElem => on_close(w),
        TNode::CloseEmpty => on_close(w),
    }
}

proof fn lemma_step(
    nodes: Seq<NodeText>,
    n: NodeText,
    subs: Seq<SubText>,
    record: int,
    templates: TemplateTexts,
    fields: FieldsText,
)
    ensures
        walked(nodes.push(n), subs, record, templates, fields) == stepped(
            walked(nodes, subs, record, templates, fields),
            n,
            subs,
            record,
            templates,
        ),
{
    reveal(stepped);
    assert(nodes.push(n).drop_last() =~= nodes);
}

/// A walk before the first node.
spec fn at_start(fields: FieldsText) -> Walk {
    Walk { stack: Seq::empty(), in_event_data: false, data_name: None, fields }
}

proof fn lemma_words()
    ensures
        "Data"@.len() == 4,
        "Name"@.len() == 4,
        "EventData"@.len() == 9,
        "Provider"@.len() == 8,
        "TimeCreated"@.len() == 11,
        "EventID"@.len() == 7,
        "Computer"@.len() == 8 && "Computer"@[0] == 'C',
        "System"@.len() == 6,
        "Event"@.len() == 5,
        "SystemTime"@.len() == 10,
        "Provider"@[0] == 'P',
{
    reveal_strlit("Data");
    reveal_strlit("Name");
    reveal_strlit("EventData");
    reveal_strlit("Provider");
    reveal_strlit("TimeCreated");
    reveal_strlit("EventID");
    reveal_strlit("Computer");
    reveal_strlit("System");
    reveal_strlit("Event");
    reveal_strlit("SystemTime");
}

/// A data element within event data puts its text under its name.
proof fn lemma_element(
    w: Walk,
    d: DataElement,
    subs: Seq<SubText>,
    record: int,
    templates: TemplateTexts,
)
    requires
        w.stack == seq!["EventData"@],
        w.in_event_data,
        d.vtype != 0x21,
    ensures
        ({
            let n = element_nodes(d);
            let w1 = stepped(w, n[0], subs, record, templates);
            let w2 = stepped(w1, n[1], subs, record, templates);
            let w3 = stepped(w2, n[2], subs, record, templates);
            let w4 = stepped(w3, n[3], subs, record, templates);
            &&& w4.stack == w.stack
            &&& w4.in_event_data
            &&& w4.fields == (EventFields {
                data: if element_text(d, subs).len() > 0 {
                    w.fields.data.insert(d.name, element_text(d, subs))
                } else {
                    w.fields.data
                },
                ..w.fields
            })
        }),
{
    reveal(stepped);
    reveal(element_text);
    lemma_words();
    let n = element_nodes(d);
    let w1 = stepped(w, n[0], subs, record, templates);
    let w2 = stepped(w1, n[1], subs, record, templates);
    assert(w1.stack.last() == "Data"@);
    assert(w2 == (Walk { data_name: Some(d.name), ..w1 }));
    assert(value_of(
        TValue::Sub { id: d.id, vtype: d.vtype, optional: d.optional },
        subs,
    ) == element_text(d, subs));
    assert(w1.stack.drop_last() =~= w.stack);
}

/// One element more.
proof fn lemma_holds_more(
    before: Map<Seq<char>, Seq<char>>,
    had: Map<Seq<char>, Seq<char>>,
    elements: Seq<DataElement>,
    subs: Seq<SubText>,
)
    requires
        elements.len() > 0,
        holds_elements(before, had, elements.drop_last(), subs),
    ensures
        holds_elements(
            before,
            if element_text(elements.last(), subs).len() > 0 {
                had.insert(elements.last().name, element_text(elements.last(), subs))
            } else {
                had
            },
            elements,
            subs,
        ),
{
    let f = elements.drop_last();
    let d = elements.last();
    let t = element_text(d, subs);
    assert(elements[elements.len() - 1] == d);
    let now = if t.len() > 0 {
        had.insert(d.name, t)
    } else {
        had
    };
    assert forall|i: int|
        {
            &&& 0 <= i < elements.len()
            &&& element_text(#[trigger] elements[i], subs).len() > 0
            &&& forall|j: int|
                i < j < elements.len() && element_text(elements[j], subs).len() > 0
                    ==> (#[trigger] elements[j]).name != elements[i].name
        } implies now.contains_key(elements[i].name) && now[elements[i].name] == element_text(
        elements[i],
        subs,
    ) by {
        if i < f.len() {
            assert(f[i] == elements[i]);
            assert forall|j: int| i < j < f.len() && element_text(f[j], subs).len() > 0 implies (
            #[trigger] f[j]).name != f[i].name by {
                assert(f[j] == elements[j]);
            }
            if t.len() > 0 {
                assert(elements[elements.len() - 1].name != elements[i].name);
            }
        }
    }
    assert forall|n: Seq<char>|
        (forall|i: int|
            0 <= i < elements.len() && (#[trigger] elements[i]).name == n ==> element_text(
                elements[i],
                subs,
            ).len() == 0) implies #[trigger] now.contains_key(n) == before.contains_key(n)
        && now[n] == before[n] by {
        assert forall|i: int| 0 <= i < f.len() && (#[trigger] f[i]).name == n implies element_text(
            f[i],
            subs,
        ).len() == 0 by {
            assert(f[i] == elements[i]);
        }
        assert(had.contains_key(n) == before.contains_key(n));
        assert(elements[elements.len() - 1].name == n ==> t.len() == 0);
    }
}

/// The data elements within event data are taken in one by one.
proof fn lemma_elements(
    elements: Seq<DataElement>,
    subs: Seq<SubText>,
    record: int,
    templates: TemplateTexts,
    fields: FieldsText,
)
    requires
        forall|i: int| 0 <= i < elements.len() ==> (#[trigger] elements[i]).vtype != 0x21,
    ensures
        ({
            let nodes = seq![TNode::OpenElem("EventData"@)] + elements_nodes(elements);
            let w = walked(nodes, subs, record, templates, fields);
            &&& w.stack == seq!["EventData"@]
            &&& w.in_event_data
            &&& w.fields == (EventFields { data: w.fields.data, ..fields })
            &&& holds_elements(fields.data, w.fields.data, elements, subs)
        }),
    decreases elements.len(),
{
    let start = Seq::<NodeText>::empty();
    let open = TNode::OpenElem("EventData"@);
    if elements.len() == 0 {
        lemma_words();
        lemma_step(start, open, subs, record, templates, fields);
        reveal(stepped);
        assert(seq![open] + elements_nodes(elements) =~= start.push(open));
        assert(Seq::<Seq<char>>::empty().push("EventData"@) =~= seq!["EventData"@]);
    } else {
        let f = elements.drop_last();
        let d = elements.last();
        assert(elements[elements.len() - 1] == d);
        assert forall|i: int| 0 <= i < f.len() implies (#[trigger] f[i]).vtype != 0x21 by {
            assert(f[i] == elements[i]);
        }
        lemma_elements(f, subs, record, templates, fields);
        let n0 = seq![open] + elements_nodes(f);
        let w0 = walked(n0, subs, record, templates, fields);
        let more = element_nodes(d);
        let n1 = n0.push(more[0]);
        let n2 = n1.push(more[1]);
        let n3 = n2.push(more[2]);
        let n4 = n3.push(more[3]);
        assert(n4 =~= seq![open] + elements_nodes(elements));
        lemma_step(n0, more[0], subs, record, templates, fields);
        lemma_step(n1, more[1], subs, record, templates, fields);
        lemma_step(n2, more[2], subs, record, templates, fields);
        lemma_step(n3, more[3], subs, record, templates, fields);
        lemma_element(w0, d, subs, record, templates);
        lemma_holds_more(fields.data, w0.fields.data, elements, subs);
    }
}

/// The event data of a template put their texts under their names in the fields of
/// an event, and leave the other fields alone.
pub proof fn law_event_data_fill_the_fields(
    elements: Seq<DataElement>,
    subs: Seq<SubText>,
    record: int,
    templates: TemplateTexts,
    fields: FieldsText,
)
    requires
        forall|i: int| 0 <= i < elements.len() ==> (#[trigger] elements[i]).vtype != 0x21,
    ensures
        ({
            let after = walked(
                event_data_nodes(elements),
                subs,
                record,
                templates,
                fields,
            ).fields;
            &&& holds_elements(fields.data, after.data, elements, subs)
            &&& after == (EventFields { data: after.data, ..fields })
        }),
{
    lemma_elements(elements, subs, record, templates, fields);
    let n0 = seq![TNode::OpenElem("EventData"@)] + elements_nodes(elements);
    let e = TNode::<Seq<char>>::CloseElem;
    lemma_step(n0, e, subs, record, templates, fields);
    reveal(stepped);
    assert(n0.push(e) =~= event_data_nodes(elements));
}

/// A part of binary XML that stands in a substitution begins with the opcode of a
/// template instance. Where it refers to a template of the chunk that is event
/// data, the texts of its own substitutions stand under the names of the data
/// elements in the fields of the event afterwards.
pub proof fn law_embedded_event_data_fill_the_fields(
    d: Seq<u8>,
    version: u8,
    id: u32,
    offset: i32,
    subs: Seq<SubText>,
    elements: Seq<DataElement>,
    record: int,
    templates: TemplateTexts,
    fields: FieldsText,
)
    requires
        has_at(d, 0, seq![0x0cu8] + stored_reference(version, id, offset, subs)),
        storable(subs),
        0 <= offset < record,
        templates.contains_key(offset),
        templates[offset] == event_data_nodes(elements),
        forall|i: int| 0 <= i < elements.len() ==> (#[trigger] elements[i]).vtype != 0x21,
    ensures
        ({
            let after = embedded(d, record, templates, fields);
            &&& holds_elements(fields.data, after.data, elements, subs)
            &&& after == (EventFields { data: after.data, ..fields })
        }),
{
    lemma_has_parts(d, 0, seq![0x0cu8], stored_reference(version, id, offset, subs));
    assert(d.subrange(0, 1)[0] == d[0]);
    law_stored_instances_read_back(
        d,
        1,
        record,
        version,
        id,
        offset,
        0,
        Seq::new(16, |i: int| 0u8),
        Seq::empty(),
        subs,
    );
    law_event_data_fill_the_fields(elements, subs, record, templates, fields);
}

/// The same where the embedded part defines its template in place.
pub proof fn law_embedded_definitions_fill_the_fields(
    d: Seq<u8>,
    version: u8,
    id: u32,
    offset: i32,
    next: u32,
    guid: Seq<u8>,
    body: Seq<u8>,
    subs: Seq<SubText>,
    elements: Seq<DataElement>,
    record: int,
    templates: TemplateTexts,
    fields: FieldsText,
)
    requires
        has_at(
            d,
            0,
            seq![0x0cu8] + stored_definition(version, id, offset, next, guid, body, subs),
        ),
        storable(subs),
        0 <= offset,
        offset >= record,
        guid.len() == 16,
        body.len() < 0x8000_0000,
        templates.contains_key(offset),
        templates[offset] == event_data_nodes(elements),
        forall|i: int| 0 <= i < elements.len() ==> (#[trigger] elements[i]).vtype != 0x21,
    ensures
        ({
            let after = embedded(d, record, templates, fields);
            &&& holds_elements(fields.data, after.data, elements, subs)
            &&& after == (EventFields { data: after.data, ..fields })
        }),
{
    lemma_has_parts(
        d,
        0,
        seq![0x0cu8],
        stored_definition(version, id, offset, next, guid, body, subs),
    );
    assert(d.subrange(0, 1)[0] == d[0]);
    law_stored_instances_read_back(d, 1, record, version, id, offset, next, guid, body, subs);
    law_event_data_fill_the_fields(elements, subs, record, templates, fields);
}

// ---------------------------------------------------------------------------
// Records
// ---------------------------------------------------------------------------

/// The template of an event: the values of its system part, and the substitution
/// that holds its data.
pub struct EventTemplate {
    pub provider: TValue<Seq<char>>,
    pub event_id: TValue<Seq<char>>,
    pub time: TValue<Seq<char>>,
    pub computer: TValue<Seq<char>>,
    pub part: u16,
}

/// The nodes of an element with one attribute and nothing in it.
pub open spec fn attribute_nodes(
    name: Seq<char>,
    attribute: Seq<char>,
    v: TValue<Seq<char>>,
) -> Seq<NodeText> {
    seq![TNode::OpenElem(name), TNode::Attr(attribute, v), TNode::CloseEmpty]
}

/// The nodes of an element with a text in it.
pub open spec fn text_nodes(name: Seq<char>, v: TValue<Seq<char>>) -> Seq<NodeText> {
    seq![TNode::OpenElem(name), TNode::Text(v), TNode::CloseElem]
}

/// The nodes of the template of an event: `<Event>` with `<System>` in it, and the
/// part with its data.
pub open spec fn event_nodes(h: EventTemplate) -> Seq<NodeText> {
    seq![TNode::OpenElem("Event"@), TNode::OpenElem("System"@)] + attribute_nodes(
        "Provider"@,
        "Name"@,
        h.provider,
    ) + text_nodes("EventID"@, h.event_id) + attribute_nodes(
        "TimeCreated"@,
        "SystemTime"@,
        h.time,
    ) + text_nodes("Computer"@, h.computer) + seq![
        TNode::CloseElem,
        TNode::Text(TValue::Sub { id: h.part, vtype: 0x21, optional: false }),
        TNode::CloseElem,
    ]
}

/// Whether the text of a value is plain: its type is not that of binary XML.
pub open spec fn is_plain(v: TValue<Seq<char>>) -> bool {
    v matches TValue::Sub { vtype, .. } ==> vtype != 0x21
}

/// The template of an event gives the provider, the number of the event, its time
/// and the computer, each from its own place, and the data of the part that stands
/// in its last substitution.
pub proof fn law_event_templates_fill_the_fields(
    h: EventTemplate,
    subs: Seq<SubText>,
    record: int,
    templates: TemplateTexts,
    record_number: u64,
    number: u16,
)
    requires
        is_plain(h.event_id),
        is_plain(h.computer),
        h.part < subs.len(),
        value_of(h.event_id, subs) == decimal(number as nat),
        value_of(h.computer, subs).len() > 0,
    ensures
        ({
            let f = walked(
                event_nodes(h),
                subs,
                record,
                templates,
                no_fields(record_number),
            ).fields;
            f == embedded(
                subs[h.part as int].data,
                record,
                templates,
                EventFields {
                    event_id: Some(number),
                    time_created: Some(value_of(h.time, subs)),
                    record_number,
                    computer: Some(value_of(h.computer, subs)),
                    provider: Some(value_of(h.provider, subs)),
                    data: Map::empty(),
                },
            )
        }),
{
    lemma_event_fields(h, subs, record, templates, record_number, number);
    reveal(walk);
}

/// A walk over nodes.
#[verifier::opaque]
spec fn walk(
    nodes: Seq<NodeText>,
    subs: Seq<SubText>,
    record: int,
    templates: TemplateTexts,
    fields: FieldsText,
) -> Walk {
    walked(nodes, subs, record, templates, fields)
}

proof fn lemma_event_fields(
    h: EventTemplate,
    subs: Seq<SubText>,
    record: int,
    templates: TemplateTexts,
    record_number: u64,
    number: u16,
)
    requires
        is_plain(h.event_id),
        is_plain(h.computer),
        h.part < subs.len(),
        value_of(h.event_id, subs) == decimal(number as nat),
        value_of(h.computer, subs).len() > 0,
    ensures
        walk(event_nodes(h), subs, record, templates, no_fields(record_number)).fields == embedded(
            subs[h.part as int].data,
            record,
            templates,
            EventFields {
                event_id: Some(number),
                time_created: Some(value_of(h.time, subs)),
                record_number,
                computer: Some(value_of(h.computer, subs)),
                provider: Some(value_of(h.provider, subs)),
                data: Map::empty(),
            },
        ),
{
    lemma_words();
    law_decimal_reads_back(number as nat, 0xffff);
    lemma_nonempty_decimal(number as nat);
    let start = no_fields(record_number);
    let open = seq![TNode::OpenElem("Event"@), TNode::OpenElem("System"@)];
    let s1 = open + attribute_nodes("Provider"@, "Name"@, h.provider);
    let s2 = s1 + text_nodes("EventID"@, h.event_id);
    let s3 = s2 + attribute_nodes("TimeCreated"@, "SystemTime"@, h.time);
    let s4 = s3 + text_nodes("Computer"@, h.computer);
    lemma_opening(subs, record, templates, start);
    lemma_attribute_leaf(open, "Provider"@, "Name"@, h.provider, subs, record, templates, start);
    lemma_text_leaf(s1, "EventID"@, h.event_id, subs, record, templates, start);
    lemma_attribute_leaf(s2, "TimeCreated"@, "SystemTime"@, h.time, subs, record, templates, start);
    lemma_text_leaf(s3, "Computer"@, h.computer, subs, record, templates, start);
    lemma_ending(s4, h.part, subs, record, templates, start);
}

/// The start of the template of an event.
proof fn lemma_opening(
    subs: Seq<SubText>,
    record: int,
    templates: TemplateTexts,
    fields: FieldsText,
)
    ensures
        walk(
            seq![TNode::OpenElem("Event"@), TNode::OpenElem("System"@)],
            subs,
            record,
            templates,
            fields,
        ) == (Walk { stack: seq!["Event"@, "System"@], ..at_start(fields) }),
{
    lemma_words();
    reveal(walk);
    let (a, b) = (TNode::OpenElem("Event"@), TNode::OpenElem("System"@));
    let s0 = Seq::<NodeText>::empty();
    lemma_step(s0, a, subs, record, templates, fields);
    lemma_step(s0.push(a), b, subs, record, templates, fields);
    assert(s0.push(a).push(b) =~= seq![a, b]);
    reveal(stepped);
    assert(Seq::<Seq<char>>::empty().push("Event"@).push("System"@) =~= seq![
        "Event"@,
        "System"@,
    ]);
}

/// An element with an attribute, outside event data.
proof fn lemma_attribute_leaf(
    nodes: Seq<NodeText>,
    name: Seq<char>,
    attribute: Seq<char>,
    v: TValue<Seq<char>>,
    subs: Seq<SubText>,
    record: int,
    templates: TemplateTexts,
    fields: FieldsText,
)
    requires
        name != "EventData"@,
        !walk(nodes, subs, record, templates, fields).in_event_data,
        walk(nodes, subs, record, templates, fields).data_name is None,
    ensures
        ({
            let w = walk(nodes, subs, record, templates, fields);
            walk(
                nodes + attribute_nodes(name, attribute, v),
                subs,
                record,
                templates,
                fields,
            ) == (Walk {
                fields: if name == "Provider"@ && attribute == "Name"@ {
                    EventFields { provider: Some(value_of(v, subs)), ..w.fields }
                } else if name == "TimeCreated"@ && attribute == "SystemTime"@ {
                    EventFields { time_created: Some(value_of(v, subs)), ..w.fields }
                } else {
                    w.fields
                },
                ..w
            })
        }),
{
    let (a, b, c) = (TNode::OpenElem(name), TNode::Attr(attribute, v), TNode::<Seq<char>>::CloseEmpty);
    reveal(walk);
    let w = walk(nodes, subs, record, templates, fields);
    lemma_step(nodes, a, subs, record, templates, fields);
    lemma_step(nodes.push(a), b, subs, record, templates, fields);
    lemma_step(nodes.push(a).push(b), c, subs, record, templates, fields);
    assert(nodes.push(a).push(b).push(c) =~= nodes + attribute_nodes(name, attribute, v));
    reveal(stepped);
    assert(w.stack.push(name).last() == name);
    assert(w.stack.push(name).drop_last() =~= w.stack);
}

/// An element with a text, outside event data.
proof fn lemma_text_leaf(
    nodes: Seq<NodeText>,
    name: Seq<char>,
    v: TValue<Seq<char>>,
    subs: Seq<SubText>,
    record: int,
    templates: TemplateTexts,
    fields: FieldsText,
)
    requires
        name != "EventData"@,
        is_plain(v),
        value_of(v, subs).len() > 0,
        !walk(nodes, subs, record, templates, fields).in_event_data,
        walk(nodes, subs, record, templates, fields).data_name is None,
    ensures
        ({
            let w = walk(nodes, subs, record, templates, fields);
            walk(nodes + text_nodes(name, v), subs, record, templates, fields) == (Walk {
                fields: if name == "EventID"@ {
                    EventFields {
                        event_id: match unsigned_of(value_of(v, subs), 0xffff) {
                            Some(n) => Some(n as u16),
                            None => None,
                        },
                        ..w.fields
                    }
                } else if name == "Computer"@ {
                    EventFields { computer: Some(value_of(v, subs)), ..w.fields }
                } else {
                    w.fields
                },
                ..w
            })
        }),
{
    let (a, b, c) = (TNode::OpenElem(name), TNode::Text(v), TNode::<Seq<char>>::CloseElem);
    reveal(walk);
    let w = walk(nodes, subs, record, templates, fields);
    lemma_step(nodes, a, subs, record, templates, fields);
    lemma_step(nodes.push(a), b, subs, record, templates, fields);
    lemma_step(nodes.push(a).push(b), c, subs, record, templates, fields);
    assert(nodes.push(a).push(b).push(c) =~= nodes + text_nodes(name, v));
    reveal(stepped);
    assert(w.stack.push(name).last() == name);
    assert(w.stack.push(name).drop_last() =~= w.stack);
}

/// The end of the template of an event.
proof fn lemma_ending(
    nodes: Seq<NodeText>,
    part: u16,
    subs: Seq<SubText>,
    record: int,
    templates: TemplateTexts,
    fields: FieldsText,
)
    requires
        part < subs.len(),
    ensures
        walk(
            nodes + seq![
                TNode::CloseElem,
                TNode::Text(TValue::Sub { id: part, vtype: 0x21, optional: false }),
                TNode::CloseElem,
            ],
            subs,
            record,
            templates,
            fields,
        ).fields == embedded(
            subs[part as int].data,
            record,
            templates,
            walk(nodes, subs, record, templates, fields).fields,
        ),
{
    reveal(walk);
    let a = TNode::<Seq<char>>::CloseElem;
    let b = TNode::Text(TValue::Sub { id: part, vtype: 0x21, optional: false });
    lemma_step(nodes, a, subs, record, templates, fields);
    lemma_step(nodes.push(a), b, subs, record, templates, fields);
    lemma_step(nodes.push(a).push(b), a, subs, record, templates, fields);
    assert(nodes.push(a).push(b).push(a) =~= nodes + seq![a, b, a]);
    reveal(stepped);
}

proof fn lemma_nonempty_decimal(n: nat)
    ensures
        decimal(n).len() > 0,
{
}

/// A record of a log is made of its own event template and the event data that its
/// last substitution refers to: the event that comes of it holds the number, the
/// time and the computer of the one and the texts of the other under their names.
pub proof fn law_records_hold_their_event_data(
    c: Seq<u8>,
    pos: int,
    flags: Seq<u8>,
    version: u8,
    id: u32,
    offset: i32,
    subs: Seq<SubText>,
    h: EventTemplate,
    inner_version: u8,
    inner_id: u32,
    inner_offset: i32,
    inner_subs: Seq<SubText>,
    elements: Seq<DataElement>,
    n: u16,
)
    requires
        0 <= pos,
        flags.len() == 3,
        storable(subs),
        storable(inner_subs),
        0 <= offset < pos,
        0 <= inner_offset < pos,
        has_at(
            c,
            pos + 24,
            seq![0x0fu8] + (flags + (seq![0x0cu8] + stored_reference(version, id, offset, subs))),
        ),
        templates_of(c).contains_key(offset),
        templates_of(c)[offset] == event_nodes(h),
        is_plain(h.event_id),
        is_plain(h.computer),
        value_of(h.event_id, subs) == decimal(n as nat),
        value_of(h.computer, subs).len() > 0,
        h.part < subs.len(),
        has_at(
            subs[h.part as int].data,
            0,
            seq![0x0cu8] + stored_reference(inner_version, inner_id, inner_offset, inner_subs),
        ),
        templates_of(c).contains_key(inner_offset),
        templates_of(c)[inner_offset] == event_data_nodes(elements),
        forall|i: int| 0 <= i < elements.len() ==> (#[trigger] elements[i]).vtype != 0x21,
    ensures
        record_fields(c, pos) matches Some(f) && f.event_id == Some(n) && f.time_created == Some(
            value_of(h.time, subs),
        ) && f.computer == Some(value_of(h.computer, subs)) && f.provider == Some(
            value_of(h.provider, subs),
        ) && f.record_number == word64(c, pos + 8) && holds_elements(
            Map::empty(),
            f.data,
            elements,
            inner_subs,
        ),
{
    law_stored_payloads_read_back(c, pos + 24, pos, flags, version, id, offset, subs);
    let templates = templates_of(c);
    let number = word64(c, pos + 8);
    law_event_templates_fill_the_fields(h, subs, pos, templates, number, n);
    law_embedded_event_data_fill_the_fields(
        subs[h.part as int].data,
        inner_version,
        inner_id,
        inner_offset,
        inner_subs,
        elements,
        pos,
        templates,
        EventFields {
            event_id: Some(n),
            time_created: Some(value_of(h.time, subs)),
            record_number: number,
            computer: Some(value_of(h.computer, subs)),
            provider: Some(value_of(h.provider, subs)),
            data: Map::empty(),
        },
    );
}

/// The fields of a record make an event where the provider is Sysmon, an event
/// number is there, and the number of the record is one of the chunk. The event has
/// that number, the computer and the data of the fields, and the time that they
/// give, or else that of the record. Otherwise there is no event.
pub proof fn law_sysmon_records_make_events(c: Seq<u8>, pos: int, f: FieldsText)
    requires
        record_fields(c, pos) == Some(f),
    ensures
        ({
            let first = signed64(word64(c, 0x18));
            let last = signed64(word64(c, 0x20));
            let number = signed64(word64(c, pos + 8));
            let counts = first <= number && number <= last && f.provider == Some(
                "Microsoft-Windows-Sysmon"@,
            ) && f.event_id is Some;
            let events = record_outcome(c, pos).0;
            &&& !counts ==> events.len() == 0
            &&& events.len() <= 1
            &&& counts ==> exists|raw: RecordText|
                {
                    &&& #[trigger] event_of(raw, f.data) is Some == (events.len() == 1)
                    &&& event_of(raw, f.data) is Some ==> events[0] == event_of(
                        raw,
                        f.data,
                    )->Some_0
                    &&& Some(raw.event_id) == f.event_id
                    &&& raw.record_number == f.record_number
                    &&& f.computer is Some ==> Some(raw.computer) == f.computer
                    &&& f.computer is None ==> raw.computer.len() == 0
                    &&& raw.user_name is None
                    &&& raw.time_created == if f.time_created is Some
                        && f.time_created->Some_0.len() > 0 {
                        f.time_created->Some_0
                    } else {
                        filetime_text(signed64(word64(c, pos + 16)))
                    }
                }
        }),
{
    if let Some(raw) = sysmon_record(f, signed64(word64(c, pos + 16))) {
        assert(event_of(raw, f.data) is Some == (at_most_one(event_of(raw, f.data)).len() == 1));
    }
}

} // verus!
