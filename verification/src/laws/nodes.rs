//! Laws of binary XML: what is stored in it is read as nodes, one after the other.

use crate::evtx::binxml::{attributes_at, binxml_at, string_at, NodeText, TNode, TValue};
use crate::evtx::chunk_at;
use crate::evtx::fields::{on_close, on_text, Walk};
use crate::evtx::templates::template_at;
use crate::laws::evtx::{has_at, law_stored_numbers_read_back, stored16, stored32};
use crate::laws::values::{law_stored_texts_read_back, stored_text, text_units};
use vstd::prelude::*;

verus! {

/// A text as it is stored in binary XML after its opcode: its kind, the number of its
/// UTF-16 units, and the units.
pub open spec fn stored_literal(s: Seq<char>) -> Seq<u8> {
    seq![0x01u8] + (stored16(text_units(s).len() as int) + stored_text(s))
}

/// Whether a text can be stored in binary XML.
pub open spec fn fits_literal(s: Seq<char>) -> bool {
    text_units(s).len() < 0x8000 && (s.len() == 0 || s.last() != '\0')
}

proof fn lemma_two_parts(b: Seq<u8>, p: int, s: Seq<u8>, t: Seq<u8>)
    requires
        has_at(b, p, s + t),
    ensures
        has_at(b, p, s),
        has_at(b, p + s.len(), t),
        p + s.len() + t.len() <= b.len(),
        s.len() == 1 ==> b[p] == s[0],
{
    let w = b.subrange(p, p + (s + t).len());
    assert(b.subrange(p, p + s.len()) =~= w.subrange(0, s.len() as int));
    assert((s + t).subrange(0, s.len() as int) =~= s);
    assert(b.subrange(p + s.len(), p + s.len() + t.len()) =~= w.subrange(
        s.len() as int,
        (s.len() + t.len()) as int,
    ));
    assert((s + t).subrange(s.len() as int, (s.len() + t.len()) as int) =~= t);
    if s.len() == 1 {
        assert(w[0] == b[p]);
        assert((s + t)[0] == s[0]);
    }
}

proof fn lemma_literal(b: Seq<u8>, p: int, s: Seq<char>)
    requires
        fits_literal(s),
        has_at(b, p, stored_literal(s)),
    ensures
        crate::evtx::binxml::literal_at(b, p) == (Some(s), p + 3 + 2 * text_units(s).len()),
        p + 3 + 2 * text_units(s).len() <= b.len(),
        p >= 0,
{
    let n = text_units(s).len() as int;
    lemma_two_parts(b, p, seq![0x01u8], stored16(n) + stored_text(s));
    lemma_two_parts(b, p + 1, stored16(n), stored_text(s));
    law_stored_numbers_read_back(b, p + 1, n);
    law_stored_texts_read_back(s);
    assert(stored_text(s).len() == 2 * n);
    assert(b.subrange(p + 3, p + 3 + 2 * n) == stored_text(s));
}

/// A text between elements is read as a text, and what is stored behind it follows.
/// Whether its opcode says that more follows makes no difference.
pub proof fn law_texts_are_read_as_nodes(b: Seq<u8>, p: int, end: int, op: u8, s: Seq<char>)
    requires
        fits_literal(s),
        op == 0x05 || op == 0x45,
        has_at(b, p, seq![op] + stored_literal(s)),
        p < end,
    ensures
        ({
            let rest = binxml_at(b, p + 4 + 2 * text_units(s).len(), end);
            binxml_at(b, p, end) == (
                seq![TNode::Text(TValue::Literal(s))] + rest.0,
                rest.1,
            )
        }),
{
    lemma_two_parts(b, p, seq![op], stored_literal(s));
    lemma_literal(b, p + 1, s);
}

/// An attribute whose name stands earlier is read with its name and its text, and
/// the attributes behind it follow. Whether its opcode says that more follow makes
/// no difference.
pub proof fn law_attributes_are_read_as_nodes(
    b: Seq<u8>,
    p: int,
    end: int,
    op: u8,
    offset: int,
    name: Seq<char>,
    text_op: u8,
    s: Seq<char>,
)
    requires
        fits_literal(s),
        op == 0x06 || op == 0x46,
        text_op == 0x05 || text_op == 0x45,
        has_at(b, p, seq![op] + (stored32(offset) + (seq![text_op] + stored_literal(s)))),
        string_at(b, offset) == Some(name),
        0 <= offset <= p,
        offset < 0x1_0000_0000,
        p < end,
    ensures
        ({
            let rest = attributes_at(b, p + 9 + 2 * text_units(s).len(), end);
            attributes_at(b, p, end) == (
                seq![TNode::Attr(name, TValue::Literal(s))] + rest.0,
                rest.1,
            )
        }),
{
    let tail = seq![text_op] + stored_literal(s);
    lemma_two_parts(b, p, seq![op], stored32(offset) + tail);
    assert(stored32(offset).len() == 4);
    lemma_two_parts(b, p + 1, stored32(offset), tail);
    law_stored_numbers_read_back(b, p + 1, offset);
    lemma_two_parts(b, p + 5, seq![text_op], stored_literal(s));
    lemma_literal(b, p + 6, s);
}

/// An element with nothing in it, whose name stands earlier, is opened and closed,
/// and what is stored behind it follows.
pub proof fn law_empty_elements_are_read_as_nodes(
    b: Seq<u8>,
    p: int,
    end: int,
    id: int,
    size: int,
    offset: int,
    name: Seq<char>,
)
    requires
        has_at(
            b,
            p,
            seq![0x01u8] + (stored16(id) + (stored32(size) + (stored32(offset) + seq![0x03u8]))),
        ),
        string_at(b, offset) == Some(name),
        0 <= offset <= p,
        offset < 0x1_0000_0000,
        0 <= size < 0x8000_0000,
        0 <= id < 0x1_0000,
        p < end,
    ensures
        ({
            let rest = binxml_at(b, p + 12, end);
            binxml_at(b, p, end) == (
                seq![TNode::OpenElem(name), TNode::CloseEmpty] + rest.0,
                rest.1,
            )
        }),
{
    let t3 = stored32(offset) + seq![0x03u8];
    let t2 = stored32(size) + t3;
    let t1 = stored16(id) + t2;
    lemma_two_parts(b, p, seq![0x01u8], t1);
    lemma_two_parts(b, p + 1, stored16(id), t2);
    assert(stored32(size).len() == 4 && stored32(offset).len() == 4);
    lemma_two_parts(b, p + 3, stored32(size), t3);
    law_stored_numbers_read_back(b, p + 3, size);
    lemma_two_parts(b, p + 7, stored32(offset), seq![0x03u8]);
    law_stored_numbers_read_back(b, p + 7, offset);
    assert(has_at(b, p + 11, seq![0x03u8]));
    assert(b.subrange(p + 11, p + 12)[0] == b[p + 11]);
    let open = seq![TNode::<Seq<char>>::OpenElem(name)];
    let first = crate::evtx::binxml::element_at(b, p + 1, false, end);
    assert(first.0 =~= seq![TNode::OpenElem(name), TNode::CloseEmpty]);
    assert(first.1 == p + 12);
}

/// An element whose name stands right behind its offset is read past that name, with
/// its header and the two bytes at its end.
pub proof fn law_names_in_place_are_read_past(
    b: Seq<u8>,
    p: int,
    end: int,
    id: int,
    size: int,
    head: Seq<u8>,
    name: Seq<char>,
)
    requires
        has_at(
            b,
            p,
            seq![0x01u8] + (stored16(id) + (stored32(size) + (stored32(p + 11) + (head + (stored16(
                text_units(name).len() as int,
            ) + (stored_text(name) + seq![0u8, 0u8, 0x03u8])))))),
        ),
        head.len() == 6,
        text_units(name).len() == name.len(),
        name.len() < 0x8000,
        name.len() == 0 || name.last() != '\0',
        p + 11 < 0x1_0000_0000,
        0 <= size < 0x8000_0000,
        0 <= id < 0x1_0000,
        p < end,
    ensures
        ({
            let rest = binxml_at(b, p + 22 + 2 * name.len(), end);
            binxml_at(b, p, end) == (
                seq![TNode::OpenElem(name), TNode::CloseEmpty] + rest.0,
                rest.1,
            )
        }),
{
    let n = name.len() as int;
    let tail = seq![0u8, 0u8, 0x03u8];
    let t6 = stored_text(name) + tail;
    let t5 = stored16(n) + t6;
    let t4 = head + t5;
    let t3 = stored32(p + 11) + t4;
    let t2 = stored32(size) + t3;
    let t1 = stored16(id) + t2;
    lemma_two_parts(b, p, seq![0x01u8], t1);
    lemma_two_parts(b, p + 1, stored16(id), t2);
    assert(stored32(size).len() == 4 && stored32(p + 11).len() == 4);
    lemma_two_parts(b, p + 3, stored32(size), t3);
    law_stored_numbers_read_back(b, p + 3, size);
    lemma_two_parts(b, p + 7, stored32(p + 11), t4);
    law_stored_numbers_read_back(b, p + 7, p + 11);
    lemma_two_parts(b, p + 11, head, t5);
    lemma_two_parts(b, p + 17, stored16(n), t6);
    law_stored_numbers_read_back(b, p + 17, n);
    assert(stored_text(name).len() == 2 * n);
    lemma_two_parts(b, p + 19, stored_text(name), tail);
    law_stored_texts_read_back(name);
    assert(b.subrange(p + 19, p + 19 + 2 * n) == stored_text(name));
    assert(string_at(b, p + 11) == Some(name));
    let r = p + 21 + 2 * n;
    assert(b.subrange(p + 19 + 2 * n, p + 22 + 2 * n)[2] == b[r]);
    let first = crate::evtx::binxml::element_at(b, p + 1, false, end);
    assert(first.0 =~= seq![TNode::OpenElem(name), TNode::CloseEmpty]);
    assert(first.1 == r + 1);
}

/// A template is found by the place of its opcode and by the place ten bytes behind
/// it alike.
pub proof fn law_templates_are_found_by_either_place(c: Seq<u8>, start: int)
    requires
        10 <= start < c.len(),
        c[start] != 0x0c,
        c[start - 10] == 0x0c,
    ensures
        template_at(c, start) == template_at(c, start - 10),
{
}

/// A text that stands in a data element behind another element is not taken: the
/// name of the data is forgotten where an element ends.
pub proof fn law_names_of_data_end_with_an_element(w: Walk, text: Seq<char>)
    ensures
        on_text(on_close(w), text).fields.data == w.fields.data,
        on_close(w).fields == w.fields,
{
}

/// The end of an element is read as such and what is stored behind it follows; the
/// end of a stream ends the nodes; the start of a stream and its three bytes are
/// none.
pub proof fn law_marks_are_read_as_nodes(b: Seq<u8>, p: int, end: int)
    requires
        0 <= p < end,
        p < b.len(),
    ensures
        b[p] == 0x04 ==> binxml_at(b, p, end).0 == seq![TNode::<Seq<char>>::CloseElem] + binxml_at(
            b,
            p + 1,
            end,
        ).0,
        b[p] == 0x00 ==> binxml_at(b, p, end) == (Seq::<NodeText>::empty(), p + 1),
        b[p] == 0x0f && p + 4 <= b.len() ==> binxml_at(b, p, end) == binxml_at(b, p + 4, end),
{
}

/// The last chunk of a file that was cut off is what is there of it, and behind the
/// end of the file there is none.
pub proof fn law_chunks_that_are_cut_off_are_read_too(data: Seq<u8>, i: int)
    requires
        i >= 0,
    ensures
        ({
            let start = 0x1000 + i * 0x1_0000;
            &&& data.len() <= start ==> chunk_at(data, i) is None
            &&& start < data.len() && data.len() < start + 0x1_0000 ==> chunk_at(data, i) == Some(
                data.skip(start),
            )
            &&& start + 0x1_0000 <= data.len() ==> chunk_at(data, i) == Some(
                data.subrange(start, start + 0x1_0000),
            )
        }),
{
}

} // verus!
