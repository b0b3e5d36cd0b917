//! The fields of an event: what a template says once its substitutions are in.

use crate::evtx::binxml::{nodes_text, NodeText, TNode, TValue};
use crate::evtx::bytes::{past, signed32, skipped, word32, Cur};
use crate::evtx::record::{
    instance_at, law_substitutions_fit, read_instance, subs_text, SubEntry, SubText,
};
use crate::evtx::templates::{templates_text, TemplateTexts, Templates};
use crate::evtx::value::{decode_value, value_text};
use crate::numbers::{parse_unsigned, unsigned_of};
use crate::text::{opt_text, same_text, texts};
use crate::textmap;
use crate::textmap::{FieldMap, TextMap};
use vstd::prelude::*;

verus! {

broadcast use vstd::std_specs::hash::group_hash_axioms;

/// The fields of an event.
pub struct EventFields<S = String, M = FieldMap> {
    pub event_id: Option<u16>,
    pub time_created: Option<S>,
    pub record_number: u64,
    pub computer: Option<S>,
    pub provider: Option<S>,
    pub data: M,
}

/// The fields of an event, as text.
pub type FieldsText = EventFields<Seq<char>, Map<Seq<char>, Seq<char>>>;

impl EventFields {
    /// The fields as text.
    pub open spec fn view(&self) -> FieldsText {
        EventFields {
            event_id: self.event_id,
            time_created: opt_text(self.time_created),
            record_number: self.record_number,
            computer: opt_text(self.computer),
            provider: opt_text(self.provider),
            data: textmap::fields_of(self.data),
        }
    }
}

/// The fields before anything is known but the number of the record.
pub open spec fn no_fields(record_number: u64) -> FieldsText {
    EventFields {
        event_id: None,
        time_created: None,
        record_number,
        computer: None,
        provider: None,
        data: Map::empty(),
    }
}

// ---------------------------------------------------------------------------
// What templates say
// ---------------------------------------------------------------------------

/// The text of a value of a template. A reference past the substitutions and an
/// optional one to a value of no type are empty.
pub open spec fn value_of(v: TValue<Seq<char>>, subs: Seq<SubText>) -> Seq<char> {
    match v {
        TValue::Literal(s) => s,
        TValue::Sub { id, optional, .. } => if id >= subs.len() {
            Seq::empty()
        } else if optional && subs[id as int].vtype == 0 {
            Seq::empty()
        } else {
            value_text(subs[id as int].data, subs[id as int].vtype)
        },
    }
}

/// How far the reading of a template has come: the elements that are open,
/// whether they are within the event data, the name of the data element, and
/// the fields found.
pub struct Walk {
    pub stack: Seq<Seq<char>>,
    pub in_event_data: bool,
    pub data_name: Option<Seq<char>>,
    pub fields: FieldsText,
}

/// The element that was opened last.
pub open spec fn top(stack: Seq<Seq<char>>) -> Seq<char> {
    if stack.len() > 0 {
        stack.last()
    } else {
        ""@
    }
}

/// An element opens.
pub open spec fn on_open(w: Walk, name: Seq<char>) -> Walk {
    Walk {
        stack: w.stack.push(name),
        in_event_data: w.in_event_data || name == "EventData"@,
        data_name: if w.in_event_data && name == "Data"@ {
            None
        } else {
            w.data_name
        },
        fields: w.fields,
    }
}

/// An attribute: the provider, the time, or the name of a data element.
pub open spec fn on_attr(w: Walk, name: Seq<char>, value: Seq<char>) -> Walk {
    if top(w.stack) == "Provider"@ && name == "Name"@ {
        Walk { fields: EventFields { provider: Some(value), ..w.fields }, ..w }
    } else if top(w.stack) == "TimeCreated"@ && name == "SystemTime"@ {
        Walk { fields: EventFields { time_created: Some(value), ..w.fields }, ..w }
    } else if top(w.stack) == "Data"@ && name == "Name"@ && w.in_event_data {
        Walk { data_name: Some(value), ..w }
    } else {
        w
    }
}

/// Text: the event number, the computer, or the value of a data element. Empty
/// text says nothing.
pub open spec fn on_text(w: Walk, value: Seq<char>) -> Walk {
    if value.len() == 0 {
        w
    } else if top(w.stack) == "EventID"@ {
        let id = match unsigned_of(value, 0xffff) {
            Some(n) => Some(n as u16),
            None => None,
        };
        Walk { fields: EventFields { event_id: id, ..w.fields }, ..w }
    } else if top(w.stack) == "Computer"@ {
        Walk { fields: EventFields { computer: Some(value), ..w.fields }, ..w }
    } else if top(w.stack) == "Data"@ && w.in_event_data {
        match w.data_name {
            Some(name) => Walk {
                fields: EventFields { data: w.fields.data.insert(name, value), ..w.fields },
                ..w
            },
            None => w,
        }
    } else {
        w
    }
}

/// An element closes.
pub open spec fn on_close(w: Walk) -> Walk {
    Walk {
        stack: if w.stack.len() > 0 {
            w.stack.drop_last()
        } else {
            w.stack
        },
        in_event_data: w.in_event_data && !(w.stack.len() > 0 && w.stack.last() == "EventData"@),
        data_name: None,
        fields: w.fields,
    }
}

/// The length of the longest value among substitutions.
pub open spec fn longest(subs: Seq<SubText>) -> nat
    decreases subs.len(),
{
    if subs.len() == 0 {
        0
    } else {
        let front = longest(subs.drop_last());
        if subs.last().data.len() > front {
            subs.last().data.len()
        } else {
            front
        }
    }
}

/// No value is longer than the longest.
pub proof fn lemma_longest(subs: Seq<SubText>, i: int)
    requires
        0 <= i < subs.len(),
    ensures
        subs[i].data.len() <= longest(subs),
    decreases subs.len(),
{
    if i < subs.len() - 1 {
        lemma_longest(subs.drop_last(), i);
    }
}

/// The longest value is no longer than a bound on all.
pub proof fn lemma_longest_bound(subs: Seq<SubText>, bound: nat)
    requires
        forall|i: int| 0 <= i < subs.len() ==> (#[trigger] subs[i]).data.len() <= bound,
    ensures
        longest(subs) <= bound,
    decreases subs.len(),
{
    if subs.len() > 0 {
        assert forall|i: int| 0 <= i < subs.drop_last().len() implies (
        #[trigger] subs.drop_last()[i]).data.len() <= bound by {
            assert(subs.drop_last()[i] == subs[i]);
        }
        lemma_longest_bound(subs.drop_last(), bound);
        assert(subs[subs.len() - 1].data.len() <= bound);
    }
}

/// The substitutions of an instance that follows an opcode are shorter than the
/// bytes it stands in.
pub proof fn lemma_instance_shrinks(d: Seq<u8>, record: int)
    requires
        d.len() > 0,
        instance_at(d, 1, record) is Some,
    ensures
        longest(instance_at(d, 1, record)->Some_0.1) < d.len(),
{
    let subs = instance_at(d, 1, record)->Some_0.1;
    assert forall|i: int| 0 <= i < subs.len() implies (#[trigger] subs[i]).data.len() <= (d.len()
        - 1) as nat by {
        let q = past(d, past(d, 1, 1), 4);
        let offset = signed32(word32(d, q));
        let r = q + 4;
        let s = skipped(d, past(d, r, 4), 16);
        let t = if 0 <= offset < record {
            r
        } else {
            skipped(
                d,
                s + 4,
                signed32(word32(d, s)) as int,
            )
        };
        let count = signed32(word32(d, t));
        law_substitutions_fit(d, t + 4, count as nat);
    }
    lemma_longest_bound(subs, (d.len() - 1) as nat);
}

/// The walk over the nodes of a template, from given fields on. A text whose
/// type is binary XML is an event part of its own.
pub open spec fn walked(
    nodes: Seq<NodeText>,
    subs: Seq<SubText>,
    record: int,
    templates: TemplateTexts,
    fields: FieldsText,
) -> Walk
    decreases longest(subs), 1int, nodes.len(),
{
    if nodes.len() == 0 {
        Walk { stack: Seq::empty(), in_event_data: false, data_name: None, fields }
    } else {
        let w = walked(nodes.drop_last(), subs, record, templates, fields);
        match nodes.last() {
            TNode::OpenElem(name) => on_open(w, name),
            TNode::Attr(name, v) => on_attr(w, name, value_of(v, subs)),
            TNode::Text(v) => match v {
                TValue::Sub { id, vtype: 0x21, .. } => if id < subs.len() {
                    proof {
                        lemma_longest(subs, id as int);
                    }
                    Walk {
                        fields: embedded(subs[id as int].data, record, templates, w.fields),
                        ..w
                    }
                } else {
                    w
                },
                _ => on_text(w, value_of(v, subs)),
            },
            TNode::CloseElem => on_close(w),
            TNode::CloseEmpty => on_close(w),
        }
    }
}

/// The fields after an embedded part: a template instance whose template is
/// known. Anything else adds nothing.
pub open spec fn embedded(
    d: Seq<u8>,
    record: int,
    templates: TemplateTexts,
    fields: FieldsText,
) -> FieldsText
    decreases d.len(), 0int, 0nat,
{
    if d.len() == 0 || d[0] != 0x0c {
        fields
    } else {
        match instance_at(d, 1, record) {
            None => fields,
            Some((offset, subs)) => if templates.contains_key(offset) {
                proof {
                    lemma_instance_shrinks(d, record);
                }
                walked(templates[offset], subs, record, templates, fields).fields
            } else {
                fields
            },
        }
    }
}

/// A walk keeps the number of the record.
pub proof fn law_record_number_kept(
    nodes: Seq<NodeText>,
    subs: Seq<SubText>,
    record: int,
    templates: TemplateTexts,
    fields: FieldsText,
)
    ensures
        walked(nodes, subs, record, templates, fields).fields.record_number
            == fields.record_number,
    decreases longest(subs), 1int, nodes.len(),
{
    if nodes.len() > 0 {
        law_record_number_kept(nodes.drop_last(), subs, record, templates, fields);
        let w = walked(nodes.drop_last(), subs, record, templates, fields);
        if let TNode::Text(TValue::Sub { id, vtype: 0x21, .. }) = nodes.last() {
            if id < subs.len() {
                lemma_longest(subs, id as int);
                law_embedded_number_kept(subs[id as int].data, record, templates, w.fields);
            }
        }
    }
}

/// An embedded part keeps the number of the record.
pub proof fn law_embedded_number_kept(
    d: Seq<u8>,
    record: int,
    templates: TemplateTexts,
    fields: FieldsText,
)
    ensures
        embedded(d, record, templates, fields).record_number
            == fields.record_number,
    decreases d.len(), 0int, 0nat,
{
    if d.len() > 0 && d[0] == 0x0c {
        if let Some((offset, subs)) = instance_at(d, 1, record) {
            lemma_instance_shrinks(d, record);
            if templates.contains_key(offset) {
                law_record_number_kept(templates[offset], subs, record, templates, fields);
            }
        }
    }
}

// ---------------------------------------------------------------------------
// Reading
// ---------------------------------------------------------------------------

/// The text of a value of a template.
pub fn resolve_tvalue(v: &TValue, subs: &Vec<SubEntry>) -> (s: String)
    ensures
        s@ == value_of(v@, subs_text(subs@)),
{
    match v {
        TValue::Literal(s) => s.clone(),
        TValue::Sub { id, optional, .. } => {
            let i: usize = *id as usize;
            if i >= subs.len() {
                return String::new();
            }
            if *optional && subs[i].vtype == 0 {
                return String::new();
            }
            decode_value(subs[i].data.as_slice(), subs[i].vtype)
        },
    }
}

/// The element that was opened last.
fn top_of(stack: &Vec<String>) -> (name: &str)
    ensures
        name@ == top(texts(stack@)),
{
    if stack.len() > 0 {
        stack[stack.len() - 1].as_str()
    } else {
        ""
    }
}

/// Takes the text of the element on top of the stack into the fields.
fn take_text(
    stack: &Vec<String>,
    in_event_data: bool,
    data_name: &Option<String>,
    value: String,
    fields: &mut EventFields,
)
    ensures
        on_text(
            Walk {
                stack: texts(stack@),
                in_event_data,
                data_name: opt_text(*data_name),
                fields: old(fields)@,
            },
            value@,
        ) == (Walk {
            stack: texts(stack@),
            in_event_data,
            data_name: opt_text(*data_name),
            fields: final(fields)@,
        }),
{
    if value.as_str().is_empty() {
        return ;
    }
    let elem = top_of(stack);
    if same_text(elem, "EventID") {
        fields.event_id = match parse_unsigned(value.as_str(), 0xffff) {
            Some(n) => Some(n as u16),
            None => None,
        };
    } else if same_text(elem, "Computer") {
        fields.computer = Some(value);
    } else if same_text(elem, "Data") && in_event_data {
        if let Some(name) = data_name {
            let ghost before = textmap::fields_of(fields.data);
            fields.data.insert(name.clone(), value);
            assert(textmap::fields_of(fields.data) =~= before.insert(name@, value@));
        }
    }
}

/// Adds what a template says to the fields.
pub fn extract_into_fields(
    nodes: &Vec<TNode>,
    subs: &Vec<SubEntry>,
    record: usize,
    templates: &Templates,
    fields: &mut EventFields,
)
    ensures
        final(fields)@ == walked(
            nodes_text(nodes@),
            subs_text(subs@),
            record as int,
            templates_text(*templates),
            old(fields)@,
        ).fields,
    decreases longest(subs_text(subs@)), 1int,
{
    let ghost all = nodes_text(nodes@);
    let ghost st = subs_text(subs@);
    let ghost tt = templates_text(*templates);
    let ghost start = fields@;
    let mut stack: Vec<String> = Vec::new();
    let mut in_event_data: bool = false;
    let mut data_name: Option<String> = None;
    let mut i: usize = 0;
    assert(all.take(0) =~= Seq::empty());
    assert(texts(stack@) =~= Seq::empty());
    while i < nodes.len()
        invariant
            i <= nodes.len(),
            all == nodes_text(nodes@),
            st == subs_text(subs@),
            tt == templates_text(*templates),
            start == old(fields)@,
            walked(all.take(i as int), st, record as int, tt, start) == (Walk {
                stack: texts(stack@),
                in_event_data,
                data_name: opt_text(data_name),
                fields: fields@,
            }),
        decreases nodes.len() - i,
    {
        let ghost w = walked(all.take(i as int), st, record as int, tt, start);
        assert(all.take(i + 1).drop_last() =~= all.take(i as int));
        assert(all.take(i + 1).last() == nodes@[i as int]@);
        match &nodes[i] {
            TNode::OpenElem(name) => {
                if in_event_data && same_text(name.as_str(), "Data") {
                    data_name = None;
                }
                if same_text(name.as_str(), "EventData") {
                    in_event_data = true;
                }
                let ghost before = stack@;
                stack.push(name.clone());
                assert(texts(stack@) =~= texts(before).push(name@));
            },
            TNode::Attr(name, v) => {
                let elem = top_of(&stack);
                if same_text(elem, "Provider") && same_text(name.as_str(), "Name") {
                    fields.provider = Some(resolve_tvalue(v, subs));
                } else if same_text(elem, "TimeCreated") && same_text(name.as_str(), "SystemTime") {
                    fields.time_created = Some(resolve_tvalue(v, subs));
                } else if same_text(elem, "Data") && same_text(name.as_str(), "Name")
                    && in_event_data {
                    data_name = Some(resolve_tvalue(v, subs));
                }
            },
            TNode::Text(v) => {
                let part: Option<u16> = match v {
                    TValue::Sub { id, vtype, .. } => if *vtype == 0x21 {
                        Some(*id)
                    } else {
                        None
                    },
                    TValue::Literal(_) => None,
                };
                match part {
                    Some(id) => {
                        if (id as usize) < subs.len() {
                            proof {
                                lemma_longest(st, id as int);
                            }
                            parse_binxml_sub_into(
                                subs[id as usize].data.as_slice(),
                                record,
                                templates,
                                fields,
                            );
                        }
                    },
                    None => {
                        let value = resolve_tvalue(v, subs);
                        take_text(&stack, in_event_data, &data_name, value, fields);
                    },
                }
            },
            TNode::CloseElem | TNode::CloseEmpty => {
                let ghost before = stack@;
                if let Some(name) = stack.pop() {
                    assert(texts(stack@) =~= texts(before).drop_last());
                    assert(texts(before).last() == name@);
                    if same_text(name.as_str(), "EventData") {
                        in_event_data = false;
                    }
                }
                data_name = None;
            },
        }
        i += 1;
    }
    assert(all.take(all.len() as int) =~= all);
}

/// Adds what an embedded part says to the fields.
pub fn parse_binxml_sub_into(
    data: &[u8],
    record: usize,
    templates: &Templates,
    fields: &mut EventFields,
)
    ensures
        final(fields)@ == embedded(
            data@,
            record as int,
            templates_text(*templates),
            old(fields)@,
        ),
    decreases data@.len(), 0int,
{
    let mut cur = Cur::new(data, 0);
    match cur.read_u8() {
        Some(0x0c) => {},
        _ => {
            return ;
        },
    }
    match read_instance(cur, record) {
        None => {},
        Some((offset, subs)) => {
            proof {
                lemma_instance_shrinks(data@, record as int);
            }
            if let Some(nodes) = templates.get(&offset) {
                extract_into_fields(nodes, &subs, record, templates, fields);
            }
        },
    }
}

/// The fields of the event that a template and substitutions make.
pub fn extract_event_fields(
    nodes: &Vec<TNode>,
    subs: &Vec<SubEntry>,
    record_number: u64,
    record: usize,
    templates: &Templates,
) -> (fields: EventFields)
    ensures
        fields@ == walked(
            nodes_text(nodes@),
            subs_text(subs@),
            record as int,
            templates_text(*templates),
            no_fields(record_number),
        ).fields,
{
    let mut fields = EventFields {
        event_id: None,
        time_created: None,
        record_number,
        computer: None,
        provider: None,
        data: TextMap::new(),
    };
    assert(textmap::fields_of(fields.data) =~= Map::empty());
    extract_into_fields(nodes, subs, record, templates, &mut fields);
    fields
}

} // verus!
