//! The templates of a chunk, found through its template table.

use crate::evtx::binxml::{
    binxml_at, coherent, keeps, nodes_text, parse_binxml, read_string, string_at, NodeText, Strings,
    TNode,
};
use crate::evtx::bytes::{i32_at, signed32, u32_at, word32, Cur};
use std::collections::{HashMap, HashSet};
use vstd::prelude::*;
use vstd::set_lib::{lemma_int_range, set_int_range};

verus! {

broadcast use vstd::std_specs::hash::group_hash_axioms;

/// Templates by their offset in the chunk.
pub type Templates = HashMap<i32, Vec<TNode>>;

/// Templates by their offset, as text.
pub type TemplateTexts = Map<i32, Seq<NodeText>>;

/// What a template cache holds, as text.
pub open spec fn templates_text(t: Templates) -> TemplateTexts {
    t@.map_values(|v: Vec<TNode>| nodes_text(v@))
}

// ---------------------------------------------------------------------------
// Where templates stand
// ---------------------------------------------------------------------------

/// The position of a template's opcode: at `start` or ten bytes before it.
pub open spec fn opcode_at(c: Seq<u8>, start: int) -> Option<int> {
    if start >= c.len() {
        None
    } else if c[start] == 0x0c {
        Some(start)
    } else if start >= 10 && c[start - 10] == 0x0c {
        Some(start - 10)
    } else {
        None
    }
}

/// The template at a position: its offset, the offset of the next template in
/// its chain, and its nodes. After the opcode come a version, an identifier, the
/// two offsets, a GUID and the length of the binary XML.
pub open spec fn template_at(c: Seq<u8>, start: int) -> Option<(i32, i32, Seq<NodeText>)> {
    match opcode_at(c, start) {
        None => None,
        Some(k) => {
            let offset = signed32(word32(c, k + 6));
            let next = signed32(word32(c, k + 10));
            let length = signed32(word32(c, k + 30));
            if k + 34 > c.len() || offset == 0 || length < 0 || k + 34 + length > c.len() {
                None
            } else {
                Some((offset, next, binxml_at(c, k + 34, k + 34 + length).0))
            }
        },
    }
}

/// The positions of a chunk that have not been visited.
pub open spec fn unvisited(c: Seq<u8>, visited: Set<int>) -> Set<int> {
    set_int_range(0, c.len() as int).difference(visited)
}

/// A visit leaves fewer positions to visit.
pub proof fn lemma_visit(c: Seq<u8>, visited: Set<int>, start: int)
    requires
        0 <= start < c.len(),
        !visited.contains(start),
    ensures
        unvisited(c, visited.insert(start)).len() < unvisited(c, visited).len(),
{
    lemma_int_range(0, c.len() as int);
    assert(unvisited(c, visited.insert(start)) =~= unvisited(c, visited).remove(start));
}

/// Collects the chain of templates that begins at `start`, leaving out what was
/// visited before; the templates found and the positions visited.
pub open spec fn chain_from(
    c: Seq<u8>,
    start: int,
    found: TemplateTexts,
    visited: Set<int>,
) -> (TemplateTexts, Set<int>)
    decreases unvisited(c, visited).len(),
{
    if visited.contains(start) || start < 0 || start >= c.len() {
        (found, visited.insert(start))
    } else {
        match template_at(c, start) {
            None => (found, visited.insert(start)),
            Some((offset, next, nodes)) => {
                if next >= 10 {
                    proof {
                        lemma_visit(c, visited, start);
                    }
                    chain_from(c, next - 10, found.insert(offset, nodes), visited.insert(start))
                } else {
                    (found.insert(offset, nodes), visited.insert(start))
                }
            },
        }
    }
}

/// Collects the chains of the first `n` entries of the template table. An entry
/// gives a position ten bytes past the start of its chain.
pub open spec fn chains_of(c: Seq<u8>, n: nat) -> (TemplateTexts, Set<int>)
    decreases n,
{
    if n == 0 {
        (Map::empty(), Set::empty())
    } else {
        let (found, visited) = chains_of(c, (n - 1) as nat);
        let entry = 0x180 + (n - 1) * 4;
        if entry + 4 <= c.len() && word32(c, entry) >= 10 {
            chain_from(c, word32(c, entry) - 10, found, visited)
        } else {
            (found, visited)
        }
    }
}

/// The templates of a chunk.
pub open spec fn templates_of(c: Seq<u8>) -> TemplateTexts {
    chains_of(c, 32).0
}

// ---------------------------------------------------------------------------
// Reading
// ---------------------------------------------------------------------------

/// Reads the template at a position.
fn read_template(chunk: &[u8], start: usize, strings: &mut Strings) -> (r: Option<
    (i32, i32, Vec<TNode>),
>)
    requires
        coherent(*old(strings), chunk@),
    ensures
        coherent(*final(strings), chunk@),
        keeps(*old(strings), *final(strings)),
        match r {
            Some((offset, next, nodes)) => template_at(chunk@, start as int) == Some(
                (offset, next, nodes_text(nodes@)),
            ),
            None => template_at(chunk@, start as int) is None,
        },
{
    let len: usize = chunk.len();
    if start >= len {
        return None;
    }
    let k: usize = if chunk[start] == 0x0c {
        start
    } else if start >= 10 && chunk[start - 10] == 0x0c {
        start - 10
    } else {
        return None;
    };
    if len - k < 34 {
        return None;
    }
    let offset: i32 = i32_at(chunk, k + 6);
    let next: i32 = i32_at(chunk, k + 10);
    let length: i32 = i32_at(chunk, k + 30);
    if offset == 0 || length < 0 || len - k - 34 < length as usize {
        return None;
    }
    let mut cur = Cur::new(chunk, k + 34);
    let nodes = parse_binxml(&mut cur, strings, k + 34 + length as usize);
    Some((offset, next, nodes))
}

/// Adds the chain of templates that begins at `start`.
fn parse_template_at(
    chunk: &[u8],
    start: usize,
    strings: &mut Strings,
    templates: &mut Templates,
    visited: &mut HashSet<usize>,
    Ghost(seen): Ghost<Set<int>>,
)
    requires
        coherent(*old(strings), chunk@),
        forall|x: usize| #[trigger] old(visited)@.contains(x) == seen.contains(x as int),
    ensures
        coherent(*final(strings), chunk@),
        keeps(*old(strings), *final(strings)),
        templates_text(*final(templates)) == chain_from(
            chunk@,
            start as int,
            templates_text(*old(templates)),
            seen,
        ).0,
        forall|x: usize| #[trigger]
            final(visited)@.contains(x) == chain_from(
                chunk@,
                start as int,
                templates_text(*old(templates)),
                seen,
            ).1.contains(x as int),
{
    let ghost goal = chain_from(chunk@, start as int, templates_text(*templates), seen);
    let ghost mut now = seen;
    let mut at: usize = start;
    loop
        invariant
            coherent(*strings, chunk@),
            keeps(*old(strings), *strings),
            goal == chain_from(chunk@, start as int, templates_text(*old(templates)), seen),
            goal == chain_from(chunk@, at as int, templates_text(*templates), now),
            forall|x: usize| #[trigger] visited@.contains(x) == now.contains(x as int),
        decreases unvisited(chunk@, now).len(),
    {
        let ghost had = templates_text(*templates);
        if !visited.insert(at) {
            return ;
        }
        if at >= chunk.len() {
            return ;
        }
        match read_template(chunk, at, strings) {
            None => {
                return ;
            },
            Some((offset, next, nodes)) => {
                let ghost text = nodes_text(nodes@);
                templates.insert(offset, nodes);
                assert(templates_text(*templates) =~= had.insert(offset, text));
                proof {
                    lemma_visit(chunk@, now, at as int);
                }
                if next < 10 {
                    return ;
                }
                proof {
                    now = now.insert(at as int);
                }
                at = next as usize - 10;
            },
        }
    }
}

/// Reads all templates that the template table of a chunk leads to.
pub fn parse_templates(chunk: &[u8], strings: &mut Strings) -> (templates: Templates)
    requires
        coherent(*old(strings), chunk@),
    ensures
        coherent(*final(strings), chunk@),
        keeps(*old(strings), *final(strings)),
        templates_text(templates) == templates_of(chunk@),
{
    let mut templates: Templates = HashMap::new();
    let mut visited: HashSet<usize> = HashSet::new();
    assert(templates_text(templates) =~= Map::empty());
    let mut i: usize = 0;
    while i < 32
        invariant
            i <= 32,
            coherent(*strings, chunk@),
            keeps(*old(strings), *strings),
            templates_text(templates) == chains_of(chunk@, i as nat).0,
            forall|x: usize| #[trigger]
                visited@.contains(x) == chains_of(chunk@, i as nat).1.contains(x as int),
        decreases 32 - i,
    {
        let entry: usize = 0x180 + i * 4;
        if entry + 4 <= chunk.len() {
            let position: u32 = u32_at(chunk, entry);
            if position >= 10 {
                let ghost seen = chains_of(chunk@, i as nat).1;
                parse_template_at(
                    chunk,
                    position as usize - 10,
                    strings,
                    &mut templates,
                    &mut visited,
                    Ghost(seen),
                );
            }
        }
        i += 1;
    }
    templates
}

// ---------------------------------------------------------------------------
// Names
// ---------------------------------------------------------------------------

/// The offsets of names that the first `n` entries of a string table give: those
/// that are not zero and at which a name is stored. The table ends where the bytes
/// do.
pub open spec fn table_offsets(c: Seq<u8>, table_offset: int, n: nat) -> Set<u32>
    decreases n,
{
    if n == 0 {
        Set::empty()
    } else {
        let front = table_offsets(c, table_offset, (n - 1) as nat);
        let entry = table_offset + (n - 1) * 4;
        if entry + 4 <= c.len() && word32(c, entry) != 0 && string_at(
            c,
            word32(c, entry) as int,
        ) is Some {
            front.insert(word32(c, entry))
        } else {
            front
        }
    }
}

/// Past the end of the bytes a string table gives nothing more.
proof fn lemma_table_ends(c: Seq<u8>, table_offset: int, n: nat, m: nat)
    requires
        n <= m,
        table_offset + n * 4 + 4 > c.len(),
    ensures
        table_offsets(c, table_offset, m) == table_offsets(c, table_offset, n),
    decreases m,
{
    if n < m {
        lemma_table_ends(c, table_offset, n, (m - 1) as nat);
    }
}

/// Reads the names that the string table of a chunk leads to.
pub fn build_string_table(chunk: &[u8], table_offset: usize) -> (strings: Strings)
    ensures
        coherent(strings, chunk@),
        strings@.dom() == table_offsets(chunk@, table_offset as int, 64),
{
    let mut strings: Strings = HashMap::new();
    let len: usize = chunk.len();
    let mut i: usize = 0;
    assert(strings@.dom() =~= table_offsets(chunk@, table_offset as int, 0));
    while i < 64
        invariant
            i <= 64,
            len == chunk@.len(),
            coherent(strings, chunk@),
            strings@.dom() == table_offsets(chunk@, table_offset as int, i as nat),
        decreases 64 - i,
    {
        if table_offset > len || len - table_offset < i * 4 + 4 {
            proof {
                lemma_table_ends(chunk@, table_offset as int, i as nat, 64);
            }
            return strings;
        }
        let offset: u32 = u32_at(chunk, table_offset + i * 4);
        if offset != 0 {
            if let Some(s) = read_string(chunk, offset) {
                strings.insert(offset, s);
            }
        }
        i += 1;
        assert(strings@.dom() =~= table_offsets(chunk@, table_offset as int, i as nat));
    }
    strings
}

} // verus!
