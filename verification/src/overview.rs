//! The overview of a process: its details, its activity by category, and the
//! techniques that its events refer to.

use crate::clock::{show_instant, shown_instant};
use crate::event::SysmonEvent;
use crate::event_store::{law_positions_are_exact, positions, Group};
use crate::guid::{bytes_text, guid_bytes, ProcessGuid};
use crate::numbers::{pid_or, pid_text};
use crate::process_tree::ProcessText;
use crate::state::AppState;
use crate::text::{
    after_prefix, begins_with, owned_or, same_text, split, split_of, strip_prefix,
    text_or, texts, to_uppercase, trim, trim_of, uppercase,
};
use crate::tree_rows::{is_system, runs_as_system};
use crate::types::Timestamp;
use vstd::prelude::*;

verus! {

// ---------------------------------------------------------------------------
// Details
// ---------------------------------------------------------------------------

/// How an integrity level is tinted.
#[derive(Debug, Clone, Copy, PartialEq, Eq, Structural)]
pub enum IntegrityShade {
    System,
    High,
    Plain,
}

/// The details of a process. `S` is how texts are held. What is not known is a
/// dash.
pub struct Overview<S = String> {
    pub image: S,
    pub pid: S,
    pub guid: S,
    pub command_line: S,
    pub user: S,
    /// Whether the user is SYSTEM.
    pub user_is_system: bool,
    pub integrity: S,
    pub integrity_shade: IntegrityShade,
    pub logon_id: S,
    pub computer: S,
    pub start: S,
    pub end: S,
    pub file_version: S,
    pub description: S,
    pub product: S,
    pub company: S,
    pub original_file_name: S,
    pub md5: S,
    pub sha256: S,
    pub imphash: S,
    pub parent_image: S,
    pub parent_pid: S,
}

impl Overview {
    /// The details as text.
    pub open spec fn view(&self) -> Overview<Seq<char>> {
        Overview {
            image: self.image@,
            pid: self.pid@,
            guid: self.guid@,
            command_line: self.command_line@,
            user: self.user@,
            user_is_system: self.user_is_system,
            integrity: self.integrity@,
            integrity_shade: self.integrity_shade,
            logon_id: self.logon_id@,
            computer: self.computer@,
            start: self.start@,
            end: self.end@,
            file_version: self.file_version@,
            description: self.description@,
            product: self.product@,
            company: self.company@,
            original_file_name: self.original_file_name@,
            md5: self.md5@,
            sha256: self.sha256@,
            imphash: self.imphash@,
            parent_image: self.parent_image@,
            parent_pid: self.parent_pid@,
        }
    }
}

/// The hash that the parts of a hash list give under a name: what follows the
/// name in the last part that begins with it, or a dash.
pub open spec fn hash_among(parts: Seq<Seq<char>>, name: Seq<char>) -> Seq<char>
    decreases parts.len(),
{
    if parts.len() == 0 {
        "-"@
    } else {
        match after_prefix(trim_of(parts.last()), name) {
            Some(v) => v,
            None => hash_among(parts.drop_last(), name),
        }
    }
}

/// The hash under a name in a list of hashes, which commas separate.
pub open spec fn hash_of(hashes: Seq<char>, name: Seq<char>) -> Seq<char> {
    hash_among(split_of(hashes, ','), name)
}

/// No text begins with two of the names.
proof fn lemma_names_differ(s: Seq<char>)
    ensures
        !(after_prefix(s, "MD5="@) is Some && after_prefix(s, "SHA256="@) is Some),
        !(after_prefix(s, "MD5="@) is Some && after_prefix(s, "IMPHASH="@) is Some),
        !(after_prefix(s, "SHA256="@) is Some && after_prefix(s, "IMPHASH="@) is Some),
{
    reveal_strlit("MD5=");
    reveal_strlit("SHA256=");
    reveal_strlit("IMPHASH=");
    let a = "MD5="@;
    let b = "SHA256="@;
    let c = "IMPHASH="@;
    if begins_with(s, a) {
        assert(s.subrange(0, a.len() as int)[0] == a[0]);
    }
    if begins_with(s, b) {
        assert(s.subrange(0, b.len() as int)[0] == b[0]);
    }
    if begins_with(s, c) {
        assert(s.subrange(0, c.len() as int)[0] == c[0]);
    }
}

/// The MD5, SHA256 and import hashes of a list of hashes.
pub fn split_hashes(hashes: &str) -> (r: (String, String, String))
    ensures
        r.0@ == hash_of(hashes@, "MD5="@),
        r.1@ == hash_of(hashes@, "SHA256="@),
        r.2@ == hash_of(hashes@, "IMPHASH="@),
{
    let parts = split(hashes, ',');
    let ghost all = texts(parts@);
    let mut md5: String = "-".to_owned();
    let mut sha256: String = "-".to_owned();
    let mut imphash: String = "-".to_owned();
    let mut i: usize = 0;
    assert(all.take(0) =~= Seq::empty());
    while i < parts.len()
        invariant
            i <= parts.len(),
            all == texts(parts@),
            md5@ == hash_among(all.take(i as int), "MD5="@),
            sha256@ == hash_among(all.take(i as int), "SHA256="@),
            imphash@ == hash_among(all.take(i as int), "IMPHASH="@),
        decreases parts.len() - i,
    {
        let part = trim(parts[i].as_str());
        proof {
            assert(all.take(i + 1).drop_last() =~= all.take(i as int));
            assert(all.take(i + 1).last() == parts@[i as int]@);
            lemma_names_differ(part@);
        }
        match strip_prefix(part.as_str(), "MD5=") {
            Some(v) => {
                md5 = v;
            },
            None => match strip_prefix(part.as_str(), "SHA256=") {
                Some(v) => {
                    sha256 = v;
                },
                None => match strip_prefix(part.as_str(), "IMPHASH=") {
                    Some(v) => {
                        imphash = v;
                    },
                    None => {},
                },
            },
        }
        i += 1;
    }
    assert(all.take(all.len() as int) =~= all);
    (md5, sha256, imphash)
}

/// The tint of an integrity level.
pub open spec fn integrity_shade(level: Seq<char>) -> IntegrityShade {
    if uppercase(level) == "SYSTEM"@ {
        IntegrityShade::System
    } else if uppercase(level) == "HIGH"@ {
        IntegrityShade::High
    } else {
        IntegrityShade::Plain
    }
}

/// The end of a process.
pub open spec fn end_text(end: Option<Timestamp>) -> Seq<char> {
    match end {
        Some(t) => shown_instant(t, "%Y-%m-%d %H:%M:%S%.3f UTC"@),
        None => "Not Detected"@,
    }
}

/// The details of a process.
pub open spec fn details_of(g: ProcessGuid, n: ProcessText) -> Overview<Seq<char>> {
    let user = text_or(n.user, "-"@);
    let level = text_or(n.integrity_level, "-"@);
    let hashes = text_or(n.hashes, "-"@);
    Overview {
        image: text_or(n.image, "-"@),
        pid: pid_or(n.pid, "-"@),
        guid: bytes_text(g@),
        command_line: text_or(n.command_line, "-"@),
        user,
        user_is_system: is_system(user),
        integrity: level,
        integrity_shade: integrity_shade(level),
        logon_id: text_or(n.logon_id, "-"@),
        computer: n.computer,
        start: shown_instant(n.start_time, "%Y-%m-%d %H:%M:%S%.3f UTC"@),
        end: end_text(n.end_time),
        file_version: text_or(n.file_version, "-"@),
        description: text_or(n.description, "-"@),
        product: text_or(n.product, "-"@),
        company: text_or(n.company, "-"@),
        original_file_name: text_or(n.original_file_name, "-"@),
        md5: hash_of(hashes, "MD5="@),
        sha256: hash_of(hashes, "SHA256="@),
        imphash: hash_of(hashes, "IMPHASH="@),
        parent_image: text_or(n.parent_image, "-"@),
        parent_pid: pid_or(n.parent_pid, "-"@),
    }
}

impl AppState {
    /// The details of a process in the tree.
    pub fn process_details(&self, guid: &ProcessGuid) -> (d: Option<Overview>)
        ensures
            match d {
                Some(o) => self.process_tree@.nodes.contains_key(*guid) && o@ == details_of(
                    *guid,
                    self.process_tree@.nodes[*guid],
                ),
                None => !self.process_tree@.nodes.contains_key(*guid),
            },
    {
        let node = match self.process_tree.get(guid) {
            Some(n) => n,
            None => {
                return None;
            },
        };
        let user = owned_or(&node.user, "-");
        let integrity = owned_or(&node.integrity_level, "-");
        let hashes = owned_or(&node.hashes, "-");
        let (md5, sha256, imphash) = split_hashes(hashes.as_str());
        let upper = to_uppercase(integrity.as_str());
        let shade = if same_text(upper.as_str(), "SYSTEM") {
            IntegrityShade::System
        } else if same_text(upper.as_str(), "HIGH") {
            IntegrityShade::High
        } else {
            IntegrityShade::Plain
        };
        let end = match &node.end_time {
            Some(t) => show_instant(t, "%Y-%m-%d %H:%M:%S%.3f UTC"),
            None => "Not Detected".to_owned(),
        };
        Some(
            Overview {
                image: owned_or(&node.image, "-"),
                pid: pid_text(node.pid, "-"),
                guid: guid_bytes(guid),
                command_line: owned_or(&node.command_line, "-"),
                user_is_system: runs_as_system(user.as_str()),
                user,
                integrity,
                integrity_shade: shade,
                logon_id: owned_or(&node.logon_id, "-"),
                computer: node.computer.clone(),
                start: show_instant(&node.start_time, "%Y-%m-%d %H:%M:%S%.3f UTC"),
                end,
                file_version: owned_or(&node.file_version, "-"),
                description: owned_or(&node.description, "-"),
                product: owned_or(&node.product, "-"),
                company: owned_or(&node.company, "-"),
                original_file_name: owned_or(&node.original_file_name, "-"),
                md5,
                sha256,
                imphash,
                parent_image: owned_or(&node.parent_image, "-"),
                parent_pid: pid_text(node.parent_pid, "-"),
            },
        )
    }
}

// ---------------------------------------------------------------------------
// Activity
// ---------------------------------------------------------------------------

/// A category of events.
#[derive(Debug, Clone, Copy, PartialEq, Eq, Structural)]
pub enum Activity {
    Network,
    Files,
    Registry,
    Pipes,
    Injection,
    Drivers,
    Other,
}

impl Activity {
    /// The event numbers of a category.
    pub open spec fn numbers(self) -> Seq<u16> {
        match self {
            Activity::Network => seq![3u16, 22u16],
            Activity::Files => seq![11u16, 15u16, 23u16, 26u16, 27u16, 28u16, 29u16],
            Activity::Registry => seq![12u16, 13u16, 14u16],
            Activity::Pipes => seq![17u16, 18u16],
            Activity::Injection => seq![8u16, 10u16, 25u16],
            Activity::Drivers => seq![6u16, 7u16],
            Activity::Other => seq![9u16, 16u16, 24u16],
        }
    }

    /// The event numbers of this category.
    pub fn event_ids(&self) -> (ids: Vec<u16>)
        ensures
            ids@ == self.numbers(),
    {
        let ids: Vec<u16> = match self {
            Activity::Network => vec![3, 22],
            Activity::Files => vec![11, 15, 23, 26, 27, 28, 29],
            Activity::Registry => vec![12, 13, 14],
            Activity::Pipes => vec![17, 18],
            Activity::Injection => vec![8, 10, 25],
            Activity::Drivers => vec![6, 7],
            Activity::Other => vec![9, 16, 24],
        };
        assert(ids@ =~= self.numbers());
        ids
    }
}

impl AppState {
    /// The number of events of a process in a category.
    pub fn activity_count(&self, guid: &ProcessGuid, activity: Activity) -> (n: usize)
        requires
            self.event_store.wf(),
        ensures
            n == positions(
                self.event_store.events@,
                Group::ProcessAndTypes(*guid, activity.numbers()),
            ).len(),
    {
        let ids = activity.event_ids();
        self.event_store.events_for_process_and_types(guid, ids.as_slice()).len()
    }
}

// ---------------------------------------------------------------------------
// Techniques
// ---------------------------------------------------------------------------

/// A technique that events of one number refer to. `S` is how texts are held.
pub struct TechniqueNote<S = String> {
    pub event_id: u16,
    pub id: S,
    pub name: S,
}

impl TechniqueNote {
    /// The note as text.
    pub open spec fn view(&self) -> TechniqueNote<Seq<char>> {
        TechniqueNote { event_id: self.event_id, id: self.id@, name: self.name@ }
    }
}

/// Notes as text.
pub open spec fn notes_text(v: Seq<TechniqueNote>) -> Seq<TechniqueNote<Seq<char>>> {
    v.map_values(|n: TechniqueNote| n@)
}

/// Whether there is a note on an event number and a technique.
pub open spec fn noted(notes: Seq<TechniqueNote<Seq<char>>>, event_id: u16, id: Seq<char>) -> bool {
    exists|i: int|
        0 <= i < notes.len() && (#[trigger] notes[i]).event_id == event_id && notes[i].id == id
}

/// The techniques that the events at given positions refer to: one note for each
/// event number and technique, in the order in which they first occur.
pub open spec fn notes_of(events: Seq<SysmonEvent>, at: Seq<usize>) -> Seq<
    TechniqueNote<Seq<char>>,
>
    decreases at.len(),
{
    if at.len() == 0 {
        Seq::empty()
    } else {
        let front = notes_of(events, at.drop_last());
        let e = events[at.last() as int];
        match e.mitre_technique {
            Some(m) => if noted(front, e.event_id, m.id@) {
                front
            } else {
                front.push(TechniqueNote { event_id: e.event_id, id: m.id@, name: m.name@ })
            },
            None => front,
        }
    }
}

/// Whether there is a note on an event number and a technique.
fn has_note(notes: &Vec<TechniqueNote>, event_id: u16, id: &str) -> (r: bool)
    ensures
        r == noted(notes_text(notes@), event_id, id@),
{
    let mut i: usize = 0;
    while i < notes.len()
        invariant
            i <= notes.len(),
            forall|k: int|
                0 <= k < i ==> !((#[trigger] notes@[k]).event_id == event_id && notes@[k].id@
                    == id@),
        decreases notes.len() - i,
    {
        if notes[i].event_id == event_id && same_text(notes[i].id.as_str(), id) {
            assert(notes_text(notes@)[i as int].event_id == event_id);
            return true;
        }
        i += 1;
    }
    proof {
        let t = notes_text(notes@);
        assert forall|k: int| 0 <= k < t.len() implies !((#[trigger] t[k]).event_id == event_id
            && t[k].id == id@) by {
            assert(t[k] == notes@[k]@);
        }
    }
    false
}

impl AppState {
    /// The techniques that the events of a process refer to.
    pub fn technique_notes(&self, guid: &ProcessGuid) -> (notes: Vec<TechniqueNote>)
        requires
            self.event_store.wf(),
        ensures
            notes_text(notes@) == notes_of(
                self.event_store.events@,
                positions(self.event_store.events@, Group::Process(*guid)),
            ),
    {
        let ghost events = self.event_store.events@;
        let at = self.event_store.events_for_process(guid);
        let total: usize = self.event_store.events.len();
        proof {
            law_positions_are_exact(events, Group::Process(*guid));
        }
        let mut notes: Vec<TechniqueNote> = Vec::new();
        let mut i: usize = 0;
        assert(at@.take(0) =~= Seq::empty());
        assert(notes_text(notes@) =~= Seq::empty());
        while i < at.len()
            invariant
                i <= at.len(),
                events == self.event_store.events@,
                forall|k: int| 0 <= k < at@.len() ==> (#[trigger] at@[k]) < events.len(),
                notes_text(notes@) == notes_of(events, at@.take(i as int)),
            decreases at.len() - i,
        {
            assert(at@.take(i + 1).drop_last() =~= at@.take(i as int));
            assert(at@.take(i + 1).last() == at@[i as int]);
            assert(at@[i as int] < events.len());
            let e = &self.event_store.events[at[i]];
            if let Some(m) = &e.mitre_technique {
                if !has_note(&notes, e.event_id, m.id.as_str()) {
                    let ghost before = notes@;
                    let note = TechniqueNote {
                        event_id: e.event_id,
                        id: m.id.clone(),
                        name: m.name.clone(),
                    };
                    let ghost text = note@;
                    notes.push(note);
                    assert(notes_text(notes@) =~= notes_text(before).push(text));
                }
            }
            i += 1;
        }
        assert(at@.take(at@.len() as int) =~= at@);
        notes
    }
}

/// No event number and technique are noted twice.
pub proof fn law_techniques_are_noted_once(events: Seq<SysmonEvent>, at: Seq<usize>)
    ensures
        forall|i: int, j: int|
            0 <= i < j < notes_of(events, at).len() ==> !((#[trigger] notes_of(events, at)[i]).event_id
                == (#[trigger] notes_of(events, at)[j]).event_id && notes_of(events, at)[i].id
                == notes_of(events, at)[j].id),
    decreases at.len(),
{
    if at.len() > 0 {
        law_techniques_are_noted_once(events, at.drop_last());
        let front = notes_of(events, at.drop_last());
        let all = notes_of(events, at);
        assert forall|i: int, j: int| 0 <= i < j < all.len() implies !((#[trigger] all[i]).event_id
            == (#[trigger] all[j]).event_id && all[i].id == all[j].id) by {
            assert(all[i] == front[i]);
            if j < front.len() {
                assert(all[j] == front[j]);
            }
        }
    }
}

} // verus!
