//! Sigma rule engine for Sysmon logs.
//!
//! Supports a Sysmon-focused subset of the Sigma language:
//! - rules with field modifiers (contains, startswith, endswith, re, all)
//! - condition expressions (and, or, not, 1 of, all of)
//! - the mapping from log source categories to Sysmon event numbers

use crate::text::{ascii_lower, chars_of, same_text, to_lowercase};
use vstd::prelude::*;

pub mod condition;
pub mod matcher;
pub mod rule;

verus! {

/// The event numbers of a log source category; none for an unknown category.
pub open spec fn category_events(category: Option<Seq<char>>) -> Seq<u16> {
    match category {
        None => seq![],
        Some(c) => {
            if c == "process_creation"@ {
                seq![1u16]
            } else if c == "network_connection"@ {
                seq![3u16]
            } else if c == "process_termination"@ {
                seq![5u16]
            } else if c == "driver_load"@ {
                seq![6u16]
            } else if c == "image_load"@ {
                seq![7u16]
            } else if c == "create_remote_thread"@ {
                seq![8u16]
            } else if c == "raw_access_thread"@ {
                seq![9u16]
            } else if c == "process_access"@ {
                seq![10u16]
            } else if c == "file_event"@ {
                seq![11u16, 23u16, 26u16, 27u16, 28u16, 29u16]
            } else if c == "registry_event"@ {
                seq![12u16, 13u16, 14u16]
            } else if c == "registry_add"@ {
                seq![12u16]
            } else if c == "registry_set"@ {
                seq![13u16]
            } else if c == "registry_rename"@ {
                seq![14u16]
            } else if c == "file_create"@ {
                seq![11u16]
            } else if c == "file_stream_create"@ {
                seq![15u16]
            } else if c == "sysmon_config_change"@ {
                seq![16u16]
            } else if c == "pipe_created"@ {
                seq![17u16]
            } else if c == "pipe_connected"@ {
                seq![18u16]
            } else if c == "wmi_event"@ {
                seq![19u16, 20u16, 21u16]
            } else if c == "dns_query"@ {
                seq![22u16]
            } else if c == "file_delete"@ {
                seq![23u16, 26u16]
            } else if c == "clipboard_change"@ {
                seq![24u16]
            } else if c == "process_tampering"@ {
                seq![25u16]
            } else {
                seq![]
            }
        },
    }
}

/// Maps a Sigma log source category to the Sysmon event numbers it covers.
/// The list is empty for unknown categories.
pub fn category_to_event_ids(category: Option<&str>) -> (ids: Vec<u16>)
    ensures
        ids@ == category_events(
            match category {
                Some(c) => Some(c@),
                None => None,
            },
        ),
{
    let c = match category {
        Some(c) => c,
        None => return vec![],
    };
    if same_text(c, "process_creation") {
        vec![1]
    } else if same_text(c, "network_connection") {
        vec![3]
    } else if same_text(c, "process_termination") {
        vec![5]
    } else if same_text(c, "driver_load") {
        vec![6]
    } else if same_text(c, "image_load") {
        vec![7]
    } else if same_text(c, "create_remote_thread") {
        vec![8]
    } else if same_text(c, "raw_access_thread") {
        vec![9]
    } else if same_text(c, "process_access") {
        vec![10]
    } else if same_text(c, "file_event") {
        vec![11, 23, 26, 27, 28, 29]
    } else if same_text(c, "registry_event") {
        vec![12, 13, 14]
    } else if same_text(c, "registry_add") {
        vec![12]
    } else if same_text(c, "registry_set") {
        vec![13]
    } else if same_text(c, "registry_rename") {
        vec![14]
    } else if same_text(c, "file_create") {
        vec![11]
    } else if same_text(c, "file_stream_create") {
        vec![15]
    } else if same_text(c, "sysmon_config_change") {
        vec![16]
    } else if same_text(c, "pipe_created") {
        vec![17]
    } else if same_text(c, "pipe_connected") {
        vec![18]
    } else if same_text(c, "wmi_event") {
        vec![19, 20, 21]
    } else if same_text(c, "dns_query") {
        vec![22]
    } else if same_text(c, "file_delete") {
        vec![23, 26]
    } else if same_text(c, "clipboard_change") {
        vec![24]
    } else if same_text(c, "process_tampering") {
        vec![25]
    } else {
        vec![]
    }
}

/// Whether a file name extension is that of rule files, in letters of either
/// case.
pub open spec fn is_rule_suffix(ext: Seq<char>) -> bool {
    let lower = ext.map_values(|c: char| ascii_lower(c));
    lower == "yml"@ || lower == "yaml"@
}

/// Whether a file name extension is that of rule files.
pub fn is_rule_extension(ext: &str) -> (r: bool)
    ensures
        r == is_rule_suffix(ext@),
{
    let v = chars_of(ext);
    let mut i: usize = 0;
    while i < v.len()
        invariant
            i <= v@.len(),
            v@ == ext@,
            forall|k: int| 0 <= k < i ==> (#[trigger] ext@[k] as int) < 128,
        decreases v.len() - i,
    {
        if v[i] >= '\u{80}' {
            proof {
                reveal_strlit("yml");
                reveal_strlit("yaml");
                let lower = ext@.map_values(|c: char| ascii_lower(c));
                assert(lower[i as int] == ext@[i as int]);
                let (a, b) = ("yml"@, "yaml"@);
                assert(a[0] == 'y' && a[1] == 'm' && a[2] == 'l');
                assert(b[0] == 'y' && b[1] == 'a' && b[2] == 'm' && b[3] == 'l');
                assert(a.len() == 3);
                assert(b.len() == 4);
                assert(lower.len() == ext@.len());
                if lower == a {
                    assert(i == 0 || i == 1 || i == 2);
                }
                if lower == b {
                    assert(i == 0 || i == 1 || i == 2 || i == 3);
                }
            }
            return false;
        }
        i += 1;
    }
    let lower = to_lowercase(ext);
    same_text(lower.as_str(), "yml") || same_text(lower.as_str(), "yaml")
}

} // verus!
