//! The matches of detection rules, over all processes.

use crate::guid::ProcessGuid;
use crate::numbers::{decimal, decimal_text};
use crate::panels::{
    fmt_time, list_rows, lists, tab_line, tabbed, time_text, Listing, SortKey, SortState, TableRow,
    TimeRange,
};
use crate::process_tree::{ProcessTree, TreeText};
use crate::sigma::matcher::{matches_text, SigmaMatch};
use crate::sigma::rule::SigmaLevel;
use crate::text::part_texts;
use crate::types::Timestamp;
use vstd::prelude::*;

verus! {

/// A row of the rule match panel. `S` is how texts are held.
pub struct SigmaRow<S = String> {
    pub time: Timestamp,
    pub level: SigmaLevel,
    pub rule_title: S,
    pub event_id: u16,
    pub process: S,
    /// The position of the match among all matches.
    pub match_index: usize,
}

impl SigmaRow {
    /// The row as text.
    pub open spec fn view(&self) -> SigmaRow<Seq<char>> {
        SigmaRow {
            time: self.time,
            level: self.level,
            rule_title: self.rule_title@,
            event_id: self.event_id,
            process: self.process@,
            match_index: self.match_index,
        }
    }
}

impl SigmaRow<Seq<char>> {
    /// The whole row as one line.
    pub open spec fn line(self) -> Seq<char> {
        tabbed(
            seq![
                time_text(self.time),
                self.level.shown_as(),
                self.rule_title,
                decimal(self.event_id as nat),
                self.process,
            ],
        )
    }

    /// What the row is sorted by in a column. Levels are sorted by their words.
    pub open spec fn key(self, column: usize) -> SortKey<Seq<char>> {
        if column == 0 {
            SortKey::Time(self.time)
        } else if column == 1 {
            SortKey::Text(self.level.shown_as())
        } else if column == 2 {
            SortKey::Text(self.rule_title)
        } else if column == 3 {
            SortKey::Number(self.event_id)
        } else if column == 4 {
            SortKey::Text(self.process)
        } else {
            SortKey::Unsorted
        }
    }
}

impl TableRow for SigmaRow {
    open spec fn at(self) -> Timestamp {
        self.time
    }

    open spec fn line(self) -> Seq<char> {
        self@.line()
    }

    open spec fn key(self, column: usize) -> SortKey<Seq<char>> {
        self@.key(column)
    }

    fn row_time(&self) -> (t: Timestamp) {
        self.time
    }

    fn copy_text(&self) -> (s: String) {
        let time = fmt_time(self.time);
        let number = decimal_text(self.event_id as u64);
        let columns: Vec<&str> = vec![
            time.as_str(),
            self.level.label(),
            self.rule_title.as_str(),
            number.as_str(),
            self.process.as_str(),
        ];
        assert(part_texts(columns@) =~= seq![
            time_text(self.time),
            self.level.shown_as(),
            self.rule_title@,
            decimal(self.event_id as nat),
            self.process@,
        ]);
        tab_line(&columns)
    }

    fn sort_key(&self, column: usize) -> (k: SortKey) {
        match column {
            0 => SortKey::Time(self.time),
            1 => SortKey::Text(self.level.label().to_owned()),
            2 => SortKey::Text(self.rule_title.clone()),
            3 => SortKey::Number(self.event_id),
            4 => SortKey::Text(self.process.clone()),
            _ => SortKey::Unsorted,
        }
    }
}

/// The name that the process of a match is shown by: its file name, its image,
/// or a dash.
pub open spec fn process_name_of(tree: TreeText, guid: Option<ProcessGuid>) -> Seq<char> {
    match guid {
        Some(g) => if tree.nodes.contains_key(g) {
            match (tree.nodes[g].image_name, tree.nodes[g].image) {
                (Some(name), _) => name,
                (None, Some(image)) => image,
                (None, None) => "-"@,
            }
        } else {
            "-"@
        },
        None => "-"@,
    }
}

/// The name that the process of a match is shown by.
pub fn process_name(tree: &ProcessTree, guid: &Option<ProcessGuid>) -> (s: String)
    ensures
        s@ == process_name_of(tree@, *guid),
{
    if let Some(g) = guid {
        if let Some(node) = tree.get(g) {
            if let Some(name) = &node.image_name {
                return name.clone();
            }
            if let Some(image) = &node.image {
                return image.clone();
            }
        }
    }
    "-".to_owned()
}

/// The row of the match at a position.
pub open spec fn match_row(m: SigmaMatch<Seq<char>>, tree: TreeText, i: int) -> SigmaRow<Seq<char>> {
    SigmaRow {
        time: m.timestamp,
        level: m.level,
        rule_title: m.rule_title,
        event_id: m.event_id,
        process: process_name_of(tree, m.process_guid),
        match_index: i as usize,
    }
}

/// Rows as text.
pub open spec fn sigma_text(rows: Seq<SigmaRow>) -> Seq<SigmaRow<Seq<char>>> {
    rows.map_values(|r: SigmaRow| r@)
}

/// The rows of matches, in their order.
pub open spec fn match_rows(matches: Seq<SigmaMatch<Seq<char>>>, tree: TreeText) -> Seq<
    SigmaRow<Seq<char>>,
> {
    Seq::new(matches.len(), |i: int| match_row(matches[i], tree, i))
}

/// Makes the rows of matches.
fn sigma_rows(matches: &Vec<SigmaMatch>, tree: &ProcessTree) -> (rows: Vec<SigmaRow>)
    ensures
        sigma_text(rows@) == match_rows(matches_text(matches@), tree@),
{
    let mut rows: Vec<SigmaRow> = Vec::new();
    let mut i: usize = 0;
    while i < matches.len()
        invariant
            i <= matches.len(),
            rows@.len() == i,
            forall|j: int|
                0 <= j < i ==> (#[trigger] rows@[j])@ == match_row(matches@[j]@, tree@, j),
        decreases matches.len() - i,
    {
        let m = &matches[i];
        rows.push(
            SigmaRow {
                time: m.timestamp,
                level: m.level,
                rule_title: m.rule_title.clone(),
                event_id: m.event_id,
                process: process_name(tree, &m.process_guid),
                match_index: i,
            },
        );
        i += 1;
    }
    assert(sigma_text(rows@) =~= match_rows(matches_text(matches@), tree@));
    rows
}

/// Lists the matches of the rules; nothing where no rules are loaded.
pub fn sigma_listing(
    matches: &Vec<SigmaMatch>,
    tree: &ProcessTree,
    no_rules: bool,
    filter: &str,
    range: &TimeRange,
    sort: &SortState,
) -> (listing: Option<Listing<SigmaRow>>)
    ensures
        match listing {
            None => no_rules,
            Some(Listing::Nothing) => !no_rules && matches@.len() == 0,
            Some(l) => !no_rules && matches@.len() > 0 && exists|rows: Seq<SigmaRow>|
                sigma_text(rows) == match_rows(matches_text(matches@), tree@) && #[trigger] lists(
                    l,
                    rows,
                    filter@,
                    *range,
                    *sort,
                ),
        },
{
    if no_rules {
        return None;
    }
    if matches.len() == 0 {
        return Some(Listing::Nothing);
    }
    let rows = sigma_rows(matches, tree);
    let ghost all = rows@;
    let l = list_rows(rows, filter, range, sort);
    assert(lists(l, all, filter@, *range, *sort));
    Some(l)
}

} // verus!
