//! Sigma rules and the reading of their parts.

use crate::numbers::{bool_text, bool_word};
use crate::sigma::condition::{
    condition_of, parse_condition, Condition, ConditionError, ConditionExpr,
};
use crate::text::{lowercase, same_text, split, split_of, texts, to_lowercase};
use crate::textmap::TextMap;
use vstd::prelude::*;

verus! {

/// The severity of a rule.
#[derive(Debug, Clone, Copy, PartialEq, Eq, Structural)]
pub enum SigmaLevel {
    Informational,
    Low,
    Medium,
    High,
    Critical,
}

impl SigmaLevel {
    /// The word that a level is shown by.
    pub open spec fn shown_as(self) -> Seq<char> {
        match self {
            SigmaLevel::Informational => "Info"@,
            SigmaLevel::Low => "Low"@,
            SigmaLevel::Medium => "Medium"@,
            SigmaLevel::High => "High"@,
            SigmaLevel::Critical => "Critical"@,
        }
    }

    /// The word that this level is shown by.
    pub fn label(&self) -> (word: &'static str)
        ensures
            word@ == self.shown_as(),
    {
        match self {
            SigmaLevel::Informational => "Info",
            SigmaLevel::Low => "Low",
            SigmaLevel::Medium => "Medium",
            SigmaLevel::High => "High",
            SigmaLevel::Critical => "Critical",
        }
    }
}

impl Default for SigmaLevel {
    /// A rule that names no level has the level `Low`.
    fn default() -> (level: Self)
        ensures
            level == SigmaLevel::Low,
    {
        SigmaLevel::Low
    }
}

/// The kind of log that a rule is about.
pub struct SigmaLogsource {
    pub category: Option<String>,
    pub product: Option<String>,
    pub service: Option<String>,
}

/// How the values of a field match are compared with the field.
#[derive(Debug, Clone, Copy, PartialEq, Eq, Structural)]
pub enum Modifier {
    Contains,
    StartsWith,
    EndsWith,
    Re,
    All,
}

/// A single field match: field name, modifiers, values to match against.
pub struct SigmaFieldMatch {
    pub field: String,
    pub modifiers: Vec<Modifier>,
    pub values: Vec<String>,
}

/// A named selection block: all fields must match.
pub struct SigmaSelection {
    pub fields: Vec<SigmaFieldMatch>,
}

/// What a rule looks for.
pub struct SigmaDetection {
    pub selections: TextMap<SigmaSelection>,
    pub condition: ConditionExpr,
}

/// A detection rule.
pub struct SigmaRule {
    pub title: String,
    pub id: Option<String>,
    pub description: Option<String>,
    pub status: Option<String>,
    pub level: SigmaLevel,
    pub logsource: SigmaLogsource,
    pub detection: SigmaDetection,
}

// ---------------------------------------------------------------------------
// As text
// ---------------------------------------------------------------------------

/// A field match as text.
pub struct MatchText {
    pub field: Seq<char>,
    pub modifiers: Seq<Modifier>,
    pub values: Seq<Seq<char>>,
}

impl SigmaFieldMatch {
    /// The field match as text.
    pub open spec fn view(&self) -> MatchText {
        MatchText { field: self.field@, modifiers: self.modifiers@, values: texts(self.values@) }
    }
}

impl SigmaSelection {
    /// The selection as text.
    pub open spec fn view(&self) -> Seq<MatchText> {
        self.fields@.map_values(|m: SigmaFieldMatch| m@)
    }
}

/// Named selections as text.
pub open spec fn selections_text(m: TextMap<SigmaSelection>) -> Map<Seq<char>, Seq<MatchText>> {
    m@.map_values(|s: SigmaSelection| s@)
}

// ---------------------------------------------------------------------------
// YAML values
// ---------------------------------------------------------------------------

/// A YAML value. Numbers are held in their written form.
pub enum YamlValue {
    Null,
    Bool(bool),
    Number(String),
    Text(String),
    Sequence(Vec<YamlValue>),
    Mapping(Vec<(YamlValue, YamlValue)>),
    /// A value with a tag before it.
    Tagged(Box<YamlValue>),
}

/// The text of a string value; tags before it do not matter.
pub open spec fn string_value(v: YamlValue) -> Option<Seq<char>>
    decreases v,
{
    match v {
        YamlValue::Text(s) => Some(s@),
        YamlValue::Tagged(inner) => string_value(*inner),
        _ => None,
    }
}

/// The texts of the string values of a list.
pub open spec fn string_values(v: Seq<YamlValue>) -> Seq<Seq<char>>
    decreases v.len(),
{
    if v.len() == 0 {
        Seq::empty()
    } else {
        let front = string_values(v.drop_last());
        match string_value(v.last()) {
            Some(s) => front.push(s),
            None => front,
        }
    }
}

/// The texts of the untagged strings and numbers of a list.
pub open spec fn scalar_values(v: Seq<YamlValue>) -> Seq<Seq<char>>
    decreases v.len(),
{
    if v.len() == 0 {
        Seq::empty()
    } else {
        let front = scalar_values(v.drop_last());
        match v.last() {
            YamlValue::Text(s) => front.push(s@),
            YamlValue::Number(s) => front.push(s@),
            _ => front,
        }
    }
}

/// The values that a field is compared with: those of a list, or a single one.
pub open spec fn compared_values(v: YamlValue) -> Seq<Seq<char>> {
    match v {
        YamlValue::Text(s) => seq![s@],
        YamlValue::Number(s) => seq![s@],
        YamlValue::Bool(b) => seq![bool_word(b)],
        YamlValue::Sequence(list) => scalar_values(list@),
        _ => Seq::empty(),
    }
}

/// The modifier that a word names, in letters of either case.
pub open spec fn modifier_of(word: Seq<char>) -> Option<Modifier> {
    let w = lowercase(word);
    if w == "contains"@ {
        Some(Modifier::Contains)
    } else if w == "startswith"@ {
        Some(Modifier::StartsWith)
    } else if w == "endswith"@ {
        Some(Modifier::EndsWith)
    } else if w == "re"@ {
        Some(Modifier::Re)
    } else if w == "all"@ {
        Some(Modifier::All)
    } else {
        None
    }
}

/// The modifiers that words name; unknown words are left out.
pub open spec fn modifiers_of(words: Seq<Seq<char>>) -> Seq<Modifier>
    decreases words.len(),
{
    if words.len() == 0 {
        Seq::empty()
    } else {
        let front = modifiers_of(words.drop_last());
        match modifier_of(words.last()) {
            Some(m) => front.push(m),
            None => front,
        }
    }
}

/// The match that a key such as "CommandLine|contains|all" and a value make.
pub open spec fn match_of(key: Seq<char>, v: YamlValue) -> MatchText {
    let parts = split_of(key, '|');
    MatchText {
        field: parts[0],
        modifiers: modifiers_of(parts.skip(1)),
        values: compared_values(v),
    }
}

/// The matches that the entries of a mapping make; none where a key is no string.
pub open spec fn matches_of(entries: Seq<(YamlValue, YamlValue)>) -> Option<Seq<MatchText>>
    decreases entries.len(),
{
    if entries.len() == 0 {
        Some(Seq::empty())
    } else {
        match (matches_of(entries.drop_last()), string_value(entries.last().0)) {
            (Some(front), Some(key)) => Some(front.push(match_of(key, entries.last().1))),
            _ => None,
        }
    }
}

/// The selection that a value makes: a mapping gives a match for each entry, a
/// list one match of no field, and anything else none.
pub open spec fn selection_of(v: YamlValue) -> Option<Seq<MatchText>> {
    match v {
        YamlValue::Mapping(entries) => matches_of(entries@),
        YamlValue::Sequence(list) => Some(
            seq![
                MatchText {
                    field: Seq::empty(),
                    modifiers: Seq::empty(),
                    values: string_values(list@),
                },
            ],
        ),
        _ => Some(Seq::empty()),
    }
}

/// The selections that the entries of a detection block make; none where one of
/// them is not readable. The condition is not a selection.
pub open spec fn selections_of(entries: Seq<(String, YamlValue)>) -> Option<
    Map<Seq<char>, Seq<MatchText>>,
>
    decreases entries.len(),
{
    if entries.len() == 0 {
        Some(Map::empty())
    } else {
        let (name, v) = entries.last();
        match selections_of(entries.drop_last()) {
            None => None,
            Some(front) => if name@ == "condition"@ {
                Some(front)
            } else {
                match selection_of(v) {
                    Some(s) => Some(front.insert(name@, s)),
                    None => None,
                }
            },
        }
    }
}

// ---------------------------------------------------------------------------
// Reading
// ---------------------------------------------------------------------------

/// Why YAML is not readable, as `serde_yaml` tells it.
#[verifier::external_type_specification]
#[verifier::external_body]
pub struct ExYamlError(serde_yaml::Error);

/// Why a rule is not readable.
pub enum RuleError {
    /// It is no YAML of the expected shape.
    Yaml(serde_yaml::Error),
    /// A key of a selection is not a string.
    KeyNotString,
    /// Its condition is not readable.
    Condition(ConditionError),
}

/// A rule as it stands in its file: `selections` are the entries of its
/// detection block.
pub struct RawRule {
    pub title: String,
    pub id: Option<String>,
    pub description: Option<String>,
    pub status: Option<String>,
    pub level: Option<SigmaLevel>,
    pub logsource: SigmaLogsource,
    pub condition: String,
    pub selections: Vec<(String, YamlValue)>,
}

/// The text of a string value.
fn as_str(v: &YamlValue) -> (r: Option<&String>)
    ensures
        string_value(*v) == (match r {
            Some(s) => Some(s@),
            None => None,
        }),
    decreases v,
{
    match v {
        YamlValue::Text(s) => Some(s),
        YamlValue::Tagged(inner) => as_str(inner),
        _ => None,
    }
}

/// Appending a text to a list of strings.
proof fn lemma_texts_push(v: Seq<String>, s: String)
    ensures
        texts(v.push(s)) == texts(v).push(s@),
{
    assert(texts(v.push(s)) =~= texts(v).push(s@));
}

/// The values that a field is compared with.
pub fn value_to_string_list(val: &YamlValue) -> (r: Vec<String>)
    ensures
        texts(r@) == compared_values(*val),
{
    let mut out: Vec<String> = Vec::new();
    assert(texts(out@) =~= Seq::empty());
    match val {
        YamlValue::Text(s) => {
            out.push(s.clone());
            assert(texts(out@) =~= seq![s@]);
        },
        YamlValue::Number(s) => {
            out.push(s.clone());
            assert(texts(out@) =~= seq![s@]);
        },
        YamlValue::Bool(b) => {
            let word = bool_text(*b);
            out.push(word);
            assert(texts(out@) =~= seq![bool_word(*b)]);
        },
        YamlValue::Sequence(list) => {
            let mut i: usize = 0;
            assert(list@.take(0) =~= Seq::empty());
            while i < list.len()
                invariant
                    i <= list.len(),
                    texts(out@) == scalar_values(list@.take(i as int)),
                decreases list.len() - i,
            {
                assert(list@.take(i + 1).drop_last() =~= list@.take(i as int));
                assert(list@.take(i + 1).last() == list@[i as int]);
                match &list[i] {
                    YamlValue::Text(s) | YamlValue::Number(s) => {
                        let copy = s.clone();
                        proof {
                            lemma_texts_push(out@, copy);
                        }
                        out.push(copy);
                    },
                    _ => {},
                }
                i += 1;
            }
            assert(list@.take(list@.len() as int) =~= list@);
        },
        _ => {},
    }
    out
}

/// The modifier that a word names.
fn read_modifier(word: &str) -> (r: Option<Modifier>)
    ensures
        r == modifier_of(word@),
{
    let lower = to_lowercase(word);
    let w = lower.as_str();
    if same_text(w, "contains") {
        Some(Modifier::Contains)
    } else if same_text(w, "startswith") {
        Some(Modifier::StartsWith)
    } else if same_text(w, "endswith") {
        Some(Modifier::EndsWith)
    } else if same_text(w, "re") {
        Some(Modifier::Re)
    } else if same_text(w, "all") {
        Some(Modifier::All)
    } else {
        None
    }
}

/// Splits a key such as "CommandLine|contains|all" into field and modifiers.
pub fn parse_field_key(key: &str) -> (r: (String, Vec<Modifier>))
    ensures
        r.0@ == split_of(key@, '|')[0],
        r.1@ == modifiers_of(split_of(key@, '|').skip(1)),
{
    let parts = split(key, '|');
    let ghost p = texts(parts@);
    let ghost rest = p.skip(1);
    let mut modifiers: Vec<Modifier> = Vec::new();
    let mut i: usize = 1;
    assert(rest.take(0) =~= Seq::empty());
    while i < parts.len()
        invariant
            1 <= i <= parts.len(),
            p == texts(parts@),
            rest == p.skip(1),
            modifiers@ == modifiers_of(rest.take(i - 1)),
        decreases parts.len() - i,
    {
        assert(rest.take(i as int).drop_last() =~= rest.take(i - 1));
        assert(rest.take(i as int).last() == parts@[i as int]@);
        match read_modifier(parts[i].as_str()) {
            Some(m) => {
                modifiers.push(m);
            },
            None => {},
        }
        i += 1;
    }
    assert(rest.take(rest.len() as int) =~= rest);
    (parts[0].clone(), modifiers)
}

/// Reads a selection; none where a key is not a string.
pub fn parse_selection(val: &YamlValue) -> (r: Option<SigmaSelection>)
    ensures
        match r {
            Some(s) => selection_of(*val) == Some(s@),
            None => selection_of(*val) is None,
        },
{
    let mut fields: Vec<SigmaFieldMatch> = Vec::new();
    let ghost f = |m: SigmaFieldMatch| m@;
    match val {
        YamlValue::Mapping(entries) => {
            let mut i: usize = 0;
            assert(entries@.take(0) =~= Seq::empty());
            assert(fields@.map_values(f) =~= Seq::empty());
            while i < entries.len()
                invariant
                    i <= entries.len(),
                    *val == YamlValue::Mapping(*entries),
                    f == (|m: SigmaFieldMatch| m@),
                    matches_of(entries@.take(i as int)) == Some(fields@.map_values(f)),
                decreases entries.len() - i,
            {
                assert(entries@.take(i + 1).drop_last() =~= entries@.take(i as int));
                assert(entries@.take(i + 1).last() == entries@[i as int]);
                match as_str(&entries[i].0) {
                    None => {
                        proof {
                            lemma_bad_key(entries@, i + 1);
                        }
                        return None;
                    },
                    Some(key) => {
                        let (field, modifiers) = parse_field_key(key.as_str());
                        let values = value_to_string_list(&entries[i].1);
                        let m = SigmaFieldMatch { field, modifiers, values };
                        let ghost before = fields@;
                        fields.push(m);
                        assert(fields@.map_values(f) =~= before.map_values(f).push(m@));
                        assert(m@ == match_of(key@, entries@[i as int].1));
                    },
                }
                i += 1;
            }
            assert(entries@.take(entries@.len() as int) =~= entries@);
        },
        YamlValue::Sequence(list) => {
            let mut values: Vec<String> = Vec::new();
            let mut i: usize = 0;
            assert(list@.take(0) =~= Seq::empty());
            assert(texts(values@) =~= Seq::empty());
            while i < list.len()
                invariant
                    i <= list.len(),
                    texts(values@) == string_values(list@.take(i as int)),
                decreases list.len() - i,
            {
                assert(list@.take(i + 1).drop_last() =~= list@.take(i as int));
                assert(list@.take(i + 1).last() == list@[i as int]);
                match as_str(&list[i]) {
                    Some(s) => {
                        let copy = s.clone();
                        proof {
                            lemma_texts_push(values@, copy);
                        }
                        values.push(copy);
                    },
                    None => {},
                }
                i += 1;
            }
            assert(list@.take(list@.len() as int) =~= list@);
            let m = SigmaFieldMatch { field: String::new(), modifiers: Vec::new(), values };
            fields.push(m);
            assert(m@.field =~= Seq::empty());
            assert(m@.modifiers =~= Seq::empty());
            assert(fields@.map_values(f) =~= seq![m@]);
        },
        _ => {
            assert(fields@.map_values(f) =~= Seq::empty());
        },
    }
    Some(SigmaSelection { fields })
}

/// A mapping with a bad key among its first entries is not readable.
proof fn lemma_bad_key(entries: Seq<(YamlValue, YamlValue)>, n: int)
    requires
        0 <= n <= entries.len(),
        matches_of(entries.take(n)) is None,
    ensures
        matches_of(entries) is None,
    decreases entries.len() - n,
{
    if n < entries.len() {
        assert(entries.take(n + 1).drop_last() =~= entries.take(n));
        lemma_bad_key(entries, n + 1);
    } else {
        assert(entries.take(n) =~= entries);
    }
}

/// A detection block with a bad selection among its first entries is not
/// readable.
proof fn lemma_bad_selection(entries: Seq<(String, YamlValue)>, n: int)
    requires
        0 <= n <= entries.len(),
        selections_of(entries.take(n)) is None,
    ensures
        selections_of(entries) is None,
    decreases entries.len() - n,
{
    if n < entries.len() {
        assert(entries.take(n + 1).drop_last() =~= entries.take(n));
        lemma_bad_selection(entries, n + 1);
    } else {
        assert(entries.take(n) =~= entries);
    }
}

/// Whether a rule is made of its raw form.
pub open spec fn made_from(rule: SigmaRule, raw: RawRule) -> bool {
    &&& rule.title == raw.title
    &&& rule.id == raw.id
    &&& rule.description == raw.description
    &&& rule.status == raw.status
    &&& rule.level == (match raw.level {
        Some(l) => l,
        None => SigmaLevel::Low,
    })
    &&& rule.logsource == raw.logsource
    &&& selections_of(raw.selections@) == Some(selections_text(rule.detection.selections))
    &&& condition_of(raw.condition@) == Ok::<Condition, ConditionError>(rule.detection.condition@)
}

impl SigmaRule {
    /// Makes a rule of its raw form.
    pub fn from_raw(raw: RawRule) -> (r: Result<SigmaRule, RuleError>)
        ensures
            match r {
                Ok(rule) => made_from(rule, raw),
                Err(RuleError::KeyNotString) => selections_of(raw.selections@) is None,
                Err(RuleError::Condition(e)) => selections_of(raw.selections@) is Some
                    && condition_of(raw.condition@) == Err::<Condition, ConditionError>(e),
                Err(RuleError::Yaml(_)) => false,
            },
    {
        let ghost entries = raw.selections@;
        let mut selections: TextMap<SigmaSelection> = TextMap::new();
        assert(selections_text(selections) =~= Map::empty());
        let mut i: usize = 0;
        assert(entries.take(0) =~= Seq::empty());
        while i < raw.selections.len()
            invariant
                i <= raw.selections.len(),
                entries == raw.selections@,
                selections_of(entries.take(i as int)) == Some(selections_text(selections)),
            decreases raw.selections.len() - i,
        {
            assert(entries.take(i + 1).drop_last() =~= entries.take(i as int));
            assert(entries.take(i + 1).last() == entries[i as int]);
            let ghost before = selections_text(selections);
            if !same_text(raw.selections[i].0.as_str(), "condition") {
                match parse_selection(&raw.selections[i].1) {
                    None => {
                        proof {
                            lemma_bad_selection(entries, i + 1);
                        }
                        return Err(RuleError::KeyNotString);
                    },
                    Some(s) => {
                        let name = raw.selections[i].0.clone();
                        let ghost key = name@;
                        let ghost text = s@;
                        selections.insert(name, s);
                        assert(selections_text(selections) =~= before.insert(key, text));
                    },
                }
            }
            i += 1;
        }
        assert(entries.take(entries.len() as int) =~= entries);
        let condition = match parse_condition(raw.condition.as_str()) {
            Ok(c) => c,
            Err(e) => {
                return Err(RuleError::Condition(e));
            },
        };
        let level = match raw.level {
            Some(l) => l,
            None => SigmaLevel::Low,
        };
        Ok(
            SigmaRule {
                title: raw.title,
                id: raw.id,
                description: raw.description,
                status: raw.status,
                level,
                logsource: raw.logsource,
                detection: SigmaDetection { selections, condition },
            },
        )
    }

    /// Reads a rule, with `read` as the reader of its YAML.
    pub fn from_yaml<F: Fn(&str) -> Result<RawRule, serde_yaml::Error>>(
        yaml: &str,
        read: &F,
    ) -> (r: Result<SigmaRule, RuleError>)
        requires
            forall|s: &str| #[trigger] read.requires((s,)),
        ensures
            match r {
                Ok(rule) => exists|raw: RawRule| #[trigger]
                    read.ensures((yaml,), Ok(raw)) && made_from(rule, raw),
                Err(RuleError::Yaml(e)) => read.ensures((yaml,), Err(e)),
                Err(RuleError::KeyNotString) => exists|raw: RawRule| #[trigger]
                    read.ensures((yaml,), Ok(raw)) && selections_of(raw.selections@) is None,
                Err(RuleError::Condition(e)) => exists|raw: RawRule| #[trigger]
                    read.ensures((yaml,), Ok(raw)) && selections_of(raw.selections@) is Some
                        && condition_of(raw.condition@) == Err::<Condition, ConditionError>(e),
            },
    {
        match read(yaml) {
            Ok(raw) => SigmaRule::from_raw(raw),
            Err(e) => Err(RuleError::Yaml(e)),
        }
    }
}

} // verus!
