//! Conditions of Sigma rules: their grammar and what they mean.

use crate::text::{
    chars_of, lowercase, same_text, string_of, texts, to_lowercase, trim, trim_of,
};
use vstd::prelude::*;

verus! {

// ---------------------------------------------------------------------------
// Expressions
// ---------------------------------------------------------------------------

/// Parsed condition expression.
#[derive(Debug)]
pub enum ConditionExpr {
    /// Reference to a named selection, e.g. "selection".
    Named(String),
    Not(Box<ConditionExpr>),
    And(Vec<ConditionExpr>),
    Or(Vec<ConditionExpr>),
    /// "1 of <pattern>": at least one selection with a matching name matches.
    OneOf(String),
    /// "all of <pattern>": all selections with a matching name match.
    AllOf(String),
}

/// A condition expression as text.
pub enum Condition {
    Named(Seq<char>),
    Not(Box<Condition>),
    And(Seq<Condition>),
    Or(Seq<Condition>),
    OneOf(Seq<char>),
    AllOf(Seq<char>),
}

impl ConditionExpr {
    /// The expression as text.
    pub open spec fn view(&self) -> Condition
        decreases self,
    {
        match self {
            ConditionExpr::Named(s) => Condition::Named(s@),
            ConditionExpr::Not(c) => Condition::Not(Box::new(c.view())),
            ConditionExpr::And(v) => Condition::And(
                Seq::new(
                    v@.len(),
                    |i: int|
                        if 0 <= i < v@.len() {
                            v@[i].view()
                        } else {
                            Condition::Named(Seq::empty())
                        },
                ),
            ),
            ConditionExpr::Or(v) => Condition::Or(
                Seq::new(
                    v@.len(),
                    |i: int|
                        if 0 <= i < v@.len() {
                            v@[i].view()
                        } else {
                            Condition::Named(Seq::empty())
                        },
                ),
            ),
            ConditionExpr::OneOf(s) => Condition::OneOf(s@),
            ConditionExpr::AllOf(s) => Condition::AllOf(s@),
        }
    }
}

/// Expressions as text.
pub open spec fn conditions(v: Seq<ConditionExpr>) -> Seq<Condition> {
    v.map_values(|c: ConditionExpr| c@)
}

/// The view of a conjunction or disjunction is made of the views of its parts.
pub proof fn lemma_parts(v: Vec<ConditionExpr>)
    ensures
        ConditionExpr::And(v)@ == Condition::And(conditions(v@)),
        ConditionExpr::Or(v)@ == Condition::Or(conditions(v@)),
{
    if let Condition::And(p) = ConditionExpr::And(v)@ {
        assert(p =~= conditions(v@));
    }
    if let Condition::Or(p) = ConditionExpr::Or(v)@ {
        assert(p =~= conditions(v@));
    }
}

// ---------------------------------------------------------------------------
// Words
// ---------------------------------------------------------------------------

/// A word put behind those found so far, unless it is blank; what is left of it.
pub open spec fn flushed(words: Seq<Seq<char>>, current: Seq<char>) -> (Seq<Seq<char>>, Seq<char>) {
    if trim_of(current).len() > 0 {
        (words.push(trim_of(current)), Seq::empty())
    } else {
        (words, current)
    }
}

/// The words of a text so far, and the one that has begun. Blanks and tabs end a
/// word, and parentheses are words of their own.
pub open spec fn scanned(s: Seq<char>) -> (Seq<Seq<char>>, Seq<char>)
    decreases s.len(),
{
    if s.len() == 0 {
        (Seq::empty(), Seq::empty())
    } else {
        let (words, current) = scanned(s.drop_last());
        let c = s.last();
        if c == '(' || c == ')' {
            let (w, rest) = flushed(words, current);
            (w.push(seq![c]), rest)
        } else if c == ' ' || c == '\t' {
            flushed(words, current)
        } else {
            (words, current.push(c))
        }
    }
}

/// The words of a condition.
pub open spec fn words_of(s: Seq<char>) -> Seq<Seq<char>> {
    let (words, current) = scanned(s);
    flushed(words, current).0
}

/// Puts the word that has begun behind the others, unless it is blank.
fn flush(words: &mut Vec<String>, current: &mut Vec<char>)
    ensures
        (texts(final(words)@), final(current)@) == flushed(texts(old(words)@), old(current)@),
{
    let text = string_of(current.as_slice());
    let word = trim(text.as_str());
    if !word.as_str().is_empty() {
        let ghost before = words@;
        words.push(word);
        assert(texts(words@) =~= texts(before).push(word@));
        current.clear();
    }
}

/// Splits a condition into words.
pub fn tokenize(s: &str) -> (words: Vec<String>)
    ensures
        texts(words@) == words_of(s@),
{
    let v = chars_of(s);
    let mut words: Vec<String> = Vec::new();
    let mut current: Vec<char> = Vec::new();
    let mut i: usize = 0;
    assert(v@.take(0) =~= Seq::empty());
    assert(texts(words@) =~= Seq::empty());
    while i < v.len()
        invariant
            i <= v.len(),
            v@ == s@,
            (texts(words@), current@) == scanned(v@.take(i as int)),
        decreases v.len() - i,
    {
        assert(v@.take(i + 1).drop_last() =~= v@.take(i as int));
        assert(v@.take(i + 1).last() == v@[i as int]);
        let c = v[i];
        if c == '(' || c == ')' {
            flush(&mut words, &mut current);
            let mut one: Vec<char> = Vec::new();
            one.push(c);
            assert(one@ =~= seq![c]);
            let ghost before = words@;
            let word = string_of(one.as_slice());
            words.push(word);
            assert(texts(words@) =~= texts(before).push(word@));
        } else if c == ' ' || c == '\t' {
            flush(&mut words, &mut current);
        } else {
            current.push(c);
        }
        i += 1;
    }
    assert(v@.take(v@.len() as int) =~= v@);
    flush(&mut words, &mut current);
    words
}

// ---------------------------------------------------------------------------
// Grammar
// ---------------------------------------------------------------------------

/// Why a condition is not readable.
#[derive(Debug, Clone, Copy, PartialEq, Eq, Structural)]
pub enum ConditionError {
    /// The condition ends where an operand should stand.
    UnexpectedEnd,
    /// The word "1" at a position is not followed by "of" and a pattern.
    ExpectedOfAfterOne { pos: usize },
    /// The word "all" at a position is not followed by "of" and a pattern.
    ExpectedOfAfterAll { pos: usize },
}

/// Joins two conditions by "and"; a conjunction on the left takes the other in.
pub open spec fn joined_and(a: Condition, b: Condition) -> Condition {
    match a {
        Condition::And(v) => Condition::And(v.push(b)),
        _ => Condition::And(seq![a, b]),
    }
}

/// Joins two conditions by "or"; a disjunction on the left takes the other in.
pub open spec fn joined_or(a: Condition, b: Condition) -> Condition {
    match a {
        Condition::Or(v) => Condition::Or(v.push(b)),
        _ => Condition::Or(seq![a, b]),
    }
}

/// Whether "of" and a pattern follow the word at a position.
pub open spec fn of_follows(words: Seq<Seq<char>>, pos: int) -> bool {
    pos + 2 < words.len() && lowercase(words[pos + 1]) == "of"@
}

/// The operand at a position and the position after it: a negation, a group in
/// parentheses, "1 of" or "all of" a pattern, or the name of a selection.
pub open spec fn operand_at(words: Seq<Seq<char>>, pos: int) -> Result<
    (Condition, int),
    ConditionError,
>
    decreases words.len() - pos, 0int,
{
    if pos < 0 || pos >= words.len() {
        Err(ConditionError::UnexpectedEnd)
    } else if lowercase(words[pos]) == "not"@ {
        match operand_at(words, pos + 1) {
            Ok((c, next)) => Ok((Condition::Not(Box::new(c)), next)),
            Err(e) => Err(e),
        }
    } else if lowercase(words[pos]) == "("@ {
        match expression_at(words, pos + 1) {
            Ok((c, next)) => if next < words.len() && words[next] == ")"@ {
                Ok((c, next + 1))
            } else {
                Ok((c, next))
            },
            Err(e) => Err(e),
        }
    } else if lowercase(words[pos]) == "1"@ {
        if of_follows(words, pos) {
            Ok((Condition::OneOf(words[pos + 2]), pos + 3))
        } else {
            Err(ConditionError::ExpectedOfAfterOne { pos: pos as usize })
        }
    } else if lowercase(words[pos]) == "all"@ {
        if of_follows(words, pos) {
            Ok((Condition::AllOf(words[pos + 2]), pos + 3))
        } else {
            Err(ConditionError::ExpectedOfAfterAll { pos: pos as usize })
        }
    } else {
        Ok((Condition::Named(words[pos]), pos + 1))
    }
}

/// The expression at a position: operands joined by "and" and "or", which bind
/// alike and from left to right.
pub open spec fn expression_at(words: Seq<Seq<char>>, pos: int) -> Result<
    (Condition, int),
    ConditionError,
>
    decreases words.len() - pos, 2int,
{
    if pos < 0 || pos >= words.len() {
        Err(ConditionError::UnexpectedEnd)
    } else {
        match operand_at(words, pos) {
            Ok((c, next)) => if pos < next <= words.len() {
                continued(words, c, next)
            } else {
                Ok((c, next))
            },
            Err(e) => Err(e),
        }
    }
}

/// An expression that has begun, with the operands that follow.
pub open spec fn continued(words: Seq<Seq<char>>, c: Condition, pos: int) -> Result<
    (Condition, int),
    ConditionError,
>
    decreases words.len() - pos, 1int,
{
    if pos < 0 || pos >= words.len() {
        Ok((c, pos))
    } else if lowercase(words[pos]) == "and"@ {
        match operand_at(words, pos + 1) {
            Ok((d, next)) => if pos < next <= words.len() {
                continued(words, joined_and(c, d), next)
            } else {
                Ok((joined_and(c, d), next))
            },
            Err(e) => Err(e),
        }
    } else if lowercase(words[pos]) == "or"@ {
        match operand_at(words, pos + 1) {
            Ok((d, next)) => if pos < next <= words.len() {
                continued(words, joined_or(c, d), next)
            } else {
                Ok((joined_or(c, d), next))
            },
            Err(e) => Err(e),
        }
    } else {
        Ok((c, pos))
    }
}

/// The condition that a text writes. Words after the expression are ignored.
pub open spec fn condition_of(s: Seq<char>) -> Result<Condition, ConditionError> {
    match expression_at(words_of(s), 0) {
        Ok((c, _)) => Ok(c),
        Err(e) => Err(e),
    }
}

/// An operand takes at least one word and none past the end.
pub proof fn law_operand_moves_forward(words: Seq<Seq<char>>, pos: int)
    requires
        0 <= pos,
    ensures
        operand_at(words, pos) matches Ok((_, next)) ==> pos < next <= words.len(),
    decreases words.len() - pos, 0int,
{
    if pos < words.len() {
        if lowercase(words[pos]) == "not"@ {
            law_operand_moves_forward(words, pos + 1);
        } else if lowercase(words[pos]) == "("@ {
            law_expression_moves_forward(words, pos + 1);
        }
    }
}

/// An expression takes at least one word and none past the end.
pub proof fn law_expression_moves_forward(words: Seq<Seq<char>>, pos: int)
    requires
        0 <= pos,
    ensures
        expression_at(words, pos) matches Ok((_, next)) ==> pos < next <= words.len(),
    decreases words.len() - pos, 2int,
{
    if pos < words.len() {
        law_operand_moves_forward(words, pos);
        if let Ok((c, next)) = operand_at(words, pos) {
            law_continuation_moves_forward(words, c, next);
        }
    }
}

/// What follows in an expression does not move back.
pub proof fn law_continuation_moves_forward(words: Seq<Seq<char>>, c: Condition, pos: int)
    requires
        0 <= pos <= words.len(),
    ensures
        continued(words, c, pos) matches Ok((_, next)) ==> pos <= next <= words.len(),
    decreases words.len() - pos, 1int,
{
    if pos < words.len() {
        law_operand_moves_forward(words, pos + 1);
        if let Ok((d, next)) = operand_at(words, pos + 1) {
            if lowercase(words[pos]) == "and"@ {
                law_continuation_moves_forward(words, joined_and(c, d), next);
            } else if lowercase(words[pos]) == "or"@ {
                law_continuation_moves_forward(words, joined_or(c, d), next);
            }
        }
    }
}

// ---------------------------------------------------------------------------
// Reading
// ---------------------------------------------------------------------------

/// The outcome of reading a part of a condition, as text.
pub open spec fn read_text(r: Result<(ConditionExpr, usize), ConditionError>) -> Result<
    (Condition, int),
    ConditionError,
> {
    match r {
        Ok((c, next)) => Ok((c@, next as int)),
        Err(e) => Err(e),
    }
}

fn flatten_and(lhs: ConditionExpr, rhs: ConditionExpr) -> (c: ConditionExpr)
    ensures
        c@ == joined_and(lhs@, rhs@),
{
    match lhs {
        ConditionExpr::And(v) => {
            let mut parts = v;
            let ghost before = parts;
            proof {
                lemma_parts(before);
            }
            parts.push(rhs);
            proof {
                lemma_parts(parts);
                assert(conditions(parts@) =~= conditions(before@).push(rhs@));
            }
            ConditionExpr::And(parts)
        },
        other => {
            let mut parts: Vec<ConditionExpr> = Vec::new();
            parts.push(other);
            parts.push(rhs);
            proof {
                lemma_parts(parts);
                assert(conditions(parts@) =~= seq![other@, rhs@]);
            }
            ConditionExpr::And(parts)
        },
    }
}

fn flatten_or(lhs: ConditionExpr, rhs: ConditionExpr) -> (c: ConditionExpr)
    ensures
        c@ == joined_or(lhs@, rhs@),
{
    match lhs {
        ConditionExpr::Or(v) => {
            let mut parts = v;
            let ghost before = parts;
            proof {
                lemma_parts(before);
            }
            parts.push(rhs);
            proof {
                lemma_parts(parts);
                assert(conditions(parts@) =~= conditions(before@).push(rhs@));
            }
            ConditionExpr::Or(parts)
        },
        other => {
            let mut parts: Vec<ConditionExpr> = Vec::new();
            parts.push(other);
            parts.push(rhs);
            proof {
                lemma_parts(parts);
                assert(conditions(parts@) =~= seq![other@, rhs@]);
            }
            ConditionExpr::Or(parts)
        },
    }
}

/// Whether "of" and a pattern follow the word at a position.
fn has_of(words: &Vec<String>, pos: usize) -> (r: bool)
    requires
        pos < words@.len(),
    ensures
        r == of_follows(texts(words@), pos as int),
{
    if words.len() - pos <= 2 {
        return false;
    }
    let word = to_lowercase(words[pos + 1].as_str());
    same_text(word.as_str(), "of")
}

/// Reads the operand at a position.
fn parse_primary(words: &Vec<String>, pos: usize) -> (r: Result<
    (ConditionExpr, usize),
    ConditionError,
>)
    requires
        pos <= words@.len(),
    ensures
        read_text(r) == operand_at(texts(words@), pos as int),
    decreases words@.len() - pos, 0int,
{
    if pos >= words.len() {
        return Err(ConditionError::UnexpectedEnd);
    }
    let word = to_lowercase(words[pos].as_str());
    if same_text(word.as_str(), "not") {
        match parse_primary(words, pos + 1) {
            Ok((c, next)) => Ok((ConditionExpr::Not(Box::new(c)), next)),
            Err(e) => Err(e),
        }
    } else if same_text(word.as_str(), "(") {
        match parse_expr(words, pos + 1) {
            Ok((c, next)) => if next < words.len() && same_text(words[next].as_str(), ")") {
                Ok((c, next + 1))
            } else {
                Ok((c, next))
            },
            Err(e) => Err(e),
        }
    } else if same_text(word.as_str(), "1") {
        if has_of(words, pos) {
            Ok((ConditionExpr::OneOf(words[pos + 2].clone()), pos + 3))
        } else {
            Err(ConditionError::ExpectedOfAfterOne { pos })
        }
    } else if same_text(word.as_str(), "all") {
        if has_of(words, pos) {
            Ok((ConditionExpr::AllOf(words[pos + 2].clone()), pos + 3))
        } else {
            Err(ConditionError::ExpectedOfAfterAll { pos })
        }
    } else {
        Ok((ConditionExpr::Named(words[pos].clone()), pos + 1))
    }
}

/// Reads the expression at a position, by recursive descent.
fn parse_expr(words: &Vec<String>, pos: usize) -> (r: Result<
    (ConditionExpr, usize),
    ConditionError,
>)
    requires
        pos <= words@.len(),
    ensures
        read_text(r) == expression_at(texts(words@), pos as int),
    decreases words@.len() - pos, 2int,
{
    let ghost w = texts(words@);
    let ghost goal = expression_at(w, pos as int);
    proof {
        law_operand_moves_forward(w, pos as int);
    }
    let (first, after) = match parse_primary(words, pos) {
        Ok(read) => read,
        Err(e) => {
            return Err(e);
        },
    };
    let mut lhs = first;
    let mut at: usize = after;
    while at < words.len()
        invariant
            w == texts(words@),
            pos < at <= words@.len(),
            goal == expression_at(w, pos as int),
            goal == continued(w, lhs@, at as int),
        decreases words@.len() - at,
    {
        proof {
            law_operand_moves_forward(w, at + 1);
        }
        let word = to_lowercase(words[at].as_str());
        if same_text(word.as_str(), "and") {
            match parse_primary(words, at + 1) {
                Ok((rhs, next)) => {
                    lhs = flatten_and(lhs, rhs);
                    at = next;
                },
                Err(e) => {
                    return Err(e);
                },
            }
        } else if same_text(word.as_str(), "or") {
            match parse_primary(words, at + 1) {
                Ok((rhs, next)) => {
                    lhs = flatten_or(lhs, rhs);
                    at = next;
                },
                Err(e) => {
                    return Err(e);
                },
            }
        } else {
            return Ok((lhs, at));
        }
    }
    Ok((lhs, at))
}

/// Reads a condition.
pub fn parse_condition(cond: &str) -> (r: Result<ConditionExpr, ConditionError>)
    ensures
        match r {
            Ok(c) => condition_of(cond@) == Ok::<Condition, ConditionError>(c@),
            Err(e) => condition_of(cond@) == Err::<Condition, ConditionError>(e),
        },
{
    let words = tokenize(cond);
    match parse_expr(&words, 0) {
        Ok((c, _)) => Ok(c),
        Err(e) => Err(e),
    }
}

} // verus!
