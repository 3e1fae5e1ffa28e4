//! The grammar of a single line of a description: what kind of line it is,
//! and what a line of each kind says.

use crate::automaton::{Transition, EPSILON};
use crate::error::{FormatError, FormatErrorModel};
use crate::matcher::{captures, compile, regex_captures, regex_compiles, Matcher};
use crate::text::{chars_of, index_of_token, parse_index, trim_bounds, trimmed};
use std::collections::HashSet;
use vstd::prelude::*;
use vstd::std_specs::hash::*;

verus! {

broadcast use group_hash_axioms;

/// The four kinds of line in a description.
#[derive(Clone, Copy, Debug, PartialEq, Eq, Structural)]
pub enum LineKind {
    /// Nothing but white space.
    Blank,
    /// The first character that is no white space is `#`.
    Comment,
    /// The first character that is no white space is `$`: the line lists the
    /// accepting states.
    Accepting,
    /// Any other line: it has to be a transition.
    Transition,
}

/// The kind of `line`, which its first character after trimming decides.
pub open spec fn line_kind(line: Seq<char>) -> LineKind {
    let t = trimmed(line);
    if t.len() == 0 {
        LineKind::Blank
    } else if t[0] == '#' {
        LineKind::Comment
    } else if t[0] == '$' {
        LineKind::Accepting
    } else {
        LineKind::Transition
    }
}

/// The kind of the line with the characters `chars`, of which trimming
/// leaves those from `start` up to `end`.
pub(crate) fn kind_of_trimmed(chars: &Vec<char>, start: usize, end: usize) -> (kind: LineKind)
    requires
        start <= end <= chars.len(),
        chars@.subrange(start as int, end as int) == trimmed(chars@),
    ensures
        kind == line_kind(chars@),
{
    if start == end {
        LineKind::Blank
    } else if chars[start] == '#' {
        LineKind::Comment
    } else if chars[start] == '$' {
        LineKind::Accepting
    } else {
        LineKind::Transition
    }
}

/// Tells what kind of line `line` is.
pub fn classify(line: &str) -> (kind: LineKind)
    ensures
        kind == line_kind(line@),
{
    let chars = chars_of(line);
    let (start, end) = trim_bounds(&chars);
    kind_of_trimmed(&chars, start, end)
}

/// Whether `c` separates two entries of a list of accepting states.
pub open spec fn is_separator(c: char) -> bool {
    c == ',' || c == ' '
}

/// Whether the characters of `list` from `i` up to `j` form one entry: a run
/// of characters other than separators that cannot be extended on either side.
pub open spec fn is_token_at(list: Seq<char>, i: int, j: int) -> bool {
    &&& 0 <= i < j <= list.len()
    &&& forall|k: int| i <= k < j ==> !is_separator(#[trigger] list[k])
    &&& (i == 0 || is_separator(list[i - 1]))
    &&& (j == list.len() || is_separator(list[j]))
}

/// Whether every entry of `list` is a state index.
pub open spec fn tokens_are_indices(list: Seq<char>) -> bool {
    forall|i: int, j: int| #[trigger]
        is_token_at(list, i, j) ==> index_of_token(list.subrange(i, j)) is Some
}

/// The state indices that the entries of `list` denote.
pub open spec fn listed_indices(list: Seq<char>) -> Set<usize> {
    Set::new(
        |k: usize|
            exists|i: int, j: int| #[trigger]
                is_token_at(list, i, j) && index_of_token(list.subrange(i, j)) == Some(k),
    )
}

/// The accepting states that `list` names, where `list` is what follows the
/// `$` of a trimmed line: none if some entry is no state index.
pub open spec fn accepting_of(list: Seq<char>) -> Option<Set<usize>> {
    if tokens_are_indices(list) {
        Some(listed_indices(list))
    } else {
        None
    }
}

/// Every listed index leaves room for the state count: it lies below
/// `usize::MAX`.
pub proof fn lemma_listed_indices_bounded(list: Seq<char>)
    ensures
        forall|k: usize| listed_indices(list).contains(k) ==> k < usize::MAX,
{
}

/// Reads a list of accepting states.
pub fn parse_accepting(list: &Vec<char>) -> (r: Option<HashSet<usize>>)
    ensures
        match accepting_of(list@) {
            Some(indices) => r is Some && r->0@ == indices,
            None => r is None,
        },
{
    let n = list.len();
    let mut found: HashSet<usize> = HashSet::new();
    let mut pos: usize = 0;
    while pos < n
        invariant
            pos <= n == list.len(),
            pos == 0 || pos == n || is_separator(list[pos - 1]) || is_separator(list[pos as int]),
            forall|i: int, j: int| #[trigger] is_token_at(list@, i, j) ==> j <= pos || pos <= i,
            forall|i: int, j: int| #[trigger]
                is_token_at(list@, i, j) && j <= pos ==> {
                    let k = index_of_token(list@.subrange(i, j));
                    k is Some && found@.contains(k->0)
                },
            found@.subset_of(listed_indices(list@)),
        decreases n - pos,
    {
        if list[pos] == ',' || list[pos] == ' ' {
            pos += 1;
        } else {
            let begin = pos;
            while pos < n && !(list[pos] == ',' || list[pos] == ' ')
                invariant
                    begin <= pos <= n == list.len(),
                    forall|k: int| begin <= k < pos ==> !is_separator(#[trigger] list[k]),
                decreases n - pos,
            {
                pos += 1;
            }
            assert(is_token_at(list@, begin as int, pos as int));
            assert forall|i: int, j: int| #[trigger] is_token_at(list@, i, j) implies j <= begin
                || pos <= i || (i == begin && j == pos) by {
                // an entry neither starts nor ends inside the run just read
                if begin < i < pos {
                    assert(!is_separator(list[i - 1]));
                } else if i == begin && j < pos {
                    assert(!is_separator(list[j]));
                } else if i == begin && pos < j {
                    assert(!is_separator(list[pos as int]));
                }
            }
            match parse_index(list, begin, pos) {
                None => {
                    return None;
                },
                Some(k) => {
                    found.insert(k);
                },
            }
        }
    }
    assert(found@ =~= listed_indices(list@));
    Some(found)
}

/// The grammar of a transition line, as a regular expression: a state index,
/// `=`, at most one word character as the symbol, `>`, a state index; white
/// space may stand before and after. The three groups capture the two
/// indices and the symbol.
pub const TRANSITION_PATTERN: &'static str = r"^\s*(\d+)=(\w)?>(\d+)\s*$";

/// The source of the compiled expression `grammar`, if there is one.
pub open spec fn source_of(grammar: Option<Matcher>) -> Option<Seq<char>> {
    match grammar {
        Some(matcher) => Some(matcher@),
        None => None,
    }
}

/// The source of the grammar of transition lines, if it can be compiled.
pub open spec fn transition_grammar_source() -> Option<Seq<char>> {
    if regex_compiles(TRANSITION_PATTERN@) {
        Some(TRANSITION_PATTERN@)
    } else {
        None
    }
}

/// Compiles the grammar of transition lines. It is compiled once for a
/// description, and then held against line after line.
pub fn transition_grammar() -> (grammar: Option<Matcher>)
    ensures
        source_of(grammar) == transition_grammar_source(),
{
    match compile(TRANSITION_PATTERN) {
        Ok(matcher) => Some(matcher),
        Err(_) => None,
    }
}

/// The symbol that the second group of a transition line stands for: epsilon
/// where the group is absent, the captured character where it is a single
/// character other than the epsilon sentinel, and nothing otherwise.
pub open spec fn symbol_of(group: Option<Seq<char>>) -> Option<char> {
    match group {
        None => Some(EPSILON),
        Some(text) => if text.len() == 1 && text[0] != EPSILON {
            Some(text[0])
        } else {
            None
        },
    }
}

/// What a transition line says, given what the grammar captured in it: the
/// state that the transition leaves, and the transition.
///
/// The line is malformed where the grammar did not match, or captured
/// anything but two present indices around a symbol. It has an invalid index
/// where one of the captured indices is no state index.
pub open spec fn transition_of(groups: Option<Seq<Option<Seq<char>>>>, line: Seq<char>) -> Result<
    (usize, Transition),
    FormatErrorModel,
> {
    if groups is Some && groups->0.len() == 4 && groups->0[1] is Some && groups->0[3] is Some
        && symbol_of(groups->0[2]) is Some {
        let from = index_of_token(groups->0[1]->0);
        let to = index_of_token(groups->0[3]->0);
        if from is Some && to is Some {
            Ok((from->0, Transition { trans_char: symbol_of(groups->0[2])->0, next_state: to->0 }))
        } else {
            Err(FormatErrorModel::InvalidIndex(line))
        }
    } else {
        Err(FormatErrorModel::MalformedLine(line))
    }
}

/// A transition has the epsilon sentinel as its label exactly if its line
/// gives no symbol: no symbol that a line gives is taken for the sentinel.
pub proof fn lemma_epsilon_only_without_symbol(
    groups: Option<Seq<Option<Seq<char>>>>,
    line: Seq<char>,
)
    requires
        transition_of(groups, line) is Ok,
    ensures
        transition_of(groups, line)->Ok_0.1.trans_char == EPSILON <==> groups->0[2] is None,
{
}

/// Reads `text` as a state index.
fn index_from(text: &String) -> (r: Option<usize>)
    ensures
        r == index_of_token(text@),
{
    let digits = chars_of(text.as_str());
    assert(digits@.subrange(0, digits.len() as int) =~= digits@);
    parse_index(&digits, 0, digits.len())
}

/// Reads the symbol of a transition from the second group.
fn symbol_from(group: &Option<String>) -> (r: Option<char>)
    ensures
        r == symbol_of(group.deep_view()),
{
    match group {
        None => Some(EPSILON),
        Some(text) => {
            let symbol = chars_of(text.as_str());
            if symbol.len() == 1 && symbol[0] != EPSILON {
                Some(symbol[0])
            } else {
                None
            }
        },
    }
}

/// Builds the transition that a line states from what the grammar captured
/// in it.
pub fn transition_from_captures(groups: &Option<Vec<Option<String>>>, line: &str) -> (r: Result<
    (usize, Transition),
    FormatError,
>)
    ensures
        match transition_of(groups.deep_view(), line@) {
            Ok(t) => r == Ok::<(usize, Transition), FormatError>(t),
            Err(e) => r is Err && r->Err_0@ == e,
        },
{
    let found = match groups {
        Some(found) => found,
        None => {
            return Err(FormatError::MalformedLine(line.to_owned()));
        },
    };
    if found.len() != 4 {
        return Err(FormatError::MalformedLine(line.to_owned()));
    }
    let (from_text, to_text) = match (&found[1], &found[3]) {
        (Some(from_text), Some(to_text)) => (from_text, to_text),
        _ => {
            return Err(FormatError::MalformedLine(line.to_owned()));
        },
    };
    let trans_char = match symbol_from(&found[2]) {
        Some(trans_char) => trans_char,
        None => {
            return Err(FormatError::MalformedLine(line.to_owned()));
        },
    };
    match (index_from(from_text), index_from(to_text)) {
        (Some(from), Some(next_state)) => Ok((from, Transition::new(trans_char, next_state))),
        _ => Err(FormatError::InvalidIndex(line.to_owned())),
    }
}

/// What `line` says when it is read as a transition under the grammar with
/// the source `pattern`: what [`transition_of`] makes of the groups that the
/// grammar captures in it. Without a grammar no line is a transition.
pub open spec fn transition_under(pattern: Option<Seq<char>>, line: Seq<char>) -> Result<
    (usize, Transition),
    FormatErrorModel,
> {
    match pattern {
        Some(source) => transition_of(regex_captures(source, line), line),
        None => Err(FormatErrorModel::MalformedLine(line)),
    }
}

/// Reads `line` as a transition under `grammar`: the state that the
/// transition leaves, and the transition.
pub fn parse_transition(grammar: &Option<Matcher>, line: &str) -> (r: Result<
    (usize, Transition),
    FormatError,
>)
    ensures
        match transition_under(source_of(*grammar), line@) {
            Ok(t) => r == Ok::<(usize, Transition), FormatError>(t),
            Err(e) => r is Err && r->Err_0@ == e,
        },
{
    match grammar {
        Some(matcher) => {
            // capture each part of the transition
            let groups = captures(matcher, line);
            transition_from_captures(&groups, line)
        },
        None => Err(FormatError::MalformedLine(line.to_owned())),
    }
}

} // verus!
