//! Descriptions of automata: a sequence of text lines, read from the top,
//! that lists transitions and ends with the accepting states.

use crate::automaton::{Transition, NFA};
use crate::model::{
    lemma_referred_state_exists, lemma_state_count_exists, lemma_with_accepting_refers,
    lemma_with_accepting_wf, lemma_with_transition_refers, lemma_with_transition_wf,
    state_count_of, NfaModel,
};
use crate::error::{FormatError, FormatErrorModel};
use crate::grammar::{
    accepting_of, kind_of_trimmed, lemma_listed_indices_bounded, line_kind, parse_accepting,
    parse_transition, source_of, transition_grammar, transition_grammar_source, transition_under,
    LineKind,
};
use crate::matcher::Matcher;
use crate::text::{chars_between, chars_of, trim_bounds, trimmed};
use std::collections::HashSet;
use vstd::prelude::*;

verus! {

/// What one line of a description says.
#[derive(Debug, PartialEq, Eq)]
pub enum Line {
    /// Nothing: the line is blank or a comment.
    Skip,
    /// The accepting states are these.
    Accepting(HashSet<usize>),
    /// There is this transition, out of the state given first.
    Transition(usize, Transition),
}

/// What one line of a description says, with the accepting states as a set.
pub enum LineModel {
    Skip,
    Accepting(Set<usize>),
    Transition(usize, Transition),
}

impl View for Line {
    type V = LineModel;

    open spec fn view(&self) -> LineModel {
        match self {
            Line::Skip => LineModel::Skip,
            Line::Accepting(indices) => LineModel::Accepting(indices@),
            Line::Transition(from, t) => LineModel::Transition(*from, *t),
        }
    }
}

/// What `line` says, or why it is rejected, where transitions are read under
/// the grammar with the source `pattern`.
///
/// A blank line and a comment say nothing. A line that starts with `$` lists
/// the accepting states after it; it is rejected for an invalid index if an
/// entry of the list is no state index. Any other line is held against the
/// grammar of transitions.
pub open spec fn line_meaning_under(pattern: Option<Seq<char>>, line: Seq<char>) -> Result<
    LineModel,
    FormatErrorModel,
> {
    match line_kind(line) {
        LineKind::Blank => Ok(LineModel::Skip),
        LineKind::Comment => Ok(LineModel::Skip),
        LineKind::Accepting => match accepting_of(trimmed(line).drop_first()) {
            Some(indices) => Ok(LineModel::Accepting(indices)),
            None => Err(FormatErrorModel::InvalidIndex(line)),
        },
        LineKind::Transition => match transition_under(pattern, line) {
            Ok((from, t)) => Ok(LineModel::Transition(from, t)),
            Err(e) => Err(e),
        },
    }
}

/// What `line` says, or why it is rejected.
pub open spec fn line_meaning(line: Seq<char>) -> Result<LineModel, FormatErrorModel> {
    line_meaning_under(transition_grammar_source(), line)
}

/// Whether `result` is the outcome that `model` describes.
pub open spec fn line_outcome_is(
    result: Result<Line, FormatError>,
    model: Result<LineModel, FormatErrorModel>,
) -> bool {
    match model {
        Ok(m) => result is Ok && result->Ok_0@ == m,
        Err(e) => result is Err && result->Err_0@ == e,
    }
}

/// Reads one line of a description, a transition under `grammar`.
pub fn read_line(grammar: &Option<Matcher>, line: &str) -> (r: Result<Line, FormatError>)
    ensures
        line_outcome_is(r, line_meaning_under(source_of(*grammar), line@)),
{
    let chars = chars_of(line);
    let (start, end) = trim_bounds(&chars);
    match kind_of_trimmed(&chars, start, end) {
        LineKind::Blank => Ok(Line::Skip),
        LineKind::Comment => Ok(Line::Skip),
        LineKind::Accepting => {
            let list = chars_between(&chars, start + 1, end);
            assert(list@ =~= trimmed(line@).drop_first());
            match parse_accepting(&list) {
                Some(indices) => Ok(Line::Accepting(indices)),
                None => Err(FormatError::InvalidIndex(line.to_owned())),
            }
        },
        LineKind::Transition => match parse_transition(grammar, line) {
            Ok((from, t)) => Ok(Line::Transition(from, t)),
            Err(e) => Err(e),
        },
    }
}

/// The automaton that `lines` describe when they are read from the top into
/// the automaton `m`, or the reason for which the first offending line is
/// rejected. Reading ends with the first line that lists accepting states:
/// what follows it is not looked at.
pub open spec fn apply_lines(lines: Seq<Seq<char>>, m: NfaModel) -> Result<
    NfaModel,
    FormatErrorModel,
>
    decreases lines.len(),
{
    if lines.len() == 0 {
        Ok(m)
    } else {
        match line_meaning(lines.first()) {
            Err(e) => Err(e),
            Ok(LineModel::Skip) => apply_lines(lines.drop_first(), m),
            Ok(LineModel::Transition(from, t)) => apply_lines(
                lines.drop_first(),
                m.with_transition(from, t),
            ),
            Ok(LineModel::Accepting(indices)) => Ok(m.with_accepting(indices)),
        }
    }
}

/// The automaton that `lines` describe, or the reason for which the first
/// offending line is rejected.
pub open spec fn described(lines: Seq<Seq<char>>) -> Result<NfaModel, FormatErrorModel> {
    apply_lines(lines, NfaModel::empty())
}

/// Whether the part of `lines` that is read mentions state `k`: as the state
/// that a transition leaves, as the state that it leads to, or as an
/// accepting state.
pub open spec fn mentions(lines: Seq<Seq<char>>, k: usize) -> bool
    decreases lines.len(),
{
    if lines.len() == 0 {
        false
    } else {
        match line_meaning(lines.first()) {
            Err(_) => false,
            Ok(LineModel::Skip) => mentions(lines.drop_first(), k),
            Ok(LineModel::Transition(from, t)) => from == k || t.next_state == k || mentions(
                lines.drop_first(),
                k,
            ),
            Ok(LineModel::Accepting(indices)) => indices.contains(k),
        }
    }
}

/// Reading lines into a well-formed, tight automaton without accepting
/// states gives a well-formed, tight automaton.
pub proof fn lemma_apply_lines_well_formed(lines: Seq<Seq<char>>, m: NfaModel)
    requires
        m.wf(),
        m.tight(),
        m.accepting == Set::<usize>::empty(),
    ensures
        apply_lines(lines, m) matches Ok(r) ==> r.wf() && r.tight(),
    decreases lines.len(),
{
    if lines.len() > 0 {
        match line_meaning(lines.first()) {
            Err(_) => {},
            Ok(LineModel::Skip) => {
                lemma_apply_lines_well_formed(lines.drop_first(), m);
            },
            Ok(LineModel::Transition(from, t)) => {
                lemma_with_transition_wf(m, from, t);
                lemma_apply_lines_well_formed(lines.drop_first(), m.with_transition(from, t));
            },
            Ok(LineModel::Accepting(indices)) => {
                lemma_listed_indices_bounded(trimmed(lines.first()).drop_first());
                lemma_state_count_exists(indices, usize::MAX as nat);
                lemma_with_accepting_wf(m, indices, state_count_of(indices));
            },
        }
    }
}

/// In the automaton that a description describes, every state that a
/// transition leads to and every accepting state is a state of the
/// automaton, and the last state is one that the description refers to.
pub proof fn lemma_described_well_formed(lines: Seq<Seq<char>>)
    ensures
        described(lines) matches Ok(m) ==> m.wf() && m.tight(),
{
    lemma_apply_lines_well_formed(lines, NfaModel::empty());
}

/// The automaton read from `lines` into `m` refers to the states that `m`
/// refers to and to those that the lines mention, and to no others.
pub proof fn lemma_apply_lines_refers(lines: Seq<Seq<char>>, m: NfaModel, k: usize)
    requires
        m.accepting == Set::<usize>::empty(),
    ensures
        apply_lines(lines, m) matches Ok(r) ==> (r.refers_to(k as int) <==> m.refers_to(k as int)
            || mentions(lines, k)),
    decreases lines.len(),
{
    if lines.len() > 0 {
        match line_meaning(lines.first()) {
            Err(_) => {},
            Ok(LineModel::Skip) => {
                lemma_apply_lines_refers(lines.drop_first(), m, k);
            },
            Ok(LineModel::Transition(from, t)) => {
                lemma_with_transition_refers(m, from, t, k as int);
                lemma_apply_lines_refers(lines.drop_first(), m.with_transition(from, t), k);
            },
            Ok(LineModel::Accepting(indices)) => {
                lemma_with_accepting_refers(m, indices, k as int);
            },
        }
    }
}

/// A description whose largest mentioned state index is `top` describes an
/// automaton of exactly `top + 1` states.
pub proof fn lemma_state_count_is_top_index(lines: Seq<Seq<char>>, top: usize)
    requires
        described(lines) is Ok,
        mentions(lines, top),
        forall|k: usize| mentions(lines, k) ==> k <= top,
    ensures
        described(lines)->Ok_0.states.len() == top + 1,
{
    let m = described(lines)->Ok_0;
    lemma_described_well_formed(lines);
    // the automaton refers to `top`, so it has that state
    lemma_apply_lines_refers(lines, NfaModel::empty(), top);
    lemma_referred_state_exists(m, top as int);
    // and its last state is mentioned, so it is not beyond `top`
    let last = (m.states.len() - 1) as usize;
    lemma_apply_lines_refers(lines, NfaModel::empty(), last);
}

/// A description that mentions no state describes the automaton without
/// states.
pub proof fn lemma_no_state_without_mention(lines: Seq<Seq<char>>)
    requires
        described(lines) is Ok,
        forall|k: usize| !mentions(lines, k),
    ensures
        described(lines)->Ok_0.states.len() == 0,
{
    let m = described(lines)->Ok_0;
    lemma_described_well_formed(lines);
    if m.states.len() > 0 {
        let last = (m.states.len() - 1) as usize;
        lemma_apply_lines_refers(lines, NfaModel::empty(), last);
    }
}

/// A line that lists the accepting states either sets them or is rejected:
/// it never lets reading go on.
pub proof fn lemma_accepting_line_ends(line: Seq<char>)
    requires
        line_kind(line) == LineKind::Accepting,
    ensures
        line_meaning(line) is Err || line_meaning(line)->Ok_0 is Accepting,
{
}

/// Lines after a line that lists the accepting states are never read:
/// cutting the description off behind such a line changes nothing.
pub proof fn lemma_apply_lines_stops(lines: Seq<Seq<char>>, m: NfaModel, k: int)
    requires
        0 <= k < lines.len(),
        line_kind(lines[k]) == LineKind::Accepting,
    ensures
        apply_lines(lines, m) == apply_lines(lines.take(k + 1), m),
    decreases k,
{
    let head = lines.take(k + 1);
    if k == 0 {
        lemma_accepting_line_ends(lines.first());
    } else {
        assert(head.drop_first() =~= lines.drop_first().take(k));
        match line_meaning(lines.first()) {
            Err(_) => {},
            Ok(LineModel::Skip) => {
                lemma_apply_lines_stops(lines.drop_first(), m, k - 1);
            },
            Ok(LineModel::Transition(from, t)) => {
                lemma_apply_lines_stops(lines.drop_first(), m.with_transition(from, t), k - 1);
            },
            Ok(LineModel::Accepting(_)) => {},
        }
    }
}

/// Whatever follows a line that lists the accepting states has no part in
/// the outcome, be it valid or not: two descriptions that agree up to and
/// including such a line describe the same automaton, or are rejected for
/// the same reason.
pub proof fn lemma_lines_after_accepting_ignored(
    head: Seq<Seq<char>>,
    rest_a: Seq<Seq<char>>,
    rest_b: Seq<Seq<char>>,
)
    requires
        head.len() > 0,
        line_kind(head.last()) == LineKind::Accepting,
    ensures
        described(head + rest_a) == described(head + rest_b),
{
    let k = head.len() - 1;
    lemma_apply_lines_stops(head + rest_a, NfaModel::empty(), k);
    lemma_apply_lines_stops(head + rest_b, NfaModel::empty(), k);
    assert((head + rest_a).take(k + 1) =~= head);
    assert((head + rest_b).take(k + 1) =~= head);
}

impl NFA {
    /// Constructs a new NFA from the lines of a description
    ///
    /// # Arguments
    ///
    /// * `lines` - The lines of the description, from the top
    pub fn new(lines: &Vec<String>) -> (r: Result<NFA, FormatError>)
        ensures
            match described(lines.deep_view()) {
                Ok(m) => r is Ok && r->Ok_0@ == m,
                Err(e) => r is Err && r->Err_0@ == e,
            },
            r is Ok ==> r->Ok_0@.wf() && r->Ok_0@.tight(),
    {
        let mut nfa = NFA::empty();
        // the grammar is compiled once and held against each line in turn
        let grammar = transition_grammar();
        let ghost text = lines.deep_view();
        assert(text.skip(0) =~= text);
        // go through each line of the description
        for i in 0..lines.len()
            invariant
                text == lines.deep_view(),
                source_of(grammar) == transition_grammar_source(),
                described(text) == apply_lines(text.skip(i as int), nfa@),
        {
            assert(text.skip(i as int).drop_first() =~= text.skip(i + 1));
            match read_line(&grammar, lines[i].as_str()) {
                Err(e) => {
                    return Err(e);
                },
                Ok(Line::Skip) => {},
                Ok(Line::Transition(from, t)) => {
                    // add transition to its respective state in the NFA
                    nfa.add_transition(from, t);
                },
                Ok(Line::Accepting(indices)) => {
                    // this line lists the accepting states, and we are done
                    proof {
                        lemma_listed_indices_bounded(trimmed(lines[i as int]@).drop_first());
                    }
                    nfa.set_accepting(indices);
                    proof {
                        lemma_described_well_formed(text);
                    }
                    return Ok(nfa);
                },
            }
        }
        proof {
            lemma_described_well_formed(text);
        }
        Ok(nfa)
    }
}

} // verus!
