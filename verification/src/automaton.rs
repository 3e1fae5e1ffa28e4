//! The automaton itself: states, labelled transitions and accepting states,
//! and the simulation of its run on an input.

use crate::model::{
    follow, is_state_count_of, lemma_overlap_insert, lemma_prefix_with_next,
    lemma_state_count_unique, lemma_targets_insert, lemma_targets_union, lemma_with_transition_wf,
    overlap, padded, NfaModel,
};
use std::collections::HashSet;
use vstd::prelude::*;
use vstd::std_specs::hash::*;

verus! {

broadcast use group_hash_axioms;

/// The label of a transition that consumes no input.
///
/// It is a control character, which the line grammar never accepts as the
/// symbol of a transition, and which matches no transition where it stands
/// in an input.
pub const EPSILON: char = '\u{1}';

/// A transition between states
#[derive(Clone, Copy, Debug, PartialEq, Eq, Structural)]
pub struct Transition {
    /// The character that triggers the transition
    pub trans_char: char,
    /// The index in the adjacency list of the state to transition to
    pub next_state: usize,
}

impl Transition {
    /// Creates a new Transition
    ///
    /// # Arguments
    ///
    /// * `trans_char` - The character that triggers the transition
    /// * `next_state` - Index in the adjacency list of the state to transition to
    pub fn new(trans_char: char, next_state: usize) -> (t: Transition)
        ensures
            t == (Transition { trans_char, next_state }),
    {
        Transition { trans_char, next_state }
    }
}

/// A nondeterministic finite automaton with epsilon transitions.
#[derive(Debug)]
pub struct NFA {
    /// Adjacency list representation of the NFA
    states: Vec<Vec<Transition>>,
    /// List of states that are accepting in the NFA
    accepting_states: HashSet<usize>,
}

impl View for NFA {
    type V = NfaModel;

    closed spec fn view(&self) -> NfaModel {
        NfaModel {
            states: Seq::new(self.states@.len(), |i: int| self.states@[i]@),
            accepting: self.accepting_states@,
        }
    }
}

impl NFA {
    /// The automaton without states.
    pub(crate) fn empty() -> (nfa: NFA)
        ensures
            nfa@ == NfaModel::empty(),
    {
        let nfa = NFA { states: Vec::new(), accepting_states: HashSet::new() };
        assert(nfa@.states =~= Seq::empty());
        nfa
    }

    /// Appends states without transitions until there are `n` states.
    fn grow(&mut self, n: usize)
        ensures
            final(self)@.states == padded(old(self)@.states, n as nat),
            final(self)@.accepting == old(self)@.accepting,
    {
        while self.states.len() < n
            invariant
                self@.states == padded(old(self)@.states, self.states.len() as nat),
                self@.accepting == old(self)@.accepting,
                self.states.len() <= n || self.states.len() == old(self).states.len(),
            decreases n - self.states.len(),
        {
            let ghost before = self@.states;
            self.states.push(Vec::new());
            assert(self@.states =~= before.push(Seq::empty()));
        }
    }

    /// Adds a transition to the NFA
    ///
    /// The state list is extended first, by states without transitions, until
    /// it holds both `s` and the state that `t` leads to.
    ///
    /// # Arguments
    ///
    /// * `s` - Start state of the transition (index of state in the adjacency list)
    /// * `t` - Transition type to be added
    pub fn add_transition(&mut self, s: usize, t: Transition)
        requires
            s < usize::MAX,
            t.next_state < usize::MAX,
        ensures
            final(self)@ == old(self)@.with_transition(s, t),
            old(self)@.wf() ==> final(self)@.wf(),
            old(self)@.wf() && old(self)@.tight() ==> final(self)@.tight(),
    {
        proof {
            if self@.wf() {
                lemma_with_transition_wf(self@, s, t);
            }
        }
        let n = if s < t.next_state {
            t.next_state + 1
        } else {
            s + 1
        };
        self.grow(n);
        let ghost grown = self@.states;
        assert(padded(old(self)@.states, n as nat).len() >= n);
        self.states[s].push(t);
        assert(self@.states =~= grown.update(s as int, grown[s as int].push(t)));
    }

    /// Makes `indices` the accepting states, in place of the ones before. The
    /// state list is extended first, by states without transitions, until it
    /// holds each of them.
    pub(crate) fn set_accepting(&mut self, indices: HashSet<usize>)
        requires
            forall|k: usize| indices@.contains(k) ==> k < usize::MAX,
        ensures
            final(self)@ == old(self)@.with_accepting(indices@),
    {
        broadcast use Seq::lemma_take_len;

        let mut count: usize = 0;
        // check if any of the given states don't exist as indices in the vector
        for state in it: indices.iter()
            invariant
                it.seq().unref().to_set() == indices@,
                forall|k: usize| indices@.contains(k) ==> k < usize::MAX,
                is_state_count_of(it.seq().unref().take(it.index()).to_set(), count as nat),
        {
            proof {
                lemma_prefix_with_next(it.seq().unref(), it.index());
                assert(it.seq().unref().to_set().contains(it.seq().unref()[it.index()]));
            }
            if count <= *state {
                count = *state + 1;
            }
        }
        proof {
            lemma_state_count_unique(indices@, count as nat);
        }
        self.grow(count);
        self.accepting_states = indices;
    }

    /// Returns a vector of states that can be transitioned to from the given
    /// state with the given character
    ///
    /// # Arguments
    /// * `state` - Starting state of transitions
    /// * `c` - Character that triggers transition
    pub fn get_trans_for_char(&self, state: usize, c: char) -> (possible_trans: Vec<usize>)
        ensures
            possible_trans@ == self@.moves(state, c),
    {
        let mut possible_trans: Vec<usize> = Vec::new();
        if state >= self.states.len() {
            return possible_trans;
        }
        let row = &self.states[state];
        for i in 0..row.len()
            invariant
                possible_trans@ == row@.take(i as int).filter_map(follow(c)),
        {
            proof {
                row@.lemma_filter_map_take_succ(follow(c), i as int);
            }
            if row[i].trans_char == c {
                possible_trans.push(row[i].next_state);
            }
        }
        assert(row@.take(row.len() as int) =~= row@);
        possible_trans
    }

    /// Inserts into `into` every state that some state of `from` moves to on
    /// `c`.
    fn add_targets(&self, from: &HashSet<usize>, c: char, into: &mut HashSet<usize>)
        ensures
            final(into)@ == old(into)@.union(self@.targets(from@, c)),
    {
        broadcast use Seq::lemma_take_len;

        for state in it: from.iter()
            invariant
                it.seq().unref().to_set() == from@,
                into@ == old(into)@.union(
                    self@.targets(it.seq().unref().take(it.index()).to_set(), c),
                ),
        {
            let ghost seen = it.seq().unref().take(it.index()).to_set();
            let ghost before = into@;
            let moves = self.get_trans_for_char(*state, c);
            for j in 0..moves.len()
                invariant
                    into@ == before.union(moves@.take(j as int).to_set()),
            {
                proof {
                    lemma_prefix_with_next(moves@, j as int);
                }
                into.insert(moves[j]);
            }
            proof {
                lemma_prefix_with_next(it.seq().unref(), it.index());
                lemma_targets_insert(self@, seen, *state, c);
                assert(moves@.take(moves.len() as int) =~= moves@);
            }
        }
    }

    /// Returns a set of all epsilon transitions from the currently active states
    ///
    /// # Arguments
    /// * `active_states` - Reference to a HashSet of the currently active states
    pub fn all_epsilon(&self, active_states: &HashSet<usize>) -> (trans: HashSet<usize>)
        ensures
            trans@ == self@.targets(active_states@, EPSILON),
    {
        let mut trans: HashSet<usize> = HashSet::new();
        self.add_targets(active_states, EPSILON, &mut trans);
        trans
    }

    /// Whether one of the states in `active` is accepting.
    fn any_accepting(&self, active: &HashSet<usize>) -> (found: bool)
        ensures
            found == overlap(active@, self@.accepting),
    {
        broadcast use Seq::lemma_take_len;

        let mut found = false;
        for state in it: active.iter()
            invariant
                it.seq().unref().to_set() == active@,
                found == overlap(it.seq().unref().take(it.index()).to_set(), self@.accepting),
        {
            proof {
                lemma_prefix_with_next(it.seq().unref(), it.index());
                lemma_overlap_insert(
                    it.seq().unref().take(it.index()).to_set(),
                    *state,
                    self@.accepting,
                );
            }
            if self.accepting_states.contains(state) {
                found = true;
            }
        }
        found
    }

    /// Simulates the NFA based on the given input, returning whether it would
    /// be accepted by the NFA
    ///
    /// Before each character, the states one epsilon transition away from an
    /// active state become active too; after the last character no epsilon
    /// transition is followed. An input character equal to [`EPSILON`] matches
    /// no transition. See [`NfaModel::step`].
    ///
    /// # Arguments
    /// * `input` - String to check if NFA accepts
    pub fn simulate(&self, input: &str) -> (accepted: bool)
        ensures
            accepted == self@.accepts(input@),
    {
        broadcast use Seq::lemma_take_len;
        // set of currently active states in the NFA, with starting state included

        let mut active_states: HashSet<usize> = HashSet::new();
        active_states.insert(0);

        // loop over all input characters
        for c in it: input.chars()
            invariant
                it.seq() == input@,
                active_states@ == self@.run(set![0usize], it.seq().take(it.index())),
        {
            let ghost read = it.seq().take(it.index());
            // set of states that we're active in after this current set of moves
            let mut new_states: HashSet<usize> = HashSet::new();

            // the sentinel is no symbol: it moves no state anywhere
            if c != EPSILON {
                // go through each active state and each state that could be
                // active due to epsilon transitions
                let epsilon_states = self.all_epsilon(&active_states);
                self.add_targets(&active_states, c, &mut new_states);
                self.add_targets(&epsilon_states, c, &mut new_states);
                proof {
                    lemma_targets_union(self@, active_states@, epsilon_states@, c);
                }
            }
            assert(it.seq().take(it.index() + 1).drop_last() =~= read);

            // the active states for the next round
            active_states = new_states;
        }

        // if any active state is accepting, that means the string is matched
        self.any_accepting(&active_states)
    }

    /// The number of states.
    pub fn state_count(&self) -> (n: usize)
        ensures
            n == self@.states.len(),
    {
        self.states.len()
    }

    /// The transitions out of `state`, in the order in which they were added.
    /// A state that the automaton does not have has none.
    pub fn transitions_from(&self, state: usize) -> (out: Vec<Transition>)
        ensures
            out@ == if state < self@.states.len() {
                self@.states[state as int]
            } else {
                Seq::empty()
            },
    {
        let mut out: Vec<Transition> = Vec::new();
        if state < self.states.len() {
            let row = &self.states[state];
            for i in 0..row.len()
                invariant
                    out@ == row@.take(i as int),
            {
                out.push(row[i]);
            }
        }
        out
    }

    /// Whether `state` is an accepting state.
    pub fn is_accepting(&self, state: usize) -> (accepting: bool)
        ensures
            accepting == self@.accepting.contains(state),
    {
        self.accepting_states.contains(&state)
    }
}

/// Whether an input is accepted depends on nothing but the states, the
/// accepting states and the input: two automata with the same model give the
/// same answer on the same characters, however each came about.
pub proof fn lemma_acceptance_is_determined(a: NFA, b: NFA, x: Seq<char>, y: Seq<char>)
    requires
        a@.states =~~= b@.states,
        a@.accepting =~= b@.accepting,
        x =~= y,
    ensures
        a@.accepts(x) == b@.accepts(y),
{
}

} // verus!
