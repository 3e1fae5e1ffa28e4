//! The mathematical model of an automaton, which every contract speaks of:
//! what its states and accepting states are, how it changes when a
//! description is read, and which inputs it accepts.

use crate::automaton::{Transition, EPSILON};
use vstd::prelude::*;

verus! {

/// What an automaton is, mathematically: for each state the list of its
/// outgoing transitions, and the set of accepting states. State `0` is the
/// start state.
pub struct NfaModel {
    pub states: Seq<Seq<Transition>>,
    pub accepting: Set<usize>,
}

/// `states`, followed by as many states without transitions as it takes to
/// reach `n` states. Unchanged when there are `n` states or more already.
pub open spec fn padded(states: Seq<Seq<Transition>>, n: nat) -> Seq<Seq<Transition>> {
    if n <= states.len() {
        states
    } else {
        states + Seq::new((n - states.len()) as nat, |i: int| Seq::<Transition>::empty())
    }
}

/// Whether `n` is the number of states that the indices in `indices` call
/// for: every index lies below `n`, and `n` is zero or one more than an index.
pub open spec fn is_state_count_of(indices: Set<usize>, n: nat) -> bool {
    &&& forall|k: usize| indices.contains(k) ==> k < n
    &&& n == 0 || (n - 1 <= usize::MAX && indices.contains((n - 1) as usize))
}

/// The number of states that the indices in `indices` call for: zero for the
/// empty set, else the largest index plus one.
pub open spec fn state_count_of(indices: Set<usize>) -> nat {
    choose|n: nat| is_state_count_of(indices, n)
}

/// Every set of indices has a state count. Here `n` is any bound on them.
pub proof fn lemma_state_count_exists(indices: Set<usize>, n: nat)
    requires
        forall|k: usize| indices.contains(k) ==> k < n,
    ensures
        is_state_count_of(indices, state_count_of(indices)),
        state_count_of(indices) <= n,
    decreases n,
{
    if n == 0 {
        lemma_state_count_unique(indices, 0);
    } else if n - 1 <= usize::MAX && indices.contains((n - 1) as usize) {
        lemma_state_count_unique(indices, n);
    } else {
        lemma_state_count_exists(indices, (n - 1) as nat);
    }
}

/// Only one number is the state count of a set of indices.
pub proof fn lemma_state_count_unique(indices: Set<usize>, n: nat)
    requires
        is_state_count_of(indices, n),
    ensures
        state_count_of(indices) == n,
{
}

/// Whether some state belongs to both sets.
pub open spec fn overlap(a: Set<usize>, b: Set<usize>) -> bool {
    exists|s: usize| a.contains(s) && b.contains(s)
}

/// Where a transition leads when the automaton reads `c`: to its target if
/// it is labelled `c`, nowhere if it is not.
pub open spec fn follow(c: char) -> spec_fn(Transition) -> Option<usize> {
    |t: Transition|
        if t.trans_char == c {
            Some(t.next_state)
        } else {
            None
        }
}

impl NfaModel {
    /// The automaton without states.
    pub open spec fn empty() -> NfaModel {
        NfaModel { states: Seq::empty(), accepting: Set::empty() }
    }

    /// Every state that a transition leads to, and every accepting state, is a
    /// state of the automaton, and the number of states fits in a `usize`.
    pub open spec fn wf(self) -> bool {
        &&& self.states.len() <= usize::MAX
        &&& forall|s: int, i: int|
            0 <= s < self.states.len() && 0 <= i < self.states[s].len() ==> (
            #[trigger] self.states[s][i]).next_state < self.states.len()
        &&& forall|k: usize| self.accepting.contains(k) ==> k < self.states.len()
    }

    /// Whether something refers to state `k`: a transition leaves it or leads
    /// to it, or it is accepting.
    pub open spec fn refers_to(self, k: int) -> bool {
        ||| 0 <= k < self.states.len() && self.states[k].len() > 0
        ||| exists|s: int, i: int|
            0 <= s < self.states.len() && 0 <= i < self.states[s].len() && (
            #[trigger] self.states[s][i]).next_state == k
        ||| 0 <= k <= usize::MAX && self.accepting.contains(k as usize)
    }

    /// There are no more states than the references call for: the last state,
    /// if there is one, is referred to.
    pub open spec fn tight(self) -> bool {
        self.states.len() > 0 ==> self.refers_to(self.states.len() - 1)
    }

    /// The automaton with one more transition, from state `from`. The state
    /// list grows by empty states until it holds both ends of the transition.
    pub open spec fn with_transition(self, from: usize, t: Transition) -> NfaModel {
        let n = if from < t.next_state {
            t.next_state + 1
        } else {
            from + 1
        };
        let states = padded(self.states, n as nat);
        NfaModel {
            states: states.update(from as int, states[from as int].push(t)),
            accepting: self.accepting,
        }
    }

    /// The automaton with `indices` as its accepting states. The state list
    /// grows by empty states until it holds each of them.
    pub open spec fn with_accepting(self, indices: Set<usize>) -> NfaModel {
        NfaModel { states: padded(self.states, state_count_of(indices)), accepting: indices }
    }

    /// The states that `state` moves to on `c`, one for each of its
    /// transitions that is labelled `c`, in the order of the transitions. A
    /// state that the automaton does not have moves nowhere.
    pub open spec fn moves(self, state: usize, c: char) -> Seq<usize> {
        if state < self.states.len() {
            self.states[state as int].filter_map(follow(c))
        } else {
            Seq::empty()
        }
    }

    /// Whether a transition labelled `c` leads from `state` to `target`.
    pub open spec fn leads(self, state: usize, c: char, target: usize) -> bool {
        self.moves(state, c).contains(target)
    }

    /// The states reached from some state of `from` by one transition
    /// labelled `c`.
    pub open spec fn targets(self, from: Set<usize>, c: char) -> Set<usize> {
        Set::new(|t: usize| exists|s: usize| from.contains(s) && #[trigger] self.leads(s, c, t))
    }

    /// The states that are active after reading `c` when `active` were active
    /// before: first every state one epsilon transition away from an active
    /// state joins them, then each of these moves on `c`. States that have no
    /// transition on `c` drop out.
    ///
    /// The epsilon sentinel is no symbol of any alphabet: read as an input
    /// character it matches no transition, the epsilon transitions included,
    /// and leaves no state active.
    ///
    /// Epsilon transitions are followed one hop only, and only before a
    /// character is read. This is less than the closure under epsilon
    /// transitions that the textbook simulation takes: a state two epsilon
    /// transitions away from an active state does not join in.
    pub open spec fn step(self, active: Set<usize>, c: char) -> Set<usize> {
        if c == EPSILON {
            Set::empty()
        } else {
            self.targets(active.union(self.targets(active, EPSILON)), c)
        }
    }

    /// The states that are active after reading `input`, starting from
    /// `active`.
    pub open spec fn run(self, active: Set<usize>, input: Seq<char>) -> Set<usize>
        decreases input.len(),
    {
        if input.len() == 0 {
            active
        } else {
            self.step(self.run(active, input.drop_last()), input.last())
        }
    }

    /// Whether the automaton accepts `input`: started in state `0` alone, it
    /// ends with an accepting state among the active ones.
    pub open spec fn accepts(self, input: Seq<char>) -> bool {
        overlap(self.run(set![0usize], input), self.accepting)
    }
}

/// One more state in the first set adds an overlap exactly if it belongs to
/// the second.
pub proof fn lemma_overlap_insert(a: Set<usize>, s: usize, b: Set<usize>)
    ensures
        overlap(a.insert(s), b) == (overlap(a, b) || b.contains(s)),
{
}

/// On the empty input an automaton accepts exactly if its start state is
/// accepting: epsilon transitions out of the start state play no part.
pub proof fn lemma_empty_input(m: NfaModel)
    ensures
        m.accepts(Seq::empty()) == m.accepting.contains(0usize),
{
}

/// From no active state none becomes active, whatever is read.
pub proof fn lemma_run_from_nothing(m: NfaModel, input: Seq<char>)
    ensures
        m.run(Set::empty(), input) == Set::<usize>::empty(),
    decreases input.len(),
{
    if input.len() > 0 {
        lemma_run_from_nothing(m, input.drop_last());
        assert(m.step(Set::empty(), input.last()) =~= Set::<usize>::empty());
    }
}

/// Reading a first part of the input and then the rest is reading the whole.
pub proof fn lemma_run_in_two_parts(m: NfaModel, active: Set<usize>, head: Seq<char>, tail: Seq<char>)
    ensures
        m.run(active, head + tail) == m.run(m.run(active, head), tail),
    decreases tail.len(),
{
    if tail.len() == 0 {
        assert(head + tail =~= head);
    } else {
        lemma_run_in_two_parts(m, active, head, tail.drop_last());
        assert((head + tail).drop_last() =~= head + tail.drop_last());
    }
}

/// An input that holds the epsilon sentinel is never accepted: the sentinel
/// matches no transition, so no state is active after it.
pub proof fn lemma_sentinel_in_input_rejects(m: NfaModel, input: Seq<char>, i: int)
    requires
        0 <= i < input.len(),
        input[i] == EPSILON,
    ensures
        !m.accepts(input),
{
    let head = input.take(i + 1);
    let tail = input.skip(i + 1);
    assert(head + tail =~= input);
    lemma_run_in_two_parts(m, set![0usize], head, tail);
    assert(head.last() == EPSILON);
    lemma_run_from_nothing(m, tail);
}

/// What the first `i + 1` items of `all` hold: what the first `i` hold, and
/// the item at `i`.
pub proof fn lemma_prefix_with_next<A>(all: Seq<A>, i: int)
    requires
        0 <= i < all.len(),
    ensures
        all.take(i + 1).to_set() == all.take(i).to_set().insert(all[i]),
{
    assert(all.take(i + 1) =~= all.take(i).push(all[i]));
    all.take(i).lemma_push_to_set_commute(all[i]);
}

/// One more state to start from adds the states that it moves to.
pub proof fn lemma_targets_insert(m: NfaModel, from: Set<usize>, s: usize, c: char)
    ensures
        m.targets(from.insert(s), c) == m.targets(from, c).union(m.moves(s, c).to_set()),
{
    let more = m.targets(from.insert(s), c);
    let sum = m.targets(from, c).union(m.moves(s, c).to_set());
    assert forall|t: usize| sum.contains(t) implies more.contains(t) by {
        if m.moves(s, c).contains(t) {
            assert(from.insert(s).contains(s) && m.leads(s, c, t));
        }
    }
}

/// The states reached from a union are those reached from either part.
pub proof fn lemma_targets_union(m: NfaModel, a: Set<usize>, b: Set<usize>, c: char)
    ensures
        m.targets(a.union(b), c) == m.targets(a, c).union(m.targets(b, c)),
{
}

/// A well-formed automaton has every state that it refers to.
pub proof fn lemma_referred_state_exists(m: NfaModel, k: int)
    requires
        m.wf(),
        m.refers_to(k),
    ensures
        0 <= k < m.states.len(),
{
}

/// Adding a transition keeps an automaton well formed and tight.
pub proof fn lemma_with_transition_wf(m: NfaModel, from: usize, t: Transition)
    requires
        m.wf(),
        from < usize::MAX,
        t.next_state < usize::MAX,
    ensures
        m.with_transition(from, t).wf(),
        m.tight() ==> m.with_transition(from, t).tight(),
        from < m.with_transition(from, t).states.len(),
        t.next_state < m.with_transition(from, t).states.len(),
{
    let r = m.with_transition(from, t);
    if m.tight() {
        let last = r.states.len() - 1;
        if r.states.len() > m.states.len() && last != from {
            // the new transition leads to the last state
            let added = r.states[from as int].len() - 1;
            assert(r.states[from as int][added].next_state == last);
        } else if last != from {
            lemma_with_transition_refers(m, from, t, last);
        }
    }
}

/// After a transition is added, the states referred to are those referred to
/// before and the two ends of the transition.
pub proof fn lemma_with_transition_refers(m: NfaModel, from: usize, t: Transition, k: int)
    ensures
        m.with_transition(from, t).refers_to(k) <==> m.refers_to(k) || k == from || k
            == t.next_state,
{
    let r = m.with_transition(from, t);
    let added = r.states[from as int].len() - 1;
    assert(r.states[from as int][added] == t);
    if m.refers_to(k) && !(0 <= k < m.states.len() && m.states[k].len() > 0) && !(0 <= k
        <= usize::MAX && m.accepting.contains(k as usize)) {
        // a transition that led to `k` before still does
        let (s, i) = choose|s: int, i: int|
            0 <= s < m.states.len() && 0 <= i < m.states[s].len() && (
            #[trigger] m.states[s][i]).next_state == k;
        assert(r.states[s][i] == m.states[s][i]);
    }
}

/// After the accepting states of an automaton without accepting states are
/// set, the states referred to are those referred to before and the new
/// accepting states.
pub proof fn lemma_with_accepting_refers(m: NfaModel, indices: Set<usize>, k: int)
    requires
        m.accepting == Set::<usize>::empty(),
    ensures
        m.with_accepting(indices).refers_to(k) <==> m.refers_to(k) || (0 <= k <= usize::MAX
            && indices.contains(k as usize)),
{
    let r = m.with_accepting(indices);
    if m.refers_to(k) && !(0 <= k < m.states.len() && m.states[k].len() > 0) {
        // a transition that led to `k` before still does
        let (s, i) = choose|s: int, i: int|
            0 <= s < m.states.len() && 0 <= i < m.states[s].len() && (
            #[trigger] m.states[s][i]).next_state == k;
        assert(r.states[s][i] == m.states[s][i]);
    }
}

/// Setting the accepting states keeps an automaton well formed, and tight if
/// no accepting state is lost.
pub proof fn lemma_with_accepting_wf(m: NfaModel, indices: Set<usize>, n: nat)
    requires
        m.wf(),
        is_state_count_of(indices, n),
        n <= usize::MAX,
    ensures
        m.with_accepting(indices).wf(),
        m.with_accepting(indices).states == padded(m.states, n),
        m.tight() && m.accepting.subset_of(indices) ==> m.with_accepting(indices).tight(),
{
    lemma_state_count_unique(indices, n);
}

} // verus!
