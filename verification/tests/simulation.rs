use nfa_sim::automaton::{Transition, NFA, EPSILON};
use std::collections::HashSet;

fn automaton(text: &[&str]) -> NFA {
    let lines: Vec<String> = text.iter().map(|line| line.to_string()).collect();
    NFA::new(&lines).unwrap()
}

fn set(states: &[usize]) -> HashSet<usize> {
    states.iter().copied().collect()
}

#[test]
fn transition_new_keeps_its_arguments() {
    let t = Transition::new('q', 17);
    assert_eq!(t.trans_char, 'q');
    assert_eq!(t.next_state, 17);
    assert_eq!(t, Transition { trans_char: 'q', next_state: 17 });
    assert_ne!(t, Transition::new('q', 18));
    assert_ne!(t, Transition::new('r', 17));
}

#[test]
fn epsilon_is_the_control_character_one() {
    assert_eq!(EPSILON, '\u{1}');
    assert_eq!(EPSILON as u32, 1);
}

#[test]
fn get_trans_for_char_lists_matching_targets_in_order() {
    let nfa = automaton(&["0=a>2", "0=b>1", "0=a>1", "0=a>2", "0=>3", "$3"]);
    assert_eq!(nfa.get_trans_for_char(0, 'a'), vec![2, 1, 2]);
    assert_eq!(nfa.get_trans_for_char(0, 'b'), vec![1]);
    assert_eq!(nfa.get_trans_for_char(0, EPSILON), vec![3]);
    assert_eq!(nfa.get_trans_for_char(0, 'c'), Vec::<usize>::new());
    assert_eq!(nfa.get_trans_for_char(1, 'a'), Vec::<usize>::new());
}

#[test]
fn get_trans_for_char_of_a_missing_state_is_empty() {
    let nfa = automaton(&["0=a>1", "$1"]);
    assert_eq!(nfa.get_trans_for_char(2, 'a'), Vec::<usize>::new());
    assert_eq!(nfa.get_trans_for_char(usize::MAX, 'a'), Vec::<usize>::new());
}

#[test]
fn all_epsilon_goes_one_hop_from_each_active_state() {
    let nfa = automaton(&["0=>1", "1=>2", "2=>3", "0=a>4", "3=>0", "$4"]);
    assert_eq!(nfa.all_epsilon(&set(&[0])), set(&[1]));
    assert_eq!(nfa.all_epsilon(&set(&[0, 1])), set(&[1, 2]));
    assert_eq!(nfa.all_epsilon(&set(&[3, 2])), set(&[0, 3]));
    assert_eq!(nfa.all_epsilon(&set(&[4])), set(&[]));
    assert_eq!(nfa.all_epsilon(&set(&[])), set(&[]));
    assert_eq!(nfa.all_epsilon(&set(&[99])), set(&[]));
}

#[test]
fn epsilon_chains_advance_one_hop_per_symbol() {
    // 0 -eps-> 1 -eps-> 2 -x-> 3: state 2 is two hops from the start state
    let nfa = automaton(&["0=>1", "1=>2", "2=x>3", "$3"]);
    assert!(!nfa.simulate("x"));
    let one_hop = automaton(&["0=>1", "1=x>3", "$3"]);
    assert!(one_hop.simulate("x"));
}

#[test]
fn epsilon_is_not_followed_after_the_last_symbol() {
    let nfa = automaton(&["0=a>1", "1=>2", "$2"]);
    assert!(!nfa.simulate("a"));
    let direct = automaton(&["0=a>1", "1=>2", "$1"]);
    assert!(direct.simulate("a"));
}

#[test]
fn states_without_a_matching_transition_drop_out() {
    let nfa = automaton(&["0=a>0", "0=a>1", "1=b>2", "$2"]);
    assert!(nfa.simulate("ab"));
    assert!(nfa.simulate("aaab"));
    assert!(!nfa.simulate("abb"));
    assert!(!nfa.simulate("aba"));
    assert!(!nfa.simulate("b"));
    assert!(!nfa.simulate("a"));
}

#[test]
fn several_paths_are_followed_at_once() {
    // accepts the inputs over {a, b} whose last but one symbol is a
    let nfa = automaton(&["0=a>0", "0=b>0", "0=a>1", "1=a>2", "1=b>2", "$2"]);
    assert!(nfa.simulate("aa"));
    assert!(nfa.simulate("ab"));
    assert!(nfa.simulate("bbab"));
    assert!(nfa.simulate("abaa"));
    assert!(!nfa.simulate("ba"));
    assert!(!nfa.simulate("abb"));
    assert!(!nfa.simulate("a"));
    assert!(!nfa.simulate(""));
}

#[test]
fn a_symbol_outside_the_alphabet_matches_nothing() {
    let nfa = automaton(&["0=a>0", "$0"]);
    assert!(nfa.simulate(""));
    assert!(nfa.simulate("aaa"));
    assert!(!nfa.simulate("a?a"));
    assert!(!nfa.simulate("\u{e9}"));
}

#[test]
fn the_automaton_without_states_accepts_nothing() {
    let nfa = automaton(&[]);
    assert!(!nfa.simulate(""));
    assert!(!nfa.simulate("a"));
}

#[test]
fn symbols_beyond_ascii_are_matched_as_characters() {
    let nfa = automaton(&["0=\u{e9}>1", "1=\u{4e2d}>2", "$2"]);
    assert!(nfa.simulate("\u{e9}\u{4e2d}"));
    assert!(!nfa.simulate("e\u{4e2d}"));
}

#[test]
fn add_transition_appends_to_its_state() {
    let mut nfa = automaton(&["0=a>1", "$1"]);
    nfa.add_transition(0, Transition::new('b', 1));
    assert_eq!(
        nfa.transitions_from(0),
        vec![Transition::new('a', 1), Transition::new('b', 1)]
    );
    assert_eq!(nfa.state_count(), 2);
    assert!(nfa.simulate("b"));
    assert!(nfa.is_accepting(1));
}

#[test]
fn add_transition_extends_the_state_list_to_both_ends() {
    let mut nfa = automaton(&[]);
    nfa.add_transition(2, Transition::new('a', 1));
    assert_eq!(nfa.state_count(), 3);
    assert!(nfa.transitions_from(0).is_empty());
    assert!(nfa.transitions_from(1).is_empty());
    assert_eq!(nfa.transitions_from(2), vec![Transition::new('a', 1)]);
    nfa.add_transition(0, Transition::new(EPSILON, 5));
    assert_eq!(nfa.state_count(), 6);
    assert_eq!(nfa.transitions_from(0), vec![Transition::new(EPSILON, 5)]);
    assert!(nfa.transitions_from(5).is_empty());
    assert!(nfa.transitions_from(6).is_empty());
}

#[test]
fn an_input_character_equal_to_the_sentinel_matches_no_transition() {
    let nfa = automaton(&["0=>1", "$1"]);
    assert!(!nfa.simulate("\u{1}"));
    assert!(!nfa.simulate("a"));
    // the epsilon transition is still there, and still one hop away
    assert_eq!(nfa.get_trans_for_char(0, EPSILON), vec![1]);
    assert_eq!(nfa.all_epsilon(&set(&[0])), set(&[1]));
}

#[test]
fn an_input_that_holds_the_sentinel_is_rejected() {
    let nfa = automaton(&["0=a>0", "0=>0", "$0"]);
    assert!(nfa.simulate(""));
    assert!(nfa.simulate("aa"));
    assert!(!nfa.simulate("\u{1}"));
    assert!(!nfa.simulate("a\u{1}"));
    assert!(!nfa.simulate("\u{1}a"));
    assert!(!nfa.simulate("a\u{1}a"));
}
