use nfa_sim::automaton::{Transition, NFA, EPSILON};
use nfa_sim::error::FormatError;

fn description(text: &[&str]) -> Vec<String> {
    text.iter().map(|line| line.to_string()).collect()
}

#[test]
fn single_transition_accepts_its_symbol() {
    let nfa = NFA::new(&description(&["0=a>1", "$1"])).unwrap();
    assert!(nfa.simulate("a"));
}

#[test]
fn single_transition_rejects_another_symbol() {
    let nfa = NFA::new(&description(&["0=a>1", "$1"])).unwrap();
    assert!(!nfa.simulate("b"));
}

#[test]
fn epsilon_from_start_is_not_taken_on_empty_input() {
    let nfa = NFA::new(&description(&["0=>1", "$1"])).unwrap();
    assert!(!nfa.simulate(""));
}

#[test]
fn epsilon_is_followed_before_a_symbol() {
    let nfa = NFA::new(&description(&["0=>1", "1=x>2", "$2"])).unwrap();
    assert_eq!(
        nfa.transitions_from(0),
        vec![Transition { trans_char: EPSILON, next_state: 1 }]
    );
    assert!(nfa.simulate("x"));
    assert!(!nfa.simulate(""));
    assert!(!nfa.simulate("xx"));
}

#[test]
fn wrong_arrow_is_a_format_error_naming_the_line() {
    let error = NFA::new(&description(&["0->1"])).unwrap_err();
    assert_eq!(error, FormatError::MalformedLine("0->1".to_string()));
    assert_eq!(error.line(), "0->1");
    assert!(error.message().contains("0->1"));
}

#[test]
fn accepting_line_extends_the_state_list() {
    let nfa = NFA::new(&description(&["0=a>1", "1=b>2", "$0,2,5"])).unwrap();
    assert_eq!(nfa.state_count(), 6);
    assert_eq!(
        nfa.transitions_from(0),
        vec![Transition { trans_char: 'a', next_state: 1 }]
    );
    assert!(nfa.transitions_from(2).is_empty());
    assert!(nfa.transitions_from(3).is_empty());
    assert!(nfa.transitions_from(4).is_empty());
    assert!(nfa.transitions_from(5).is_empty());
    for state in 0..6 {
        assert_eq!(nfa.is_accepting(state), state == 0 || state == 2 || state == 5);
    }
}

#[test]
fn state_count_is_one_more_than_the_largest_index() {
    let nfa = NFA::new(&description(&["3=a>1", "1=b>7", "$4"])).unwrap();
    assert_eq!(nfa.state_count(), 8);
    let nfa = NFA::new(&description(&["0=a>0"])).unwrap();
    assert_eq!(nfa.state_count(), 1);
    let nfa = NFA::new(&description(&["# nothing", "", "$"])).unwrap();
    assert_eq!(nfa.state_count(), 0);
    let nfa = NFA::new(&description(&[])).unwrap();
    assert_eq!(nfa.state_count(), 0);
}

#[test]
fn accepting_states_are_states() {
    let nfa = NFA::new(&description(&["0=a>1", "$9, 3"])).unwrap();
    assert_eq!(nfa.state_count(), 10);
    assert!(nfa.is_accepting(9));
    assert!(nfa.is_accepting(3));
    assert!(!nfa.is_accepting(10));
    assert!(!nfa.is_accepting(0));
}

#[test]
fn lines_after_the_accepting_line_are_never_read() {
    let short = NFA::new(&description(&["0=a>1", "$1"])).unwrap();
    let long = NFA::new(&description(&["0=a>1", "$1", "1=b>2", "this is no line", "$2"]))
        .unwrap();
    assert_eq!(long.state_count(), short.state_count());
    assert_eq!(long.state_count(), 2);
    assert!(long.transitions_from(1).is_empty());
    assert!(long.is_accepting(1));
    assert!(!long.is_accepting(2));
    assert!(long.simulate("a"));
    assert!(!long.simulate("ab"));
}

#[test]
fn empty_input_is_accepted_exactly_if_the_start_state_is_accepting() {
    let accepting = NFA::new(&description(&["0=a>1", "$0"])).unwrap();
    assert!(accepting.simulate(""));
    let rejecting = NFA::new(&description(&["0=a>1", "0=>1", "$1"])).unwrap();
    assert!(!rejecting.simulate(""));
    let without_states = NFA::new(&description(&[])).unwrap();
    assert!(!without_states.simulate(""));
}

#[test]
fn the_same_automaton_and_input_give_the_same_answer() {
    let text = description(&["0=a>1", "0=a>2", "1=>3", "2=b>3", "3=c>0", "$3,0"]);
    let first = NFA::new(&text).unwrap();
    let second = NFA::new(&text).unwrap();
    for input in ["", "a", "ab", "ac", "abc", "aca", "acab", "b", "abca"] {
        let answer = first.simulate(input);
        assert_eq!(first.simulate(input), answer);
        assert_eq!(second.simulate(input), answer);
    }
}
