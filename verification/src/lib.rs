//! Construction and simulation of nondeterministic finite automata that are
//! described by a line-oriented transition table.
//!
//! A description is a sequence of lines. Each line is one of
//!
//! ```text
//! <from>=<symbol>><to>    a transition; without a symbol, an epsilon transition
//! # ...                   a comment, which is skipped
//!                         a blank line, which is skipped
//! $ <state>, <state> ...  the accepting states; nothing after this line is read
//! ```
//!
//! [`automaton::NFA::new`] builds the automaton that such lines describe, and
//! [`automaton::NFA::simulate`] tells whether the automaton accepts an input.
//! What both compute is stated over the model in [`model`]. Transition lines
//! are matched by the `regex` crate, through [`matcher`].

pub mod automaton;
pub mod description;
pub mod error;
pub mod grammar;
pub mod matcher;
pub mod model;
pub mod text;
