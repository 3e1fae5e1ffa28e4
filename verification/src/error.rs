//! The ways in which a description of an automaton can be rejected.

use vstd::prelude::*;
use vstd::string::*;

verus! {

/// Why a description was rejected. Either way the error names the offending
/// line, as it was given.
#[derive(Debug, PartialEq, Eq)]
pub enum FormatError {
    /// The line is neither blank, nor a comment, nor a list of accepting
    /// states, nor a transition.
    MalformedLine(String),
    /// The line names a state by something that is no state index.
    InvalidIndex(String),
}

/// A [`FormatError`] with the offending line as a sequence of characters.
pub enum FormatErrorModel {
    MalformedLine(Seq<char>),
    InvalidIndex(Seq<char>),
}

impl View for FormatError {
    type V = FormatErrorModel;

    open spec fn view(&self) -> FormatErrorModel {
        match self {
            FormatError::MalformedLine(line) => FormatErrorModel::MalformedLine(line@),
            FormatError::InvalidIndex(line) => FormatErrorModel::InvalidIndex(line@),
        }
    }
}

impl FormatErrorModel {
    /// The offending line.
    pub open spec fn line(self) -> Seq<char> {
        match self {
            FormatErrorModel::MalformedLine(line) => line,
            FormatErrorModel::InvalidIndex(line) => line,
        }
    }
}

impl FormatError {
    /// The offending line.
    pub fn line(&self) -> (line: &str)
        ensures
            line@ == self@.line(),
    {
        match self {
            FormatError::MalformedLine(line) => line.as_str(),
            FormatError::InvalidIndex(line) => line.as_str(),
        }
    }

    /// A diagnostic for the operator: what is wrong, followed by the
    /// offending line.
    pub fn message(&self) -> (text: String)
        ensures
            text@ == match self@ {
                FormatErrorModel::MalformedLine(line) => "The given transition is ill formatted: "@
                    + line,
                FormatErrorModel::InvalidIndex(line) => "Failed to parse a state index in: "@ + line,
            },
    {
        match self {
            FormatError::MalformedLine(line) => String::from_str(
                "The given transition is ill formatted: ",
            ).concat(line.as_str()),
            FormatError::InvalidIndex(line) => String::from_str(
                "Failed to parse a state index in: ",
            ).concat(line.as_str()),
        }
    }
}

} // verus!
