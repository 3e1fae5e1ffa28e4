//! Regular expressions, as far as the line grammar needs them: an expression
//! is compiled once and then matched against any number of lines. The
//! matching itself is the work of the `regex` crate; this module is where the
//! library hands over to it, and holds nothing else.

use regex::Regex;
use vstd::prelude::*;

verus! {

/// `regex::Regex`, a compiled regular expression. Verus carries it through
/// without looking inside.
#[verifier::external_type_specification]
#[verifier::external_body]
pub struct ExRegex(regex::Regex);

/// `regex::Error`, the reason for which an expression was not compiled.
#[verifier::external_type_specification]
#[verifier::external_body]
pub struct ExRegexError(regex::Error);

/// A regular expression that was compiled, together with its source text.
///
/// The only way to make one is [`compile`], so the two always belong
/// together: the fields are private, and this module holds no other code
/// that could set them.
pub struct Matcher {
    source: String,
    compiled: Regex,
}

impl View for Matcher {
    type V = Seq<char>;

    /// The source text of the expression.
    closed spec fn view(&self) -> Seq<char> {
        self.source@
    }
}

/// Whether `pattern` is a regular expression that can be compiled: valid in
/// the syntax of the `regex` crate, and within its size limit.
pub uninterp spec fn regex_compiles(pattern: Seq<char>) -> bool;

/// What the regular expression `pattern` captures in `haystack`: the text of
/// each group of the leftmost match, the whole match first, with `None` for a
/// group that took no part in the match; `None` where nothing matches.
pub uninterp spec fn regex_captures(pattern: Seq<char>, haystack: Seq<char>) -> Option<
    Seq<Option<Seq<char>>>,
>;

/// Compiles `pattern` with `regex::Regex::new`, and keeps the source text
/// beside the compiled expression.
///
/// Trusted: that whether this succeeds is what [`regex_compiles`] names,
/// which says no more than that it depends on the pattern alone; and that
/// the result carries `pattern` as its source, which the body shows.
#[verifier::external_body]
pub(crate) fn compile(pattern: &str) -> (r: Result<Matcher, regex::Error>)
    ensures
        r is Ok <==> regex_compiles(pattern@),
        r is Ok ==> r->Ok_0@ == pattern@,
{
    match Regex::new(pattern) {
        Ok(compiled) => Ok(Matcher { source: pattern.to_owned(), compiled }),
        Err(error) => Err(error),
    }
}

/// Matches `haystack` against the compiled expression with
/// `regex::Regex::captures`, and copies the text of each group out of the
/// `regex::Captures`.
///
/// Trusted: that the outcome is the one that [`regex_captures`] names for the
/// source of the expression, which says no more than that matching depends on
/// the expression and the haystack alone. It holds of every `Matcher`,
/// because every one was compiled from its source.
#[verifier::external_body]
pub(crate) fn captures(matcher: &Matcher, haystack: &str) -> (groups: Option<Vec<Option<String>>>)
    ensures
        groups.deep_view() == regex_captures(matcher@, haystack@),
{
    matcher.compiled.captures(haystack).map(
        |found| found.iter().map(|group| group.map(|m| m.as_str().to_string())).collect(),
    )
}

} // verus!
