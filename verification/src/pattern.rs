//! Path patterns, matched by the `regex` crate.
//!
//! A disallow rule is kept as the text of a regular expression together with
//! the matcher that `regex` compiled from it. What `regex` answers is not
//! proved here: it is named by two uninterpreted functions of the pattern
//! text and the haystack, and the rest of the crate is verified against
//! those names.

use vstd::prelude::*;
use regex::Regex;

verus! {

/// `regex::Regex`, a compiled regular expression. Nothing of its inside is
/// visible here; it is only carried from `Regex::new` to `Regex::is_match`.
#[verifier::external_type_specification]
#[verifier::external_body]
pub struct ExRegex(regex::Regex);

/// Whether `regex::Regex::new` accepts the pattern, that is returns `Ok`.
pub uninterp spec fn regex_compiles(pattern: Seq<char>) -> bool;

/// Whether the regular expression compiled from `pattern` has a match
/// anywhere in `haystack`, as `regex::Regex::is_match` answers it.
pub uninterp spec fn regex_finds(pattern: Seq<char>, haystack: Seq<char>) -> bool;

/// One compiled path pattern.
///
/// A rule is only ever built by `Rule::compile`, so its matcher is the one
/// that was compiled from its source text.
pub struct Rule {
    source: String,
    regex: Regex,
}

impl View for Rule {
    type V = Seq<char>;

    /// The text of the regular expression.
    closed spec fn view(&self) -> Seq<char> {
        self.source@
    }
}

impl Rule {
    /// Calls `regex::Regex::new` on `source`. The call returns `Ok` with the
    /// compiled matcher or an error for a pattern that is malformed or too
    /// large; the contract names which of the two by `regex_compiles` and
    /// says that the rule keeps the text it was compiled from.
    #[verifier::external_body]
    pub(crate) fn compile(source: String) -> (rule: Option<Rule>)
        ensures
            rule is Some <==> regex_compiles(source@),
            rule matches Some(r) ==> r@ == source@,
    {
        match Regex::new(&source) {
            Ok(regex) => Some(Rule { source, regex }),
            Err(_) => None,
        }
    }

    /// Calls `regex::Regex::is_match` on the compiled matcher. The call
    /// returns true if and only if the regular expression matches somewhere
    /// in the haystack; the contract names that answer by `regex_finds` of
    /// the rule's text and the haystack.
    #[verifier::external_body]
    pub(crate) fn is_match(&self, haystack: &str) -> (found: bool)
        ensures
            found == regex_finds(self@, haystack@),
    {
        self.regex.is_match(haystack)
    }
}

} // verus!
