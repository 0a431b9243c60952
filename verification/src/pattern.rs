//! Compiled regular expressions.

use vstd::prelude::*;
use vstd::std_specs::cmp::PartialEqSpecImpl;
use crate::text::str_eq;

verus! {

/// `regex::Regex`: what the regex engine compiles a pattern to. Nothing of
/// its inside is known here.
#[verifier::external_type_specification]
#[verifier::external_body]
pub struct ExRegex(regex::Regex);

/// Whether the regex engine accepts `source` as a pattern.
pub uninterp spec fn regex_compiles(source: Seq<char>) -> bool;

/// Whether the pattern `source` finds an occurrence anywhere in `text`.
pub uninterp spec fn regex_matches(source: Seq<char>, text: Seq<char>) -> bool;

/// A compiled regular expression: the pattern text and what the regex engine
/// compiled it to. Its view is the pattern text.
#[derive(Debug)]
pub struct Pattern {
    source: String,
    program: regex::Regex,
}

impl View for Pattern {
    type V = Seq<char>;

    closed spec fn view(&self) -> Seq<char> {
        self.source@
    }
}

/// `regex::Regex::new`. Trusted: it succeeds exactly on the patterns that the
/// engine accepts. What comes back holds the pattern text beside what the
/// engine compiled it to, or, where the engine refuses the pattern, the
/// engine's message.
#[verifier::external_body]
fn regex_new(source: &str) -> (made: Result<Pattern, String>)
    ensures
        made is Ok <==> regex_compiles(source@),
        made matches Ok(pattern) ==> pattern@ == source@,
{
    match regex::Regex::new(source) {
        Ok(program) => Ok(Pattern { source: source.to_owned(), program }),
        Err(error) => Err(error.to_string()),
    }
}

/// `regex::Regex::is_match`. Trusted: whether a compiled expression finds an
/// occurrence in a text depends on its pattern text and on the text alone.
/// This holds of what `regex::Regex::new` compiles, with the engine's
/// default options, and a `Pattern` holds nothing else.
#[verifier::external_body]
fn regex_is_match(pattern: &Pattern, text: &str) -> (found: bool)
    ensures
        found == regex_matches(pattern@, text@),
{
    pattern.program.is_match(text)
}

/// `regex::Regex::clone`. Trusted: the copy is what the engine compiled the
/// same pattern text to.
#[verifier::external_body]
fn regex_clone(pattern: &Pattern) -> (copy: Pattern)
    ensures
        copy@ == pattern@,
{
    Pattern { source: pattern.source.clone(), program: pattern.program.clone() }
}

impl Pattern {
    /// Compiles `source`. Fails, with the engine's message, exactly where the
    /// regex engine refuses the pattern.
    pub fn new(source: &str) -> (made: Result<Pattern, String>)
        ensures
            made is Ok <==> regex_compiles(source@),
            made matches Ok(pattern) ==> pattern@ == source@,
    {
        regex_new(source)
    }

    /// Whether the pattern finds an occurrence anywhere in `text`.
    pub fn is_match(&self, text: &str) -> (found: bool)
        ensures
            found == regex_matches(self@, text@),
    {
        regex_is_match(self, text)
    }

    /// The pattern text.
    pub fn as_str(&self) -> (source: &str)
        ensures
            source@ == self@,
    {
        self.source.as_str()
    }
}

impl Clone for Pattern {
    fn clone(&self) -> (copy: Self)
        ensures
            copy@ == self@,
    {
        regex_clone(self)
    }
}

impl PartialEq for Pattern {
    fn eq(&self, other: &Self) -> (same: bool) {
        str_eq(self.as_str(), other.as_str())
    }
}

impl PartialEqSpecImpl for Pattern {
    open spec fn obeys_eq_spec() -> bool {
        true
    }

    open spec fn eq_spec(&self, other: &Self) -> bool {
        self@ == other@
    }
}

} // verus!
