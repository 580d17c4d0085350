//! Character classes written as regular expressions.
//!
//! Matching is done by the `regex` crate. What it answers is not proved here:
//! the two names below stand for its answers, and the two private functions
//! that call it are believed to return them.

use vstd::prelude::*;
use vstd::string::*;

verus! {

/// Whether `regex::Regex::new` accepts `pattern`.
pub uninterp spec fn regex_compiles(pattern: Seq<char>) -> bool;

/// Whether the regular expression written as `pattern` finds a match
/// anywhere in `haystack`, as `regex::Regex::is_match` reports it.
pub uninterp spec fn regex_is_match(pattern: Seq<char>, haystack: Seq<char>) -> bool;

/// Whether a class written as `pattern` admits the single character `ch`.
/// A pattern that does not compile admits nothing.
pub open spec fn class_accepts(pattern: Seq<char>, ch: char) -> bool {
    regex_compiles(pattern) && regex_is_match(pattern, seq![ch])
}

/// Calls `regex::Regex::new` and reports whether it returned `Ok`.
/// Trusted: the result is what the crate decides for this pattern text. The
/// decision rests on the text alone: the size limit is the crate's fixed
/// default, and no clock, environment or random source is read. The crate
/// measures a compiled pattern in bytes of memory, so a pattern right at
/// that limit is the one case in which machines of different pointer width
/// could decide differently.
#[verifier::external_body]
fn compiles(pattern: &str) -> (ok: bool)
    ensures
        ok == regex_compiles(pattern@),
{
    regex::Regex::new(pattern).is_ok()
}

/// Compiles `pattern` with `regex::Regex::new` and asks `Regex::is_match`
/// about the one-character haystack `ch`. Trusted: the answer is the
/// crate's, and `false` where the pattern does not compile.
#[verifier::external_body]
fn matches_char(pattern: &str, ch: char) -> (m: bool)
    ensures
        m == (regex_compiles(pattern@) && regex_is_match(pattern@, seq![ch])),
{
    match regex::Regex::new(pattern) {
        Ok(re) => re.is_match(&ch.to_string()),
        Err(_) => false,
    }
}

/// A character class given by a regular expression that compiles.
pub struct CharClass {
    pattern: String,
}

impl View for CharClass {
    type V = Seq<char>;

    /// The text of the regular expression.
    closed spec fn view(&self) -> Seq<char> {
        self.pattern@
    }
}

impl CharClass {
    /// Makes a class from the text of a regular expression, or `None` where
    /// the text is not a regular expression.
    pub fn compile(pattern: &str) -> (class: Option<CharClass>)
        ensures
            class is Some <==> regex_compiles(pattern@),
            class is Some ==> class.unwrap()@ == pattern@,
    {
        if compiles(pattern) {
            Some(CharClass { pattern: String::from_str(pattern) })
        } else {
            None
        }
    }

    /// The text of the regular expression.
    pub fn as_str(&self) -> (text: &str)
        ensures
            text@ == self@,
    {
        self.pattern.as_str()
    }

    /// Whether the class admits `ch`.
    pub fn is_match(&self, ch: char) -> (m: bool)
        ensures
            m == class_accepts(self@, ch),
    {
        matches_char(self.pattern.as_str(), ch)
    }
}

} // verus!
