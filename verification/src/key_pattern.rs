//! The `regex` crate's calls: which object keys may be written without quotes.
use vstd::prelude::*;

verus! {

#[verifier::external_type_specification]
#[verifier::external_body]
pub struct ExRegex(regex::Regex);

/// What `regex::Regex::new` reports for a pattern: `None` when it compiles, else the
/// message of the error it returns.
pub uninterp spec fn regex_compile_error(pattern: Seq<char>) -> Option<Seq<char>>;

/// What `regex::Regex::is_match` answers for the regex compiled from `pattern` on `text`.
pub uninterp spec fn regex_is_match(pattern: Seq<char>, text: Seq<char>) -> bool;

/// A compiled regex together with the pattern it was compiled from. Only `compile` makes
/// one, so the regex is always the one compiled from the pattern.
pub struct KeyPattern {
    pattern: String,
    regex: regex::Regex,
}

impl KeyPattern {
    /// The pattern the regex was compiled from.
    pub closed spec fn pattern(&self) -> Seq<char> {
        self.pattern@
    }

    /// Compiles `pattern` with `regex::Regex::new`; an error comes back as its message. The
    /// contract claims only that the outcome is `regex_compile_error` of the pattern.
    #[verifier::external_body]
    pub(crate) fn compile(pattern: &str) -> (res: Result<KeyPattern, String>)
        ensures
            (match regex_compile_error(pattern@) {
                None => res matches Ok(compiled) && compiled.pattern() == pattern@,
                Some(message) => res matches Err(error) && error@ == message,
            }),
    {
        match regex::Regex::new(pattern) {
            Ok(regex) => Ok(KeyPattern { pattern: pattern.to_string(), regex }),
            Err(error) => Err(error.to_string()),
        }
    }

    /// Asks `regex::Regex::is_match` whether the regex matches somewhere in `text`. The
    /// contract names the answer `regex_is_match` of the pattern and the text and says no
    /// more of the regex engine.
    #[verifier::external_body]
    pub(crate) fn is_match(&self, text: &str) -> (res: bool)
        ensures
            res == regex_is_match(self.pattern(), text@),
    {
        self.regex.is_match(text)
    }
}

} // verus!
