//! Regular expressions, through the `regex` crate.
//!
//! A compiled expression is kept with the pattern it was compiled from, so that what a
//! match or a replacement gives can be stated as a function of the pattern and the text.
use vstd::prelude::*;

verus! {

#[verifier::external_type_specification]
#[verifier::external_body]
pub struct ExRegex(regex::Regex);

/// The message of the error `Regex::new` gives for `pattern`, or `None` when it compiles.
pub uninterp spec fn regex_new_error(pattern: Seq<char>) -> Option<Seq<char>>;

/// What `Regex::is_match` answers for the expression of `pattern` on `haystack`.
pub uninterp spec fn regex_is_match(pattern: Seq<char>, haystack: Seq<char>) -> bool;

/// What `Regex::replace_all` gives for the expression of `pattern` on `haystack` with the
/// replacement text `rep`.
pub uninterp spec fn regex_replace_all(pattern: Seq<char>, haystack: Seq<char>, rep: Seq<char>) -> Seq<
    char,
>;

/// A compiled regular expression with its pattern.
pub struct CompiledRegex {
    pattern: String,
    re: regex::Regex,
}

impl CompiledRegex {
    /// The pattern the expression was compiled from.
    pub closed spec fn pattern(&self) -> Seq<char> {
        self.pattern@
    }

    /// Compiles `pattern` with `Regex::new`. The contract claims that compilation succeeds
    /// exactly when [`regex_new_error`] has no message for the pattern, and that an error
    /// carries that message (the `Display` text of `regex::Error`).
    #[verifier::external_body]
    pub(crate) fn compile(pattern: &str) -> (r: Result<CompiledRegex, String>)
        ensures
            match r {
                Ok(c) => regex_new_error(pattern@) is None && c.pattern() == pattern@,
                Err(m) => regex_new_error(pattern@) == Some(m@),
            },
    {
        match regex::Regex::new(pattern) {
            Ok(re) => Ok(CompiledRegex { pattern: pattern.to_string(), re }),
            Err(e) => Err(e.to_string()),
        }
    }

    /// `Regex::is_match`. The contract claims only that the answer is
    /// [`regex_is_match`] of the pattern and the text.
    #[verifier::external_body]
    pub(crate) fn is_match(&self, haystack: &str) -> (r: bool)
        ensures
            r == regex_is_match(self.pattern(), haystack@),
    {
        self.re.is_match(haystack)
    }

    /// `Regex::replace_all` with a replacement text. The contract claims only that the
    /// result is [`regex_replace_all`] of the pattern, the text and the replacement.
    #[verifier::external_body]
    pub(crate) fn replace_all(&self, haystack: &str, rep: &str) -> (r: String)
        ensures
            r@ == regex_replace_all(self.pattern(), haystack@, rep@),
    {
        self.re.replace_all(haystack, rep).into_owned()
    }
}

} // verus!
