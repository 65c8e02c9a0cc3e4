//! Trusted boundary to the regex crate: pattern compilation and matching.

use vstd::prelude::*;

verus! {

#[verifier::external_type_specification]
#[verifier::external_body]
pub struct ExRegex(regex::Regex);

/// Whether the regex crate compiles this pattern text; `Regex::new` accepts
/// or rejects a pattern as a function of the pattern text alone.
pub uninterp spec fn regex_compiles(pat: Seq<char>) -> bool;

/// Whether the regex compiled from `pat` matches somewhere in `text`;
/// `Regex::is_match` is a function of the pattern text and the haystack.
pub uninterp spec fn regex_matches(pat: Seq<char>, text: Seq<char>) -> bool;

/// A compiled regex, kept beside the pattern text it was built from.
/// `compile_regex` is the only constructor, so the two always agree.
pub struct CompiledRegex {
    pattern: String,
    inner: regex::Regex,
}

impl CompiledRegex {
    /// The pattern text this regex was compiled from.
    pub closed spec fn spec_pattern(&self) -> Seq<char> {
        self.pattern@
    }

    /// Relies on regex::Regex::new: compiles the pattern text, returning
    /// None exactly when the regex crate rejects it.
    #[verifier::external_body]
    pub fn compile(pat: &str) -> (r: Option<CompiledRegex>)
        ensures
            r is Some <==> regex_compiles(pat@),
            r matches Some(c) ==> c.spec_pattern() == pat@,
    {
        match regex::Regex::new(pat) {
            Ok(inner) => Some(CompiledRegex { pattern: pat.to_owned(), inner }),
            Err(_) => None,
        }
    }

    /// Relies on regex::Regex::is_match: reports whether the compiled regex
    /// matches somewhere in the haystack.
    #[verifier::external_body]
    pub fn is_match(&self, text: &str) -> (r: bool)
        ensures
            r == regex_matches(self.spec_pattern(), text@),
    {
        self.inner.is_match(text)
    }
}

} // verus!
