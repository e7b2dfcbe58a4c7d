//! Trusted boundary around the `regex` crate: a compiled regex paired with
//! the pattern text it was compiled from, so that contracts can speak of
//! matching as a function of the pattern alone.

use vstd::prelude::*;

verus! {

#[verifier::external_type_specification]
#[verifier::external_body]
pub struct ExRegex(regex::Regex);

/// Whether `regex::Regex::new` accepts the pattern.
pub uninterp spec fn regex_accepts(pattern: Seq<char>) -> bool;

/// What `regex::Regex::is_match` returns for a pattern and a haystack.
pub uninterp spec fn regex_match(pattern: Seq<char>, text: Seq<char>) -> bool;

/// A compiled regex together with the pattern it was compiled from.
/// The fields stay private: every value is produced by `compile` (or `clone`),
/// so the inner regex always is the compilation of `pattern`.
#[derive(Debug)]
pub struct CompiledRegex {
    re: regex::Regex,
    pattern: String,
}

impl CompiledRegex {
    /// The pattern this regex was compiled from.
    pub closed spec fn pattern_view(&self) -> Seq<char> {
        self.pattern@
    }

    /// Relies on `regex::Regex::new` (regex 1.13): deterministic in the
    /// pattern text, `Ok` exactly for the patterns the crate accepts.
    #[verifier::external_body]
    pub fn compile(pattern: &str) -> (r: Result<CompiledRegex, String>)
        ensures
            r is Ok <==> regex_accepts(pattern@),
            r matches Ok(c) ==> c.pattern_view() == pattern@,
    {
        match regex::Regex::new(pattern) {
            Ok(re) => Ok(CompiledRegex { re, pattern: pattern.to_string() }),
            Err(e) => Err(format!("{}", e)),
        }
    }

    /// Relies on `regex::Regex::is_match` (regex 1.13): deterministic in the
    /// compiled pattern and the haystack.
    #[verifier::external_body]
    pub fn is_match(&self, text: &str) -> (r: bool)
        ensures
            r == regex_match(self.pattern_view(), text@),
    {
        self.re.is_match(text)
    }
}

impl Clone for CompiledRegex {
    /// Relies on `regex::Regex::clone`: the clone matches exactly as the
    /// original does.
    #[verifier::external_body]
    fn clone(&self) -> (r: Self)
        ensures
            r.pattern_view() == self.pattern_view(),
    {
        CompiledRegex { re: self.re.clone(), pattern: self.pattern.clone() }
    }
}

} // verus!
