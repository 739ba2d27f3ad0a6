//! The boundary to the `regex` crate: a compiled policy pattern together
//! with the (ghost) pattern text it was compiled from.
//!
//! Only this module calls into `regex`. What a pattern matches is named, not
//! spelled out: [`regex_is_valid`] stands for whether `regex::Regex::new`
//! accepts a pattern, and [`regex_find`] for the leftmost match
//! `regex::Regex::find` returns, both functions of their arguments alone.

use vstd::prelude::*;

verus! {

#[verifier::external_type_specification]
#[verifier::external_body]
pub struct ExRegex(regex::Regex);

/// Whether `regex::Regex::new` compiles `pat`: the pattern is a valid
/// regular expression within the crate's default size limit.
pub uninterp spec fn regex_is_valid(pat: Seq<char>) -> bool;

/// The substring of `hay` that `regex::Regex::find` returns for a regex
/// compiled from `pat`: its leftmost match in `hay`, if any.
pub uninterp spec fn regex_find(pat: Seq<char>, hay: Seq<char>) -> Option<Seq<char>>;

/// A compiled regular expression, remembering the pattern text it came from.
pub struct CompiledPattern {
    regex: regex::Regex,
    pattern_text: String,
}

impl CompiledPattern {
    /// The pattern text this value was compiled from.
    pub closed spec fn pattern(&self) -> Seq<char> {
        self.pattern_text@
    }

    /// Relies on `regex::Regex::new`: it returns `Ok` exactly on the
    /// patterns it accepts, here named [`regex_is_valid`].
    #[verifier::external_body]
    fn compile(pattern: &str) -> (r: Option<CompiledPattern>)
        ensures
            r is Some <==> regex_is_valid(pattern@),
            r matches Some(p) ==> p.pattern() == pattern@,
    {
        match regex::Regex::new(pattern) {
            Ok(regex) => Some(CompiledPattern { regex, pattern_text: pattern.to_owned() }),
            Err(_) => None,
        }
    }

    /// Relies on `regex::Regex::find`: the leftmost match is a function of
    /// the pattern and the haystack alone, here named [`regex_find`].
    #[verifier::external_body]
    fn find_raw(&self, haystack: &str) -> (r: Option<String>)
        ensures
            r.deep_view() == regex_find(self.pattern(), haystack@),
    {
        self.regex.find(haystack).map(|m| m.as_str().to_string())
    }

    /// Compiles `pattern`, returning `None` exactly when it is not a valid
    /// regular expression.
    pub fn new(pattern: &str) -> (r: Option<CompiledPattern>)
        ensures
            r is Some <==> regex_is_valid(pattern@),
            r matches Some(p) ==> p.pattern() == pattern@,
    {
        CompiledPattern::compile(pattern)
    }

    /// The leftmost substring of `haystack` this pattern matches, if any.
    pub fn find(&self, haystack: &str) -> (r: Option<String>)
        ensures
            r.deep_view() == regex_find(self.pattern(), haystack@),
    {
        self.find_raw(haystack)
    }
}

} // verus!
