//! The one place where the regex crate is spoken to. A compiled pattern
//! carries its own source text, and matching is named as a function of the
//! pattern text and the subject alone.

use vstd::prelude::*;

verus! {

/// Declares regex::Regex so compiled patterns can live in library types;
/// its values stay opaque here.
#[verifier::external_type_specification]
#[verifier::external_body]
pub struct ExRegex(regex::Regex);

/// Whether the pattern, as the regex crate reads it, matches somewhere in
/// the text. The patterns this crate builds are anchored, so a match here is
/// a whole-text match.
pub uninterp spec fn regex_accepts(pattern: Seq<char>, text: Seq<char>) -> bool;

/// Whether the regex crate accepts the pattern at all; compilation is a
/// function of the pattern text alone.
pub uninterp spec fn regex_compiles(pattern: Seq<char>) -> bool;

/// A compiled pattern together with the text it was compiled from. Only
/// `compile_regex` builds one, so the two fields always belong together.
pub struct CompiledRegex {
    regex: regex::Regex,
    pattern: String,
}

impl CompiledRegex {
    /// The text this pattern was compiled from.
    pub closed spec fn pattern_view(&self) -> Seq<char> {
        self.pattern@
    }

    /// The text this pattern was compiled from, for display and comparison.
    pub fn pattern_str(&self) -> (r: &str)
        ensures
            r@ == self.pattern_view(),
    {
        self.pattern.as_str()
    }
}

/// Relies on regex::Regex::new: compiles the pattern, or reports why not;
/// whether it compiles depends on the pattern text alone.
#[verifier::external_body]
pub fn compile_regex(pattern: &str) -> (r: Result<CompiledRegex, String>)
    ensures
        (r is Ok) == regex_compiles(pattern@),
        r matches Ok(c) ==> c.pattern_view() == pattern@,
{
    match regex::Regex::new(pattern) {
        Ok(regex) => Ok(CompiledRegex { regex, pattern: pattern.to_string() }),
        Err(err) => Err(err.to_string()),
    }
}

/// Relies on regex::Regex::is_match: the answer depends on the pattern text
/// and the subject alone.
#[verifier::external_body]
pub fn regex_is_match(re: &CompiledRegex, text: &str) -> (r: bool)
    ensures
        r == regex_accepts(re.pattern_view(), text@),
{
    re.regex.is_match(text)
}

} // verus!
