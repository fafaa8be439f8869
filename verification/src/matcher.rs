//! Compiled regular expressions, from the `regex` crate.
//!
//! Which patterns compile and which texts a pattern finds are `regex`'s own
//! business; the library names those answers and reasons over the names.

use vstd::prelude::*;
use crate::error::{is_other, OadigError};
use crate::text::concat;

verus! {

#[verifier::external_type_specification]
#[verifier::external_body]
pub struct ExRegex(regex::Regex);

/// `None` when `regex` compiles `pattern` (ASCII/Unicode case folded when
/// `case_insensitive`), else the display text of its error.
pub uninterp spec fn regex_build_error(pattern: Seq<char>, case_insensitive: bool) -> Option<Seq<char>>;

/// Whether the compiled `pattern` matches somewhere in `haystack`.
pub uninterp spec fn regex_finds(pattern: Seq<char>, case_insensitive: bool, haystack: Seq<char>) -> bool;

/// A regular expression together with the text and setting it was compiled from.
#[derive(Debug)]
pub struct Matcher {
    re: regex::Regex,
    source: String,
    case_insensitive: bool,
}

/// Compiles a pattern: `regex::RegexBuilder::new(..).case_insensitive(..).build()`.
/// The contract claims that the outcome is the named one for the pattern and the
/// setting, and that a compiled matcher records both.
#[verifier::external_body]
fn compile_regex(pattern: String, case_insensitive: bool) -> (r: Result<Matcher, String>)
    ensures
        r matches Ok(m) ==> regex_build_error(pattern@, case_insensitive) is None && m.source@ == pattern@
            && m.case_insensitive == case_insensitive,
        r matches Err(msg) ==> regex_build_error(pattern@, case_insensitive) == Some(msg@),
{
    match regex::RegexBuilder::new(&pattern).case_insensitive(case_insensitive).build() {
        Ok(re) => Ok(Matcher { re, source: pattern, case_insensitive }),
        Err(e) => Err(format!("{e}")),
    }
}

/// `regex::Regex::is_match`. The contract claims the named answer for the text and
/// setting the matcher was compiled from.
#[verifier::external_body]
fn regex_is_match(m: &Matcher, haystack: &str) -> (r: bool)
    ensures
        r == regex_finds(m.source@, m.case_insensitive, haystack@),
{
    m.re.is_match(haystack)
}

impl Matcher {
    pub closed spec fn pattern(&self) -> Seq<char> {
        self.source@
    }

    pub closed spec fn ignores_case(&self) -> bool {
        self.case_insensitive
    }

    /// Compiles `pattern`; an invalid one is `Other("invalid regex: <reason>")`.
    pub fn compile(pattern: &str, case_insensitive: bool) -> (r: Result<Matcher, OadigError>)
        ensures
            r is Ok <==> regex_build_error(pattern@, case_insensitive) is None,
            r matches Ok(m) ==> m.pattern() == pattern@ && m.ignores_case() == case_insensitive,
            r matches Err(e) ==> is_other(&e, "invalid regex: "@ + regex_build_error(pattern@, case_insensitive)->Some_0),
    {
        match compile_regex(crate::text::owned(pattern), case_insensitive) {
            Ok(m) => Ok(m),
            Err(msg) => Err(OadigError::Other(concat("invalid regex: ", msg.as_str()))),
        }
    }

    /// Whether the expression matches somewhere in `s`.
    pub fn is_match(&self, s: &str) -> (r: bool)
        ensures
            r == regex_finds(self.pattern(), self.ignores_case(), s@),
    {
        regex_is_match(self, s)
    }
}

} // verus!
