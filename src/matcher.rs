//! The regular-expression engine that patterns are compiled with, as the
//! library sees it: whether a source compiles under given options, which
//! options a matcher was built with, and whether it finds a match.
use vstd::prelude::*;

verus! {

#[verifier::external_type_specification]
#[verifier::external_body]
pub struct ExRegex(regex::Regex);

/// Whether `source` is accepted by the regex crate's builder with the given
/// case-insensitivity and multi-line options (and its default limits).
pub uninterp spec fn regex_compiles(source: Seq<char>, case_insensitive: bool, multi_line: bool) -> bool;

/// For a regex that `build_regex` returned: the source and the two options it
/// was given. `build_regex` sets no other builder option, so every other one
/// is at its default.
pub uninterp spec fn regex_settings(re: regex::Regex) -> (Seq<char>, bool, bool);

/// Whether the regex built from `source` with the given options, every other
/// builder option at its default, finds a match anywhere in `text`.
pub uninterp spec fn regex_finds(
    source: Seq<char>,
    case_insensitive: bool,
    multi_line: bool,
    text: Seq<char>,
) -> bool;

/// A compiled regex. Its field is private and `Matcher::build` is the only way
/// to make one, so each matcher's regex came from `build_regex`.
#[derive(Debug)]
pub struct Matcher {
    re: regex::Regex,
}

impl Matcher {
    /// The source and the case-insensitivity and multi-line options that the
    /// matcher was built from.
    pub closed spec fn settings(&self) -> (Seq<char>, bool, bool) {
        regex_settings(self.re)
    }

    /// Whether the matcher finds a match anywhere in `text`.
    pub open spec fn finds(&self, text: Seq<char>) -> bool {
        regex_finds(self.settings().0, self.settings().1, self.settings().2, text)
    }

    /// Builds a matcher from `source` with the two options; the error is the
    /// regex crate's message.
    pub(crate) fn build(source: &str, case_insensitive: bool, multi_line: bool) -> (r: Result<Matcher, String>)
        ensures
            r is Ok <==> regex_compiles(source@, case_insensitive, multi_line),
            r matches Ok(m) ==> m.settings() == (source@, case_insensitive, multi_line),
    {
        match build_regex(source, case_insensitive, multi_line) {
            Ok(re) => Ok(Matcher { re }),
            Err(message) => Err(message),
        }
    }

    /// Whether the matcher finds a match anywhere in `text`.
    pub(crate) fn is_match(&self, text: &str) -> (r: bool)
        ensures
            r == self.finds(text@),
    {
        regex_is_match(&self.re, text)
    }
}

/// Relies on regex::RegexBuilder (new, case_insensitive, multi_line, build):
/// the build succeeds exactly when the source is accepted under those options,
/// and the regex it returns was built from them. The error is kept as its message.
#[verifier::external_body]
fn build_regex(source: &str, case_insensitive: bool, multi_line: bool) -> (r: Result<
    regex::Regex,
    String,
>)
    ensures
        r is Ok <==> regex_compiles(source@, case_insensitive, multi_line),
        r matches Ok(re) ==> regex_settings(re) == (source@, case_insensitive, multi_line),
{
    regex::RegexBuilder::new(source)
        .case_insensitive(case_insensitive)
        .multi_line(multi_line)
        .build()
        .map_err(|e| e.to_string())
}

/// Relies on regex::Regex::is_match: whether the regex matches anywhere in
/// `text`. Only regexes that `build_regex` made reach it, inside a [`Matcher`].
#[verifier::external_body]
fn regex_is_match(re: &regex::Regex, text: &str) -> (r: bool)
    ensures
        r == regex_finds(regex_settings(*re).0, regex_settings(*re).1, regex_settings(*re).2, text@),
{
    re.is_match(text)
}

} // verus!
