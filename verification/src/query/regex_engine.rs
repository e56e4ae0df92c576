//! The regex engine that the translated Lua patterns and Vim regexes run on.
//!
//! Compiling and matching are done by the `regex` crate. What it accepts and
//! what it matches are named rather than restated here: both are functions of
//! the regex source, the flags it was built with, and the text.
use vstd::prelude::*;

verus! {

#[verifier::external_type_specification]
#[verifier::external_body]
pub struct ExRegex(regex::bytes::Regex);

/// Whether the `regex` crate accepts `source` as a byte regex with Unicode
/// off and the given flags.
pub uninterp spec fn regex_accepts(source: Seq<char>, case_insensitive: bool, dot_matches_new_line: bool) -> bool;

/// Whether the regex built from `source` and the flags matches somewhere in
/// `haystack`.
pub uninterp spec fn regex_is_match(
    source: Seq<char>,
    case_insensitive: bool,
    dot_matches_new_line: bool,
    haystack: Seq<u8>,
) -> bool;

/// What `replace_all` makes of `haystack` with the regex built from `source`
/// and the flags, and the replacement template `replacement`.
pub uninterp spec fn regex_replace_all(
    source: Seq<char>,
    case_insensitive: bool,
    dot_matches_new_line: bool,
    haystack: Seq<u8>,
    replacement: Seq<u8>,
) -> Seq<u8>;

/// Why the engine rejected a regex.
#[derive(Debug, Clone, PartialEq, Eq)]
pub enum RegexError {
    /// The source is not valid regex syntax; the engine's message.
    Syntax(String),
    /// The compiled program would exceed the engine's size limit.
    CompiledTooBig(usize),
    /// A failure the engine does not classify.
    Other,
}

/// A compiled byte regex, together with the source and flags it was built
/// from.
#[derive(Debug)]
pub struct CompiledRegex {
    regex: regex::bytes::Regex,
    source: String,
    case_insensitive: bool,
    dot_matches_new_line: bool,
}

impl CompiledRegex {
    /// The regex source this was compiled from.
    pub closed spec fn pattern(&self) -> Seq<char> {
        self.source@
    }

    /// Whether it matches case-insensitively.
    pub closed spec fn ignores_case(&self) -> bool {
        self.case_insensitive
    }

    /// Whether `.` also matches a newline.
    pub closed spec fn dot_all(&self) -> bool {
        self.dot_matches_new_line
    }

    /// Whether the regex matches somewhere in `haystack`.
    pub fn is_match(&self, haystack: &[u8]) -> (r: bool)
        ensures
            r == regex_is_match(self.pattern(), self.ignores_case(), self.dot_all(), haystack@),
    {
        regex_is_match_exec(self, haystack)
    }

    /// Replace every match in `haystack` with the template `replacement`.
    pub fn replace_all(&self, haystack: &[u8], replacement: &[u8]) -> (r: Vec<u8>)
        ensures
            r@ == regex_replace_all(
                self.pattern(),
                self.ignores_case(),
                self.dot_all(),
                haystack@,
                replacement@,
            ),
    {
        regex_replace_all_exec(self, haystack, replacement)
    }
}

/// `RegexBuilder::new(source).unicode(false).case_insensitive(..)
/// .dot_matches_new_line(..).build()` from the `regex` crate, in byte mode.
///
/// The contract claims that the build succeeds exactly when the named
/// acceptance holds for these arguments, and that the compiled regex is kept
/// together with the source and flags it was built from. Which error comes
/// back on failure is not stated.
#[verifier::external_body]
pub(crate) fn build_regex(source: &str, case_insensitive: bool, dot_matches_new_line: bool) -> (r: Result<
    CompiledRegex,
    RegexError,
>)
    ensures
        r is Ok <==> regex_accepts(source@, case_insensitive, dot_matches_new_line),
        r matches Ok(regex) ==> regex.pattern() == source@ && regex.ignores_case() == case_insensitive
            && regex.dot_all() == dot_matches_new_line,
{
    let built = regex::bytes::RegexBuilder::new(source)
        .unicode(false)
        .case_insensitive(case_insensitive)
        .dot_matches_new_line(dot_matches_new_line)
        .build();
    match built {
        Ok(regex) => Ok(CompiledRegex { regex, source: source.to_string(), case_insensitive, dot_matches_new_line }),
        Err(regex::Error::Syntax(message)) => Err(RegexError::Syntax(message)),
        Err(regex::Error::CompiledTooBig(limit)) => Err(RegexError::CompiledTooBig(limit)),
        Err(_) => Err(RegexError::Other),
    }
}

/// `Regex::is_match` from the `regex` crate.
///
/// The contract claims the answer is the named match relation of the source
/// and flags the regex was built from, applied to the haystack.
#[verifier::external_body]
fn regex_is_match_exec(regex: &CompiledRegex, haystack: &[u8]) -> (r: bool)
    ensures
        r == regex_is_match(regex.pattern(), regex.ignores_case(), regex.dot_all(), haystack@),
{
    regex.regex.is_match(haystack)
}

/// `Regex::replace_all` from the `regex` crate, with a byte template.
///
/// The contract claims the result is the named replacement of the source and
/// flags the regex was built from, applied to the haystack and template.
#[verifier::external_body]
fn regex_replace_all_exec(regex: &CompiledRegex, haystack: &[u8], replacement: &[u8]) -> (r: Vec<u8>)
    ensures
        r@ == regex_replace_all(
            regex.pattern(),
            regex.ignores_case(),
            regex.dot_all(),
            haystack@,
            replacement@,
        ),
{
    regex.regex.replace_all(haystack, replacement).into_owned()
}

} // verus!
