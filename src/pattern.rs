//! The regular expression that picks commands to leave out.
use regex::Regex;
use vstd::prelude::*;

verus! {

#[verifier::external_type_specification]
#[verifier::external_body]
pub struct ExRegex(regex::Regex);

#[verifier::external_type_specification]
#[verifier::external_body]
pub struct ExRegexError(regex::Error);

/// Whether the regular expression written `pattern` compiles with the default limits.
pub uninterp spec fn regex_compiles(pattern: Seq<char>) -> bool;

/// Whether the regular expression written `pattern` matches somewhere in `haystack`.
pub uninterp spec fn regex_finds(pattern: Seq<char>, haystack: Seq<char>) -> bool;

/// Relies on `regex::Regex::new`, which fails exactly on a pattern that does not
/// parse or whose compiled form exceeds the default size limit: both depend on the
/// pattern alone.
#[verifier::external_body]
fn compile_regex(pattern: &str) -> (r: Result<Regex, regex::Error>)
    ensures
        r is Ok <==> regex_compiles(pattern@),
{
    Regex::new(pattern)
}

/// A pattern that was given where a regular expression was expected, and that
/// does not compile.
#[derive(Debug, PartialEq, Eq)]
pub struct InvalidPattern {
    pattern: String,
}

impl InvalidPattern {
    pub closed spec fn pattern_view(&self) -> Seq<char> {
        self.pattern@
    }

    pub fn pattern(&self) -> (r: &str)
        ensures
            r@ == self.pattern_view(),
    {
        self.pattern.as_str()
    }
}

/// A compiled regular expression together with the text it was compiled from.
/// Both fields are set together by `new` and never change.
#[derive(Debug)]
pub struct SkipPattern {
    source: String,
    regex: Regex,
}

impl View for SkipPattern {
    type V = Seq<char>;

    closed spec fn view(&self) -> Seq<char> {
        self.source@
    }
}

impl SkipPattern {
    pub fn new(pattern: &str) -> (r: Result<SkipPattern, InvalidPattern>)
        ensures
            match r {
                Ok(p) => regex_compiles(pattern@) && p@ == pattern@,
                Err(e) => !regex_compiles(pattern@) && e.pattern_view() == pattern@,
            },
    {
        match compile_regex(pattern) {
            Ok(regex) => Ok(SkipPattern { source: String::from_str(pattern), regex }),
            Err(_) => Err(InvalidPattern { pattern: String::from_str(pattern) }),
        }
    }

    pub fn as_str(&self) -> (r: &str)
        ensures
            r@ == self@,
    {
        self.source.as_str()
    }

    /// Relies on `regex::Regex::is_match`, which tells whether the expression
    /// matches anywhere in `text`; `regex` is the compiled form of `source`.
    #[verifier::external_body]
    pub(crate) fn is_match(&self, text: &str) -> (r: bool)
        ensures
            r == regex_finds(self@, text@),
    {
        self.regex.is_match(text)
    }
}

} // verus!
