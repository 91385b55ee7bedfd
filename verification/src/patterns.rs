//! The patterns that cleaning and entity extraction look for, and the calls
//! that apply them.

use vstd::prelude::*;
use regex::Regex;

verus! {

/// The patterns of this library.
#[derive(Clone, Copy, Debug, PartialEq, Eq, Structural)]
pub enum Pattern {
    /// An HTML tag: `<`, then anything but `>`, then `>`.
    HtmlTag,
    /// A control character other than tab, line feed and carriage return.
    ControlCharacter,
    /// A run of whitespace.
    Whitespace,
    /// A date: day, month and year, with `/` or `-` between them.
    Date,
    /// A time of day: hours and minutes, and seconds where they are given.
    Time,
    /// A number followed by a unit of measurement.
    Measurement,
}

impl Pattern {
    /// The pattern as a regular expression.
    pub open spec fn spec_source(self) -> Seq<char> {
        match self {
            Pattern::HtmlTag => "<[^>]+>"@,
            Pattern::ControlCharacter => "[\\x00-\\x08\\x0B\\x0C\\x0E-\\x1F]"@,
            Pattern::Whitespace => "\\s+"@,
            Pattern::Date => "\\d{1,2}[/\\-]\\d{1,2}[/\\-]\\d{2,4}"@,
            Pattern::Time => "\\d{1,2}:\\d{2}(?::\\d{2})?"@,
            Pattern::Measurement =>
                "\\d+(?:\\.\\d+)?\\s*(?:mg|ml|g|kg|mm|cm|mmHg|bpm|\u{c2}\u{b0}C|%|mcg|UI)"@,
        }
    }

    /// The pattern as a regular expression.
    pub fn source(self) -> (s: &'static str)
        ensures
            s@ == self.spec_source(),
    {
        match self {
            Pattern::HtmlTag => "<[^>]+>",
            Pattern::ControlCharacter => "[\\x00-\\x08\\x0B\\x0C\\x0E-\\x1F]",
            Pattern::Whitespace => "\\s+",
            Pattern::Date => "\\d{1,2}[/\\-]\\d{1,2}[/\\-]\\d{2,4}",
            Pattern::Time => "\\d{1,2}:\\d{2}(?::\\d{2})?",
            Pattern::Measurement =>
                "\\d+(?:\\.\\d+)?\\s*(?:mg|ml|g|kg|mm|cm|mmHg|bpm|\u{c2}\u{b0}C|%|mcg|UI)",
        }
    }
}

/// A pattern was not taken as a regular expression.
#[derive(Clone, Copy, Debug, PartialEq, Eq, Structural)]
pub struct PatternError {
    /// The pattern that was turned down.
    pub pattern: Pattern,
}

/// The reason for which `Regex::new` turned a pattern down: `regex::Error`,
/// of which nothing is read here.
#[verifier::external_type_specification]
#[verifier::external_body]
pub struct ExRegexError(regex::Error);

/// Whether `Regex::new` takes the pattern: it does when the pattern is well
/// formed and the compiled expression stays within the default size limit.
pub uninterp spec fn compiles(pattern: Seq<char>) -> bool;

/// What `Regex::replace_all` makes of a text: the text with every match of
/// the pattern, from left to right and without overlap, replaced.
pub uninterp spec fn replaced_all(
    pattern: Seq<char>,
    text: Seq<char>,
    replacement: Seq<char>,
) -> Seq<char>;

/// What `Regex::find_iter` finds in a text: the matches of the pattern, from
/// left to right and without overlap.
pub uninterp spec fn matches_in(pattern: Seq<char>, text: Seq<char>) -> Seq<Seq<char>>;

/// Compiles the pattern with `Regex::new` and calls `Regex::replace_all` on
/// the text. The contract claims that whether the pattern compiles depends on
/// the pattern alone, and that, where it compiles, the result depends on the
/// pattern, the text and the replacement alone. Which patterns compile is not
/// claimed.
#[verifier::external_body]
pub(crate) fn replace_all(pattern: &str, text: &str, replacement: &str) -> (r: Result<
    String,
    regex::Error,
>)
    ensures
        r is Ok <==> compiles(pattern@),
        r is Ok ==> r->Ok_0@ == replaced_all(pattern@, text@, replacement@),
{
    match Regex::new(pattern) {
        Ok(compiled) => Ok(compiled.replace_all(text, replacement).into_owned()),
        Err(error) => Err(error),
    }
}

/// Compiles the pattern with `Regex::new` and collects what
/// `Regex::find_iter` yields on the text, each match as a string of its own.
/// The contract claims that whether the pattern compiles depends on the
/// pattern alone, and that, where it compiles, the matches depend on the
/// pattern and the text alone. Which patterns compile is not claimed.
#[verifier::external_body]
pub(crate) fn find_all(pattern: &str, text: &str) -> (r: Result<Vec<String>, regex::Error>)
    ensures
        r is Ok <==> compiles(pattern@),
        r is Ok ==> r->Ok_0.deep_view() == matches_in(pattern@, text@),
{
    match Regex::new(pattern) {
        Ok(compiled) => Ok(compiled.find_iter(text).map(|found| found.as_str().to_string()).collect()),
        Err(error) => Err(error),
    }
}

/// The first of three patterns, in the order given, that does not compile.
pub open spec fn first_refused(first: Pattern, second: Pattern, third: Pattern) -> Option<Pattern> {
    if !compiles(first.spec_source()) {
        Some(first)
    } else if !compiles(second.spec_source()) {
        Some(second)
    } else if !compiles(third.spec_source()) {
        Some(third)
    } else {
        None
    }
}

/// Names the pattern in place of the reason for which it was turned down.
pub fn for_pattern<T>(outcome: Result<T, regex::Error>, pattern: Pattern) -> (r: Result<
    T,
    PatternError,
>)
    ensures
        outcome is Ok ==> r == Ok::<T, PatternError>(outcome->Ok_0),
        outcome is Err ==> r == Err::<T, PatternError>(PatternError { pattern }),
{
    match outcome {
        Ok(value) => Ok(value),
        Err(_) => Err(PatternError { pattern }),
    }
}

} // verus!
