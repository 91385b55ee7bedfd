//! Cleaning a text: HTML tags and control characters are taken out, every run
//! of whitespace becomes one space, and the ends are trimmed.

use vstd::prelude::*;
use crate::patterns::{
    compiles, first_refused, for_pattern, replace_all, replaced_all, Pattern, PatternError,
};
use crate::text::{is_whitespace, lemma_trim, lemma_trim_is_idempotent, trim, trim_text};

verus! {

/// The text without its HTML tags.
pub open spec fn without_tags(text: Seq<char>) -> Seq<char> {
    replaced_all(Pattern::HtmlTag.spec_source(), text, ""@)
}

/// The text without its control characters.
pub open spec fn without_controls(text: Seq<char>) -> Seq<char> {
    replaced_all(Pattern::ControlCharacter.spec_source(), text, ""@)
}

/// The text with one space for every run of whitespace.
pub open spec fn with_single_spaces(text: Seq<char>) -> Seq<char> {
    replaced_all(Pattern::Whitespace.spec_source(), text, " "@)
}

/// The cleaned text: the tags go first, then the control characters, then the
/// whitespace is collapsed, and the ends are trimmed.
pub open spec fn cleaned(text: Seq<char>) -> Seq<char> {
    trim(with_single_spaces(without_controls(without_tags(text))))
}

/// The cleaned text has no whitespace at either end, and trimming it again
/// changes nothing.
pub proof fn lemma_cleaned_is_trimmed(text: Seq<char>)
    ensures
        trim(cleaned(text)) == cleaned(text),
        cleaned(text).len() > 0 ==> !is_whitespace(cleaned(text)[0]) && !is_whitespace(
            cleaned(text).last(),
        ),
{
    let collapsed = with_single_spaces(without_controls(without_tags(text)));
    lemma_trim(collapsed);
    lemma_trim_is_idempotent(collapsed);
}

/// Cleans a text. The text is cleaned exactly when the three patterns of
/// cleaning compile; an error names the first of them, in the order in which
/// they are applied, that does not.
pub fn clean_medical_text(text: &str) -> (r: Result<String, PatternError>)
    ensures
        r is Ok <==> (compiles(Pattern::HtmlTag.spec_source()) && compiles(
            Pattern::ControlCharacter.spec_source(),
        ) && compiles(Pattern::Whitespace.spec_source())),
        r is Ok ==> r->Ok_0@ == cleaned(text@),
        r is Ok ==> trim(r->Ok_0@) == r->Ok_0@,
        r is Err ==> !compiles(r->Err_0.pattern.spec_source()),
        r is Err ==> Some(r->Err_0.pattern) == first_refused(
            Pattern::HtmlTag,
            Pattern::ControlCharacter,
            Pattern::Whitespace,
        ),
{
    proof {
        lemma_cleaned_is_trimmed(text@);
    }
    let no_tags = match for_pattern(
        replace_all(Pattern::HtmlTag.source(), text, ""),
        Pattern::HtmlTag,
    ) {
        Ok(s) => s,
        Err(e) => {
            return Err(e);
        },
    };
    let no_controls = match for_pattern(
        replace_all(Pattern::ControlCharacter.source(), no_tags.as_str(), ""),
        Pattern::ControlCharacter,
    ) {
        Ok(s) => s,
        Err(e) => {
            return Err(e);
        },
    };
    let collapsed = match for_pattern(
        replace_all(Pattern::Whitespace.source(), no_controls.as_str(), " "),
        Pattern::Whitespace,
    ) {
        Ok(s) => s,
        Err(e) => {
            return Err(e);
        },
    };
    Ok(trim_text(collapsed.as_str()))
}

} // verus!
