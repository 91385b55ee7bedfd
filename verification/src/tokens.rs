//! Tokens for embeddings: the words of a text in lower case, and an estimate
//! of how many tokens a text will take.

use vstd::prelude::*;
use vstd::utf8::encode_utf8;
use unicode_segmentation::UnicodeSegmentation;

verus! {

/// What `unicode_words` yields on a text: the pieces between word boundaries
/// that hold a letter or a digit, in the order of the text.
pub uninterp spec fn unicode_words(text: Seq<char>) -> Seq<Seq<char>>;

/// What `str::to_lowercase` makes of a text.
pub uninterp spec fn lowercased(text: Seq<char>) -> Seq<char>;

/// Collects what `UnicodeSegmentation::unicode_words` yields on the text, each
/// word as a string of its own. The contract claims that the words depend on
/// the text alone.
#[verifier::external_body]
fn words_of(text: &str) -> (words: Vec<String>)
    ensures
        words.deep_view() == unicode_words(text@),
{
    text.unicode_words().map(|word| word.to_string()).collect()
}

/// `str::to_lowercase` gives the text in lower case. The contract claims that
/// the result depends on the text alone.
pub assume_specification[ str::to_lowercase ](text: &str) -> (lower: String)
    ensures
        lower@ == lowercased(text@),
;

/// The tokens of a text: its words, each in lower case.
pub open spec fn tokens_of(text: Seq<char>) -> Seq<Seq<char>> {
    unicode_words(text).map_values(|word: Seq<char>| lowercased(word))
}

/// The estimate made of a number of words and a number of bytes: the mean of
/// the words and a quarter of the bytes, both divisions rounding down.
pub open spec fn estimate(words: nat, bytes: nat) -> nat {
    (words + bytes / 4) / 2
}

/// The estimated number of tokens in a text.
pub open spec fn token_estimate(text: Seq<char>) -> nat {
    estimate(unicode_words(text).len(), encode_utf8(text).len())
}

/// Turns every word into lower case.
pub fn lowercase_all(words: &Vec<String>) -> (tokens: Vec<String>)
    ensures
        tokens.deep_view() == words.deep_view().map_values(|word: Seq<char>| lowercased(word)),
{
    let mut tokens: Vec<String> = Vec::new();
    let mut i: usize = 0;
    while i < words.len()
        invariant
            i <= words@.len(),
            tokens@.len() == i,
            forall|j: int| 0 <= j < i ==> (#[trigger] tokens@[j])@ == lowercased(words@[j]@),
        decreases words@.len() - i,
    {
        tokens.push(words[i].as_str().to_lowercase());
        i += 1;
    }
    assert(tokens.deep_view() =~= words.deep_view().map_values(
        |word: Seq<char>| lowercased(word),
    ));
    tokens
}

/// Splits a text into lower-case tokens.
pub fn tokenize(text: &str) -> (tokens: Vec<String>)
    ensures
        tokens.deep_view() == tokens_of(text@),
{
    let words = words_of(text);
    lowercase_all(&words)
}

/// The mean of a number of words and a quarter of a number of bytes.
pub fn estimate_tokens(words: usize, bytes: usize) -> (n: usize)
    ensures
        n == estimate(words as nat, bytes as nat),
{
    let quarter: usize = bytes / 4;
    words / 2 + quarter / 2 + (words % 2 + quarter % 2) / 2
}

/// Estimates how many tokens a text will take.
pub fn count_tokens(text: &str) -> (n: usize)
    ensures
        n == token_estimate(text@),
{
    let words = words_of(text);
    estimate_tokens(words.len(), text.as_bytes().len())
}

} // verus!
