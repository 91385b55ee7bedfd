//! A plain chunker that packs whole words: a chunk is closed when the next
//! word, with a space before it, would make it longer than the chunk size in
//! bytes. Chunks do not overlap.

use vstd::prelude::*;
use vstd::string::StringExecFns;
use vstd::utf8::encode_utf8;
use crate::chunker::Progress;
use crate::segment::{bounds_within, spans, strings_of_spans};
use crate::text::{
    chars_of, is_whitespace, is_whitespace_char, leading_whitespace, lemma_leading_whitespace_is,
};

verus! {

/// How many characters other than whitespace stand at the start of `s`.
pub open spec fn word_length(s: Seq<char>) -> nat
    decreases s.len(),
{
    if s.len() > 0 && !is_whitespace(s[0]) {
        1 + word_length(s.drop_first())
    } else {
        0
    }
}

/// The words of a text: its longest runs of characters other than whitespace.
/// A word begins where the leading whitespace ends, unless the text ends
/// there; it is never empty and never leaves the text.
pub open spec fn words(s: Seq<char>) -> Seq<Seq<char>>
    decreases s.len(),
{
    let a = leading_whitespace(s) as int;
    let k = word_length(s.skip(a)) as int;
    if a < s.len() && 0 < k <= s.len() - a {
        seq![s.subrange(a, a + k)] + words(s.skip(a + k))
    } else {
        Seq::empty()
    }
}

/// A run of `k` characters other than whitespace that is followed by the end
/// of `s` or by whitespace is the word at the start of `s`.
pub proof fn lemma_word_length_is(s: Seq<char>, k: int)
    requires
        0 <= k <= s.len(),
        forall|i: int| 0 <= i < k ==> !is_whitespace(#[trigger] s[i]),
        k < s.len() ==> is_whitespace(s[k]),
    ensures
        word_length(s) == k,
    decreases s.len(),
{
    if k > 0 {
        let rest = s.drop_first();
        assert forall|i: int| 0 <= i < k - 1 implies !is_whitespace(#[trigger] rest[i]) by {
            assert(rest[i] == s[i + 1]);
        }
        if k < s.len() {
            assert(rest[k - 1] == s[k]);
        }
        lemma_word_length_is(rest, k - 1);
    }
}

/// The length of a text in bytes, as UTF-8.
pub open spec fn byte_length(s: Seq<char>) -> nat {
    encode_utf8(s).len()
}

/// A word closes the chunk in the making when the two, with a space between
/// them, would take more than `chunk_size` bytes. The space is counted even
/// where the chunk is empty.
pub open spec fn overflows(current: Seq<char>, word: Seq<char>, chunk_size: nat) -> bool {
    byte_length(current) + byte_length(word) + 1 > chunk_size
}

/// The chunk in the making with a word added: behind a space where the chunk
/// holds something.
pub open spec fn with_word(current: Seq<char>, word: Seq<char>) -> Seq<char> {
    if current.len() > 0 {
        current.push(' ') + word
    } else {
        word
    }
}

/// The packing after one more word. A chunk is closed as it stands, even
/// where it is empty.
pub open spec fn pack(before: Progress, word: Seq<char>, chunk_size: nat) -> Progress {
    if overflows(before.buffer, word, chunk_size) {
        Progress { emitted: before.emitted.push(before.buffer), buffer: word }
    } else {
        Progress { emitted: before.emitted, buffer: with_word(before.buffer, word) }
    }
}

/// The packing after a list of words, taken in order.
pub open spec fn packed_after(list: Seq<Seq<char>>, chunk_size: nat) -> Progress
    decreases list.len(),
{
    if list.len() == 0 {
        Progress::start()
    } else {
        pack(packed_after(list.drop_last(), chunk_size), list.last(), chunk_size)
    }
}

/// The word chunks of a text.
pub open spec fn word_chunks_of(text: Seq<char>, chunk_size: nat) -> Seq<Seq<char>> {
    packed_after(words(text), chunk_size).chunks()
}

/// Finds the words of a text, each as a pair of indices into it.
pub fn word_bounds(chars: &[char]) -> (bounds: Vec<(usize, usize)>)
    ensures
        bounds_within(bounds@, chars@.len()),
        spans(chars@, bounds@) == words(chars@),
{
    let n = chars.len();
    let mut bounds: Vec<(usize, usize)> = Vec::new();
    let mut pos: usize = 0;
    let mut done = false;
    proof {
        assert(chars@.skip(0) =~= chars@);
        assert(spans(chars@, bounds@) =~= Seq::<Seq<char>>::empty());
        assert(Seq::<Seq<char>>::empty() + words(chars@) =~= words(chars@));
    }
    while !done
        invariant
            n == chars@.len(),
            pos <= n,
            bounds_within(bounds@, chars@.len()),
            !done ==> words(chars@) == spans(chars@, bounds@) + words(chars@.skip(pos as int)),
            done ==> words(chars@) == spans(chars@, bounds@),
        decreases n - pos + (if done { 0int } else { 1int }),
    {
        let ghost rest = chars@.skip(pos as int);
        let ghost before = spans(chars@, bounds@);
        let mut a: usize = pos;
        while a < n && is_whitespace_char(chars[a])
            invariant
                n == chars@.len(),
                pos <= a <= n,
                forall|i: int| pos <= i < a ==> is_whitespace(#[trigger] chars@[i]),
            decreases n - a,
        {
            a += 1;
        }
        proof {
            assert forall|i: int| 0 <= i < a - pos implies is_whitespace(#[trigger] rest[i]) by {
                assert(rest[i] == chars@[pos + i]);
            }
            lemma_leading_whitespace_is(rest, a - pos);
        }
        if a >= n {
            proof {
                assert(words(rest) =~= Seq::<Seq<char>>::empty());
                assert(before + Seq::<Seq<char>>::empty() =~= before);
            }
            done = true;
        } else {
            let mut b: usize = a + 1;
            while b < n && !is_whitespace_char(chars[b])
                invariant
                    n == chars@.len(),
                    a < b <= n,
                    forall|i: int| a <= i < b ==> !is_whitespace(#[trigger] chars@[i]),
                decreases n - b,
            {
                b += 1;
            }
            bounds.push((a, b));
            proof {
                let tail = rest.skip(a - pos);
                assert(tail =~= chars@.skip(a as int));
                assert forall|i: int| 0 <= i < b - a implies !is_whitespace(#[trigger] tail[i]) by {
                    assert(tail[i] == chars@[a + i]);
                }
                lemma_word_length_is(tail, b - a);
                let word = chars@.subrange(a as int, b as int);
                assert(rest.subrange(a - pos, b - pos) =~= word);
                assert(rest.skip(b - pos) =~= chars@.skip(b as int));
                assert(words(rest) == seq![word] + words(chars@.skip(b as int)));
                assert(spans(chars@, bounds@) =~= before + seq![word]);
                assert(before + (seq![word] + words(chars@.skip(b as int))) =~= (before
                    + seq![word]) + words(chars@.skip(b as int)));
            }
            pos = b;
        }
    }
    bounds
}

/// The words of a text, each as a string of its own.
pub fn split_words(text: &str) -> (list: Vec<String>)
    ensures
        list.deep_view() == words(text@),
{
    let chars = chars_of(text);
    let bounds = word_bounds(chars.as_slice());
    strings_of_spans(chars.as_slice(), &bounds)
}

/// Whether `a + b + 1 > limit`, computed without overflow.
fn exceeds(a: usize, b: usize, limit: usize) -> (r: bool)
    ensures
        r == (a + b + 1 > limit),
{
    if a > limit || b > limit {
        true
    } else {
        a >= limit - b
    }
}

/// Packs words into chunks.
pub fn pack_words(list: &Vec<String>, chunk_size: usize) -> (chunks: Vec<String>)
    ensures
        chunks.deep_view() == packed_after(list.deep_view(), chunk_size as nat).chunks(),
{
    let mut chunks: Vec<String> = Vec::new();
    let mut current = String::new();
    let mut i: usize = 0;
    assert(chunks.deep_view() =~= Seq::<Seq<char>>::empty());
    assert(list.deep_view().take(0) =~= Seq::<Seq<char>>::empty());
    while i < list.len()
        invariant
            i <= list@.len(),
            packed_after(list.deep_view().take(i as int), chunk_size as nat) == (Progress {
                emitted: chunks.deep_view(),
                buffer: current@,
            }),
        decreases list@.len() - i,
    {
        let word = list[i].as_str();
        let ghost before = Progress { emitted: chunks.deep_view(), buffer: current@ };
        proof {
            let upto = list.deep_view().take(i + 1);
            assert(upto.drop_last() =~= list.deep_view().take(i as int));
            assert(upto.last() == word@);
        }
        if exceeds(current.as_str().as_bytes().len(), word.as_bytes().len(), chunk_size) {
            chunks.push(current);
            current = String::new();
            assert(chunks.deep_view() =~= before.emitted.push(before.buffer));
        } else if !current.as_str().is_empty() {
            current.push(' ');
        }
        current.append(word);
        proof {
            let after = pack(before, word@, chunk_size as nat);
            assert(current@ =~= after.buffer);
            assert(chunks.deep_view() =~= after.emitted);
        }
        i += 1;
    }
    assert(list.deep_view().take(list@.len() as int) =~= list.deep_view());
    if !current.as_str().is_empty() {
        let ghost closed = chunks.deep_view();
        chunks.push(current);
        assert(chunks.deep_view() =~= closed.push(current@));
    }
    chunks
}

/// Splits a text into chunks of whole words.
pub fn chunk_text(text: String, chunk_size: usize) -> (chunks: Vec<String>)
    ensures
        chunks.deep_view() == word_chunks_of(text@, chunk_size as nat),
{
    let list = split_words(text.as_str());
    pack_words(&list, chunk_size)
}

} // verus!
