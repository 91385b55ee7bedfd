//! Cutting a text into sentence-like segments: the text is split at every full
//! stop and every line feed, each piece is trimmed, and empty pieces are left
//! out.

use vstd::prelude::*;
use crate::text::{
    chars_of, is_whitespace, leading_whitespace, lemma_trim, string_of, trim, trim_bounds,
};

verus! {

/// The characters at which a text is split.
pub open spec fn is_delimiter(c: char) -> bool {
    c == '.' || c == '\n'
}

/// Tells whether a character splits the text.
pub fn is_delimiter_char(c: char) -> (b: bool)
    ensures
        b == is_delimiter(c),
{
    c == '.' || c == '\n'
}

/// The position of the first delimiter in `s`, or the length of `s` where
/// there is none.
pub open spec fn first_delimiter(s: Seq<char>) -> nat
    decreases s.len(),
{
    if s.len() == 0 || is_delimiter(s[0]) {
        0
    } else {
        1 + first_delimiter(s.drop_first())
    }
}

/// The pieces between the delimiters of `s`, empty ones included: one more
/// piece than there are delimiters.
pub open spec fn pieces(s: Seq<char>) -> Seq<Seq<char>>
    decreases s.len(),
{
    let k = first_delimiter(s) as int;
    if k >= s.len() {
        seq![s]
    } else {
        seq![s.take(k)] + pieces(s.skip(k + 1))
    }
}

/// Whether a piece is kept as a segment.
pub open spec fn is_kept(piece: Seq<char>) -> bool {
    piece.len() > 0
}

/// The segments of a text: its pieces, trimmed, without the empty ones.
pub open spec fn segments(s: Seq<char>) -> Seq<Seq<char>> {
    pieces(s).map_values(|p: Seq<char>| trim(p)).filter(|t: Seq<char>| is_kept(t))
}

/// The texts that a list of index pairs cuts out of `text`.
pub open spec fn spans(text: Seq<char>, bounds: Seq<(usize, usize)>) -> Seq<Seq<char>> {
    Seq::new(bounds.len(), |i: int| text.subrange(bounds[i].0 as int, bounds[i].1 as int))
}

/// Every pair is a non-empty range inside a text of length `len`.
pub open spec fn bounds_within(bounds: Seq<(usize, usize)>, len: nat) -> bool {
    forall|i: int| 0 <= i < bounds.len() ==> (#[trigger] bounds[i]).0 < bounds[i].1 <= len
}

/// A position `k` before which no delimiter stands, and which is the end of
/// `s` or holds a delimiter, is the first delimiter of `s`.
pub proof fn lemma_first_delimiter_is(s: Seq<char>, k: int)
    requires
        0 <= k <= s.len(),
        forall|i: int| 0 <= i < k ==> !is_delimiter(#[trigger] s[i]),
        k < s.len() ==> is_delimiter(s[k]),
    ensures
        first_delimiter(s) == k,
    decreases s.len(),
{
    if k > 0 {
        let rest = s.drop_first();
        assert forall|i: int| 0 <= i < k - 1 implies !is_delimiter(#[trigger] rest[i]) by {
            assert(rest[i] == s[i + 1]);
        }
        if k < s.len() {
            assert(rest[k - 1] == s[k]);
        }
        lemma_first_delimiter_is(rest, k - 1);
    }
}

/// No delimiter stands before the first delimiter.
pub proof fn lemma_before_first_delimiter(s: Seq<char>)
    ensures
        first_delimiter(s) <= s.len(),
        forall|i: int| 0 <= i < first_delimiter(s) ==> !is_delimiter(#[trigger] s[i]),
    decreases s.len(),
{
    if !(s.len() == 0 || is_delimiter(s[0])) {
        let rest = s.drop_first();
        lemma_before_first_delimiter(rest);
        assert forall|i: int| 0 <= i < first_delimiter(s) implies !is_delimiter(#[trigger] s[i]) by {
            if i > 0 {
                assert(s[i] == rest[i - 1]);
            }
        }
    }
}

/// What makes a text a segment: it holds something, holds no delimiter, and
/// neither begins nor ends with whitespace.
pub open spec fn is_segment(s: Seq<char>) -> bool {
    &&& s.len() > 0
    &&& forall|i: int| 0 <= i < s.len() ==> !is_delimiter(#[trigger] s[i])
    &&& !is_whitespace(s[0])
    &&& !is_whitespace(s.last())
}

/// What a single piece contributes to the segments.
pub open spec fn segment_of_piece(piece: Seq<char>) -> Seq<Seq<char>> {
    if is_kept(trim(piece)) {
        seq![trim(piece)]
    } else {
        Seq::empty()
    }
}

/// The segments of a text are what its first piece contributes, followed by
/// the segments of what stands behind the first delimiter.
pub proof fn lemma_segments_unfold(s: Seq<char>)
    ensures
        first_delimiter(s) >= s.len() ==> segments(s) == segment_of_piece(s),
        first_delimiter(s) < s.len() ==> segments(s) == segment_of_piece(
            s.take(first_delimiter(s) as int),
        ) + segments(s.skip(first_delimiter(s) as int + 1)),
{
    let k = first_delimiter(s) as int;
    let f = |p: Seq<char>| trim(p);
    let keep = |t: Seq<char>| is_kept(t);
    let first = if k >= s.len() {
        s
    } else {
        s.take(k)
    };
    let one = seq![first];
    assert(one.map_values(f) =~= seq![trim(first)]);
    assert(seq![trim(first)].filter(keep) == segment_of_piece(first)) by {
        reveal_with_fuel(Seq::filter, 2);
        assert(seq![trim(first)].drop_last() =~= Seq::<Seq<char>>::empty());
        assert(Seq::<Seq<char>>::empty().push(trim(first)) =~= seq![trim(first)]);
    }
    if k < s.len() {
        let rest = pieces(s.skip(k + 1));
        assert((one + rest).map_values(f) =~= one.map_values(f) + rest.map_values(f));
        Seq::filter_distributes_over_add(one.map_values(f), rest.map_values(f), keep);
    }
}

/// Every segment of a text holds something, holds no delimiter, and neither
/// begins nor ends with whitespace.
pub proof fn lemma_segments_are_segments(text: Seq<char>)
    ensures
        forall|j: int| 0 <= j < segments(text).len() ==> is_segment(#[trigger] segments(text)[j]),
    decreases text.len(),
{
    lemma_segments_unfold(text);
    lemma_before_first_delimiter(text);
    let k = first_delimiter(text) as int;
    let first = if k >= text.len() {
        text
    } else {
        text.take(k)
    };
    assert(text.take(text.len() as int) =~= text);
    lemma_trim(first);
    let a = leading_whitespace(first) as int;
    if is_kept(trim(first)) {
        assert forall|i: int| 0 <= i < trim(first).len() implies !is_delimiter(
            #[trigger] trim(first)[i],
        ) by {
            assert(trim(first)[i] == first[a + i]);
            assert(first[a + i] == text[a + i]);
        }
        assert(is_segment(trim(first)));
    }
    if k < text.len() {
        lemma_segments_are_segments(text.skip(k + 1));
    }
}

/// Finds the segments of a text, each as a pair of indices into it.
pub fn segment_bounds(chars: &[char]) -> (bounds: Vec<(usize, usize)>)
    ensures
        bounds_within(bounds@, chars@.len()),
        spans(chars@, bounds@) == segments(chars@),
{
    let n = chars.len();
    let mut bounds: Vec<(usize, usize)> = Vec::new();
    let mut pos: usize = 0;
    let mut done = false;
    proof {
        assert(chars@.skip(0) =~= chars@);
        assert(spans(chars@, bounds@) =~= Seq::<Seq<char>>::empty());
        assert(Seq::<Seq<char>>::empty() + segments(chars@) =~= segments(chars@));
    }
    while !done
        invariant
            n == chars@.len(),
            pos <= n,
            bounds_within(bounds@, chars@.len()),
            !done ==> segments(chars@) == spans(chars@, bounds@) + segments(
                chars@.skip(pos as int),
            ),
            done ==> segments(chars@) == spans(chars@, bounds@),
        decreases n - pos + (if done { 0int } else { 1int }),
    {
        let ghost rest = chars@.skip(pos as int);
        let ghost before = spans(chars@, bounds@);
        let mut k: usize = pos;
        while k < n && !is_delimiter_char(chars[k])
            invariant
                n == chars@.len(),
                pos <= k <= n,
                forall|i: int| pos <= i < k ==> !is_delimiter(#[trigger] chars@[i]),
            decreases n - k,
        {
            k += 1;
        }
        proof {
            assert forall|i: int| 0 <= i < k - pos implies !is_delimiter(#[trigger] rest[i]) by {
                assert(rest[i] == chars@[pos + i]);
            }
            lemma_first_delimiter_is(rest, k - pos);
            lemma_segments_unfold(rest);
            assert(rest.take(k - pos) =~= chars@.subrange(pos as int, k as int));
            if k >= n {
                assert(rest =~= chars@.subrange(pos as int, k as int));
            } else {
                assert(rest.skip(k - pos + 1) =~= chars@.skip(k + 1));
            }
        }
        let (a, b) = trim_bounds(chars, pos, k);
        if a < b {
            bounds.push((a, b));
            proof {
                assert(spans(chars@, bounds@) =~= before + seq![
                    chars@.subrange(a as int, b as int),
                ]);
            }
        } else {
            proof {
                assert(chars@.subrange(a as int, b as int).len() == 0);
                assert(spans(chars@, bounds@) =~= before + Seq::<Seq<char>>::empty());
            }
        }
        proof {
            let piece = chars@.subrange(pos as int, k as int);
            assert(spans(chars@, bounds@) == before + segment_of_piece(piece));
            if k < n {
                let tail = segments(chars@.skip(k + 1));
                assert(before + (segment_of_piece(piece) + tail) =~= (before + segment_of_piece(
                    piece,
                )) + tail);
            }
        }
        if k >= n {
            done = true;
        } else {
            pos = k + 1;
        }
    }
    bounds
}

/// The texts that the index pairs cut out of `chars`, each as a string of
/// its own.
pub(crate) fn strings_of_spans(chars: &[char], bounds: &Vec<(usize, usize)>) -> (r: Vec<String>)
    requires
        bounds_within(bounds@, chars@.len()),
    ensures
        r.deep_view() == spans(chars@, bounds@),
{
    let mut r: Vec<String> = Vec::new();
    let mut i: usize = 0;
    while i < bounds.len()
        invariant
            i <= bounds@.len(),
            bounds_within(bounds@, chars@.len()),
            r@.len() == i,
            forall|j: int| 0 <= j < i ==> (#[trigger] r@[j])@ == spans(chars@, bounds@)[j],
        decreases bounds@.len() - i,
    {
        let (a, b) = bounds[i];
        r.push(string_of(&chars[a..b]));
        i += 1;
    }
    assert(r.deep_view() =~= spans(chars@, bounds@));
    r
}

/// The segments of a text, each as a string of its own.
pub fn split_segments(text: &str) -> (r: Vec<String>)
    ensures
        r.deep_view() == segments(text@),
{
    let chars = chars_of(text);
    let bounds = segment_bounds(chars.as_slice());
    strings_of_spans(chars.as_slice(), &bounds)
}

} // verus!
