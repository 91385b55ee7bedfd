//! What holds of the chunks of every text.

use vstd::prelude::*;
use crate::chunker::{chunks_of, closes, joined, overlap_tail, progress_after, separator, Progress};
use crate::segment::{is_segment, lemma_segments_are_segments, lemma_segments_unfold, segments};

verus! {

/// An empty text has no segments.
pub proof fn lemma_empty_text_has_no_segments()
    ensures
        segments(Seq::<char>::empty()) == Seq::<Seq<char>>::empty(),
{
    lemma_segments_unfold(Seq::<char>::empty());
}

/// An empty text has no chunks, whatever the parameters.
pub proof fn lemma_empty_text_has_no_chunks(max_size: nat, overlap: nat)
    ensures
        chunks_of(Seq::<char>::empty(), max_size, overlap) == Seq::<Seq<char>>::empty(),
{
    lemma_empty_text_has_no_segments();
}

/// All of `segs` hold something.
pub open spec fn all_kept(segs: Seq<Seq<char>>) -> bool {
    forall|j: int| 0 <= j < segs.len() ==> (#[trigger] segs[j]).len() > 0
}

/// Where every text of a list holds something, so does every text of the list
/// without its last.
pub proof fn lemma_all_kept_without_last(list: Seq<Seq<char>>)
    requires
        all_kept(list),
        list.len() > 0,
    ensures
        all_kept(list.drop_last()),
{
    assert forall|j: int| 0 <= j < list.drop_last().len() implies (
    #[trigger] list.drop_last()[j]).len() > 0 by {
        assert(list.drop_last()[j] == list[j]);
    }
}

/// As long as no segment is empty, no closed chunk is empty, and the buffer
/// holds something as soon as one segment was taken.
pub proof fn lemma_progress_is_kept(segs: Seq<Seq<char>>, max_size: nat, overlap: nat)
    requires
        all_kept(segs),
    ensures
        all_kept(progress_after(segs, max_size, overlap).emitted),
        segs.len() > 0 ==> progress_after(segs, max_size, overlap).buffer.len() > 0,
        segs.len() == 0 ==> progress_after(segs, max_size, overlap) == Progress::start(),
    decreases segs.len(),
{
    if segs.len() > 0 {
        let before = progress_after(segs.drop_last(), max_size, overlap);
        lemma_all_kept_without_last(segs);
        lemma_progress_is_kept(segs.drop_last(), max_size, overlap);
        assert(segs.last().len() > 0);
    }
}

/// A text has chunks exactly when it has segments, and none of its chunks is
/// empty.
pub proof fn lemma_chunks_hold_something(text: Seq<char>, max_size: nat, overlap: nat)
    ensures
        chunks_of(text, max_size, overlap).len() > 0 <==> segments(text).len() > 0,
        all_kept(chunks_of(text, max_size, overlap)),
{
    lemma_segments_are_segments(text);
    lemma_progress_is_kept(segments(text), max_size, overlap);
}

/// The progress after the first `k + 1` segments is one step from the
/// progress after the first `k`.
pub proof fn lemma_progress_step(segs: Seq<Seq<char>>, k: int, max_size: nat, overlap: nat)
    requires
        0 <= k < segs.len(),
    ensures
        progress_after(segs.take(k + 1), max_size, overlap) == progress_after(
            segs.take(k),
            max_size,
            overlap,
        ).advance(segs[k], max_size, overlap),
{
    assert(segs.take(k + 1).drop_last() =~= segs.take(k));
    assert(segs.take(k + 1).last() == segs[k]);
}

/// What was closed stays closed: the chunks closed after the first `j`
/// segments are the first of those closed after all of them.
pub proof fn lemma_emitted_is_kept(segs: Seq<Seq<char>>, j: int, max_size: nat, overlap: nat)
    requires
        0 <= j <= segs.len(),
    ensures
        progress_after(segs.take(j), max_size, overlap).emitted.is_prefix_of(
            progress_after(segs, max_size, overlap).emitted,
        ),
    decreases segs.len(),
{
    let all = progress_after(segs, max_size, overlap).emitted;
    if j == segs.len() {
        assert(segs.take(j) =~= segs);
        assert(all =~= all.subrange(0, all.len() as int));
    } else {
        let sub = segs.drop_last();
        lemma_emitted_is_kept(sub, j, max_size, overlap);
        assert(sub.take(j) =~= segs.take(j));
        let early = progress_after(segs.take(j), max_size, overlap).emitted;
        let before = progress_after(sub, max_size, overlap).emitted;
        assert(early =~= before.subrange(0, early.len() as int));
        assert(before =~= all.subrange(0, before.len() as int));
        assert(early =~= all.subrange(0, early.len() as int));
    }
}

/// A segment that closes the buffer starts a chunk behind the overlap of the
/// closed one. This says that the chunk so started is longer than `max_size`.
pub open spec fn seed_overflows(
    buffer: Seq<char>,
    segment: Seq<char>,
    max_size: nat,
    overlap: nat,
) -> bool {
    &&& closes(buffer, segment, max_size)
    &&& overlap > 0
    &&& overlap_tail(buffer, overlap).len() + 2 + segment.len() > max_size
}

/// No segment starts a chunk that its overlap makes longer than `max_size`.
pub open spec fn seeds_fit(segs: Seq<Seq<char>>, max_size: nat, overlap: nat) -> bool {
    forall|k: int|
        0 <= k < segs.len() ==> !seed_overflows(
            (#[trigger] progress_after(segs.take(k), max_size, overlap)).buffer,
            segs[k],
            max_size,
            overlap,
        )
}

/// A chunk keeps the size bound when it is at most `max_size` long, or is one
/// segment by itself.
pub open spec fn within_bound(chunk: Seq<char>, segs: Seq<Seq<char>>, max_size: nat) -> bool {
    chunk.len() <= max_size || segs.contains(chunk)
}

/// Where every segment leaves room for the overlap and a separator, no seed
/// overflows.
pub proof fn lemma_short_segments_fit(segs: Seq<Seq<char>>, max_size: nat, overlap: nat)
    requires
        forall|j: int| 0 <= j < segs.len() ==> overlap + 2 + (#[trigger] segs[j]).len() <= max_size,
    ensures
        seeds_fit(segs, max_size, overlap),
{
}

/// Without overlap no seed overflows.
pub proof fn lemma_no_overlap_fits(segs: Seq<Seq<char>>, max_size: nat)
    ensures
        seeds_fit(segs, max_size, 0),
{
}

/// As long as the seeds fit, the closed chunks and the buffer keep the size
/// bound.
pub proof fn lemma_progress_within_bound(segs: Seq<Seq<char>>, max_size: nat, overlap: nat)
    requires
        seeds_fit(segs, max_size, overlap),
    ensures
        forall|i: int|
            0 <= i < progress_after(segs, max_size, overlap).emitted.len() ==> within_bound(
                #[trigger] progress_after(segs, max_size, overlap).emitted[i],
                segs,
                max_size,
            ),
        within_bound(progress_after(segs, max_size, overlap).buffer, segs, max_size),
    decreases segs.len(),
{
    if segs.len() > 0 {
        let sub = segs.drop_last();
        let last = segs.last();
        let before = progress_after(sub, max_size, overlap);
        let after = progress_after(segs, max_size, overlap);
        assert(seeds_fit(sub, max_size, overlap)) by {
            assert forall|k: int| 0 <= k < sub.len() implies !seed_overflows(
                (#[trigger] progress_after(sub.take(k), max_size, overlap)).buffer,
                sub[k],
                max_size,
                overlap,
            ) by {
                assert(sub.take(k) =~= segs.take(k));
                assert(sub[k] == segs[k]);
            }
        }
        lemma_progress_within_bound(sub, max_size, overlap);
        assert(segs.take(segs.len() - 1) =~= sub);
        assert(!seed_overflows(before.buffer, last, max_size, overlap));
        assert forall|c: Seq<char>| within_bound(c, sub, max_size) implies within_bound(
            c,
            segs,
            max_size,
        ) by {
            if c.len() > max_size {
                let i = choose|i: int| 0 <= i < sub.len() && sub[i] == c;
                assert(segs[i] == c);
            }
        }
        assert(segs[segs.len() - 1] == last);
        assert(within_bound(last, segs, max_size));
        assert(within_bound(after.buffer, segs, max_size)) by {
            if closes(before.buffer, last, max_size) {
                let seed = overlap_tail(before.buffer, overlap);
                if overlap == 0 {
                    assert(seed.len() == 0);
                }
            }
        }
        assert forall|i: int| 0 <= i < after.emitted.len() implies within_bound(
            #[trigger] after.emitted[i],
            segs,
            max_size,
        ) by {
            if i < before.emitted.len() {
                assert(after.emitted[i] == before.emitted[i]);
            } else {
                assert(after.emitted[i] == before.buffer);
            }
        }
    }
}

/// As long as the seeds fit, every chunk of a text is at most `max_size`
/// characters long, or is one segment by itself.
pub proof fn lemma_chunks_within_bound(text: Seq<char>, max_size: nat, overlap: nat)
    requires
        seeds_fit(segments(text), max_size, overlap),
    ensures
        forall|i: int|
            0 <= i < chunks_of(text, max_size, overlap).len() ==> within_bound(
                #[trigger] chunks_of(text, max_size, overlap)[i],
                segments(text),
                max_size,
            ),
{
    lemma_progress_within_bound(segments(text), max_size, overlap);
}

/// A seed that overflows ends up as a chunk that breaks the size bound: it is
/// longer than `max_size`, and it holds a separator, which no segment does.
pub proof fn lemma_overflowing_seed_is_emitted(
    segs: Seq<Seq<char>>,
    k: int,
    max_size: nat,
    overlap: nat,
)
    requires
        forall|j: int| 0 <= j < segs.len() ==> is_segment(#[trigger] segs[j]),
        0 <= k < segs.len(),
        seed_overflows(
            progress_after(segs.take(k), max_size, overlap).buffer,
            segs[k],
            max_size,
            overlap,
        ),
    ensures
        exists|i: int|
            0 <= i < progress_after(segs, max_size, overlap).chunks().len() && !within_bound(
                #[trigger] progress_after(segs, max_size, overlap).chunks()[i],
                segs,
                max_size,
            ),
{
    let before = progress_after(segs.take(k), max_size, overlap);
    let here = progress_after(segs.take(k + 1), max_size, overlap);
    let end = progress_after(segs, max_size, overlap);
    lemma_progress_step(segs, k, max_size, overlap);
    let seed = overlap_tail(before.buffer, overlap);
    let chunk = here.buffer;
    assert(seed.len() > 0);
    assert(chunk == seed + separator() + segs[k]);
    assert(chunk.len() > max_size);
    assert(chunk[seed.len() as int] == '.');
    assert(!segs.contains(chunk)) by {
        if segs.contains(chunk) {
            let j = choose|j: int| 0 <= j < segs.len() && segs[j] == chunk;
            assert(is_segment(segs[j]));
            assert(segs[j][seed.len() as int] == '.');
        }
    }
    let m = here.emitted.len() as int;
    if k + 1 == segs.len() {
        assert(segs.take(k + 1) =~= segs);
        assert(end.chunks()[m] == chunk);
    } else {
        let next = progress_after(segs.take(k + 2), max_size, overlap);
        lemma_progress_step(segs, k + 1, max_size, overlap);
        assert(closes(chunk, segs[k + 1], max_size));
        assert(next.emitted[m] == chunk);
        lemma_emitted_is_kept(segs, k + 2, max_size, overlap);
        assert(end.emitted[m] == end.emitted.subrange(0, next.emitted.len() as int)[m]);
        assert(end.chunks()[m] == chunk);
    }
    assert(!within_bound(end.chunks()[m], segs, max_size));
}

/// Where a seed overflows, some chunk of the text breaks the size bound: the
/// bound holds of the texts whose seeds fit, and of no others.
pub proof fn lemma_chunks_break_bound(text: Seq<char>, max_size: nat, overlap: nat)
    requires
        !seeds_fit(segments(text), max_size, overlap),
    ensures
        exists|i: int|
            0 <= i < chunks_of(text, max_size, overlap).len() && !within_bound(
                #[trigger] chunks_of(text, max_size, overlap)[i],
                segments(text),
                max_size,
            ),
{
    let segs = segments(text);
    lemma_segments_are_segments(text);
    let k = choose|k: int|
        0 <= k < segs.len() && seed_overflows(
            (#[trigger] progress_after(segs.take(k), max_size, overlap)).buffer,
            segs[k],
            max_size,
            overlap,
        );
    lemma_overflowing_seed_is_emitted(segs, k, max_size, overlap);
    let end = progress_after(segs, max_size, overlap);
    let i = choose|i: int|
        0 <= i < end.chunks().len() && !within_bound(#[trigger] end.chunks()[i], segs, max_size);
    assert(chunks_of(text, max_size, overlap)[i] == end.chunks()[i]);
}

/// Each chunk but the first begins with the overlap of the chunk before it.
pub open spec fn chunks_overlap(chunks: Seq<Seq<char>>, overlap: nat) -> bool {
    forall|i: int|
        0 < i < chunks.len() ==> overlap_tail(chunks[i - 1], overlap).is_prefix_of(
            #[trigger] chunks[i],
        )
}

/// As long as no segment is empty, the closed chunks overlap, and the buffer
/// begins with the overlap of the chunk closed last.
pub proof fn lemma_progress_overlaps(segs: Seq<Seq<char>>, max_size: nat, overlap: nat)
    requires
        all_kept(segs),
    ensures
        chunks_overlap(progress_after(segs, max_size, overlap).emitted, overlap),
        progress_after(segs, max_size, overlap).emitted.len() > 0 ==> overlap_tail(
            progress_after(segs, max_size, overlap).emitted.last(),
            overlap,
        ).is_prefix_of(progress_after(segs, max_size, overlap).buffer),
    decreases segs.len(),
{
    if segs.len() > 0 {
        let sub = segs.drop_last();
        let last = segs.last();
        let before = progress_after(sub, max_size, overlap);
        let after = progress_after(segs, max_size, overlap);
        lemma_all_kept_without_last(segs);
        lemma_progress_overlaps(sub, max_size, overlap);
        lemma_progress_is_kept(sub, max_size, overlap);
        if closes(before.buffer, last, max_size) {
            let seed = overlap_tail(before.buffer, overlap);
            assert(seed =~= after.buffer.subrange(0, seed.len() as int));
            assert(after.emitted.last() == before.buffer);
            assert forall|i: int| 0 < i < after.emitted.len() implies overlap_tail(
                after.emitted[i - 1],
                overlap,
            ).is_prefix_of(#[trigger] after.emitted[i]) by {
                if i < before.emitted.len() {
                    assert(after.emitted[i] == before.emitted[i]);
                    assert(after.emitted[i - 1] == before.emitted[i - 1]);
                } else {
                    assert(after.emitted[i] == before.buffer);
                    assert(after.emitted[i - 1] == before.emitted.last());
                }
            }
        } else {
            if before.emitted.len() > 0 {
                let seed = overlap_tail(before.emitted.last(), overlap);
                assert(before.buffer.len() > 0);
                assert(seed =~= before.buffer.subrange(0, seed.len() as int));
                assert(seed =~= after.buffer.subrange(0, seed.len() as int));
            }
        }
    }
}

/// Each chunk of a text but the first begins with the last `overlap`
/// characters of the chunk before it, or with all of that chunk where it is
/// shorter.
pub proof fn lemma_chunks_overlap(text: Seq<char>, max_size: nat, overlap: nat)
    ensures
        chunks_overlap(chunks_of(text, max_size, overlap), overlap),
{
    let segs = segments(text);
    lemma_segments_are_segments(text);
    lemma_progress_overlaps(segs, max_size, overlap);
    let end = progress_after(segs, max_size, overlap);
    let chunks = end.chunks();
    assert forall|i: int| 0 < i < chunks.len() implies overlap_tail(
        chunks[i - 1],
        overlap,
    ).is_prefix_of(#[trigger] chunks[i]) by {
        if i < end.emitted.len() {
            assert(chunks[i] == end.emitted[i]);
            assert(chunks[i - 1] == end.emitted[i - 1]);
        } else {
            assert(chunks[i] == end.buffer);
            assert(chunks[i - 1] == end.emitted.last());
        }
    }
}

/// The segments written one after another, with a separator between
/// neighbours.
pub open spec fn joined_all(segs: Seq<Seq<char>>) -> Seq<char>
    decreases segs.len(),
{
    if segs.len() == 0 {
        Seq::empty()
    } else {
        joined(joined_all(segs.drop_last()), segs.last())
    }
}

/// What a chunk adds to the chunk before it: the chunk without the overlap
/// that it begins with and the separator behind that overlap.
pub open spec fn fresh_part(previous: Seq<char>, chunk: Seq<char>, overlap: nat) -> Seq<char> {
    let seed = overlap_tail(previous, overlap);
    if seed.len() > 0 {
        chunk.skip(seed.len() as int + 2)
    } else {
        chunk
    }
}

/// The text that a list of chunks stands for: the first chunk, and what each
/// later chunk adds, with a separator between neighbours.
pub open spec fn rebuilt(chunks: Seq<Seq<char>>, overlap: nat) -> Seq<char>
    decreases chunks.len(),
{
    if chunks.len() == 0 {
        Seq::empty()
    } else if chunks.len() == 1 {
        chunks[0]
    } else {
        joined(
            rebuilt(chunks.drop_last(), overlap),
            fresh_part(chunks[chunks.len() - 2], chunks.last(), overlap),
        )
    }
}

/// Chunks that hold something stand for a text that holds something.
pub proof fn lemma_rebuilt_holds_something(chunks: Seq<Seq<char>>, overlap: nat)
    requires
        all_kept(chunks),
        chunks.len() > 0,
    ensures
        rebuilt(chunks, overlap).len() > 0,
    decreases chunks.len(),
{
    if chunks.len() > 1 {
        let sub = chunks.drop_last();
        lemma_all_kept_without_last(chunks);
        lemma_rebuilt_holds_something(sub, overlap);
    }
}

/// As long as no segment is empty, the closed chunks and the buffer stand for
/// the segments taken so far; and behind a closed chunk the buffer begins
/// with the overlap of that chunk and a separator, and goes on after them.
pub proof fn lemma_progress_rebuilds(segs: Seq<Seq<char>>, max_size: nat, overlap: nat)
    requires
        all_kept(segs),
    ensures
        rebuilt(progress_after(segs, max_size, overlap).chunks(), overlap) == joined_all(segs),
        segs.len() > 0 ==> joined_all(segs).len() > 0,
        ({
            let p = progress_after(segs, max_size, overlap);
            let seed = overlap_tail(p.emitted.last(), overlap);
            p.emitted.len() > 0 && seed.len() > 0 ==> p.buffer.len() > seed.len() + 2
                && p.buffer.subrange(0, seed.len() as int + 2) == seed + separator()
        }),
    decreases segs.len(),
{
    if segs.len() > 0 {
        let sub = segs.drop_last();
        let last = segs.last();
        let before = progress_after(sub, max_size, overlap);
        let after = progress_after(segs, max_size, overlap);
        lemma_all_kept_without_last(segs);
        lemma_progress_rebuilds(sub, max_size, overlap);
        lemma_progress_is_kept(sub, max_size, overlap);
        lemma_progress_is_kept(segs, max_size, overlap);
        assert(last.len() > 0);
        let text = joined_all(sub);
        let closed = before.emitted;
        let buffer = before.buffer;
        let chunks = after.chunks();
        assert(chunks == after.emitted.push(after.buffer));
        if sub.len() == 0 {
            assert(after.buffer == last);
            assert(chunks =~= seq![last]);
        } else if closes(buffer, last, max_size) {
            let seed = overlap_tail(buffer, overlap);
            assert(before.chunks() == closed.push(buffer));
            assert(chunks.drop_last() =~= closed.push(buffer));
            assert(chunks[chunks.len() - 2] == buffer);
            assert(chunks.last() == after.buffer);
            assert(fresh_part(buffer, after.buffer, overlap) =~= last);
            assert(after.emitted.last() == buffer);
            if seed.len() > 0 {
                assert(after.buffer.subrange(0, seed.len() as int + 2) =~= seed + separator());
            }
        } else {
            assert(after.buffer == buffer + separator() + last);
            assert(before.chunks() == closed.push(buffer));
            if closed.len() == 0 {
                assert(closed.push(buffer) =~= seq![buffer]);
                assert(chunks =~= seq![after.buffer]);
            } else {
                let seed = overlap_tail(closed.last(), overlap);
                let old_fresh = fresh_part(closed.last(), buffer, overlap);
                let new_fresh = fresh_part(closed.last(), after.buffer, overlap);
                assert(closed.push(buffer).drop_last() =~= closed);
                assert(closed.push(buffer)[closed.len() - 1] == closed.last());
                assert(chunks.drop_last() =~= closed);
                assert(chunks[chunks.len() - 2] == closed.last());
                assert(new_fresh =~= old_fresh + separator() + last);
                lemma_rebuilt_holds_something(closed, overlap);
                let head = rebuilt(closed, overlap);
                assert(text == head + separator() + old_fresh);
                assert(rebuilt(chunks, overlap) == head + separator() + new_fresh);
                assert(head + separator() + (old_fresh + separator() + last) =~= (head
                    + separator() + old_fresh) + separator() + last);
                if seed.len() > 0 {
                    assert(after.buffer.subrange(0, seed.len() as int + 2) =~= buffer.subrange(
                        0,
                        seed.len() as int + 2,
                    ));
                }
            }
        }
    }
}

/// The chunks of a text stand for its segments: the first chunk, followed by
/// what each later chunk holds behind the overlap it begins with, is the
/// segments of the text with a separator between neighbours.
pub proof fn lemma_chunks_rebuild_segments(text: Seq<char>, max_size: nat, overlap: nat)
    ensures
        rebuilt(chunks_of(text, max_size, overlap), overlap) == joined_all(segments(text)),
{
    lemma_segments_are_segments(text);
    lemma_progress_rebuilds(segments(text), max_size, overlap);
}

} // verus!
