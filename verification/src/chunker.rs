//! The chunker: segments are gathered into a buffer until the next one would
//! not fit; the buffer is then closed as a chunk, and the next buffer starts
//! with the last characters of the closed one, so that neighbouring chunks
//! overlap. A segment is never cut.

use vstd::prelude::*;
use crate::laws::lemma_empty_text_has_no_chunks;
use crate::params::{
    parameter_verdict, valid_parameters, validate_parameters, ChunkingParameters, InvalidParameter,
};
use crate::segment::{bounds_within, segment_bounds, segments, spans};
use crate::text::{chars_of, string_of};

verus! {

/// What stands between two parts of a chunk: a full stop and a space.
pub open spec fn separator() -> Seq<char> {
    seq!['.', ' ']
}

/// The last `overlap` characters of a chunk, or all of it where it is shorter.
pub open spec fn overlap_tail(chunk: Seq<char>, overlap: nat) -> Seq<char> {
    if chunk.len() > overlap {
        chunk.skip(chunk.len() - overlap)
    } else {
        chunk
    }
}

/// A segment closes the buffer when the buffer holds something and the two,
/// with a separator between them, would be longer than `max_size`.
pub open spec fn closes(buffer: Seq<char>, segment: Seq<char>, max_size: nat) -> bool {
    buffer.len() > 0 && buffer.len() + segment.len() + 2 > max_size
}

/// The buffer with a segment added to it: behind a separator where the buffer
/// holds something, alone where it is empty.
pub open spec fn joined(buffer: Seq<char>, segment: Seq<char>) -> Seq<char> {
    if buffer.len() > 0 {
        buffer + separator() + segment
    } else {
        segment
    }
}

/// How far a chunking has come: the chunks closed so far, and the buffer.
pub struct Progress {
    pub emitted: Seq<Seq<char>>,
    pub buffer: Seq<char>,
}

impl Progress {
    /// Nothing closed, nothing gathered.
    pub open spec fn start() -> Progress {
        Progress { emitted: Seq::empty(), buffer: Seq::empty() }
    }

    /// The buffer is closed as a chunk, and the next buffer starts with its
    /// overlap. An empty buffer is left as it is.
    pub open spec fn close(self, overlap: nat) -> Progress {
        if self.buffer.len() > 0 {
            Progress {
                emitted: self.emitted.push(self.buffer),
                buffer: overlap_tail(self.buffer, overlap),
            }
        } else {
            self
        }
    }

    /// A segment is added to the buffer.
    pub open spec fn append(self, segment: Seq<char>) -> Progress {
        Progress { emitted: self.emitted, buffer: joined(self.buffer, segment) }
    }

    /// The progress after one more segment: the buffer is closed first where
    /// the segment asks for it.
    pub open spec fn advance(self, segment: Seq<char>, max_size: nat, overlap: nat) -> Progress {
        if closes(self.buffer, segment, max_size) {
            self.close(overlap).append(segment)
        } else {
            self.append(segment)
        }
    }

    /// The chunks when no segment is left: the closed ones, and the buffer as
    /// the last chunk where it holds something.
    pub open spec fn chunks(self) -> Seq<Seq<char>> {
        if self.buffer.len() > 0 {
            self.emitted.push(self.buffer)
        } else {
            self.emitted
        }
    }
}

/// The progress after a list of segments, taken in order.
pub open spec fn progress_after(segs: Seq<Seq<char>>, max_size: nat, overlap: nat) -> Progress
    decreases segs.len(),
{
    if segs.len() == 0 {
        Progress::start()
    } else {
        progress_after(segs.drop_last(), max_size, overlap).advance(segs.last(), max_size, overlap)
    }
}

/// The chunks of a text.
pub open spec fn chunks_of(text: Seq<char>, max_size: nat, overlap: nat) -> Seq<Seq<char>> {
    progress_after(segments(text), max_size, overlap).chunks()
}

/// Whether `a + b + 2 > limit`, computed without overflow.
fn exceeds(a: usize, b: usize, limit: usize) -> (r: bool)
    ensures
        r == (a + b + 2 > limit),
{
    if a >= limit || b >= limit {
        true
    } else {
        a >= limit - b - 1
    }
}

/// A chunking in progress.
pub struct Chunker {
    parameters: ChunkingParameters,
    buffer: Vec<char>,
    emitted: Vec<String>,
}

impl Chunker {
    /// The parameters that the chunker was made with.
    pub closed spec fn parameters(&self) -> ChunkingParameters {
        self.parameters
    }

    /// The maximum chunk size that the chunker was made with.
    pub open spec fn max_size(&self) -> nat {
        self.parameters().max_size() as nat
    }

    /// The overlap that the chunker was made with.
    pub open spec fn overlap(&self) -> nat {
        self.parameters().overlap() as nat
    }

    /// The chunks closed so far and the buffer.
    pub closed spec fn progress(&self) -> Progress {
        Progress { emitted: self.emitted.deep_view(), buffer: self.buffer@ }
    }

    /// A chunker at its start.
    pub fn new(parameters: ChunkingParameters) -> (c: Chunker)
        ensures
            c.parameters() == parameters,
            c.progress() == Progress::start(),
    {
        let c = Chunker { parameters, buffer: Vec::new(), emitted: Vec::new() };
        assert(c.emitted.deep_view() =~= Seq::<Seq<char>>::empty());
        c
    }

    /// The buffer as a string.
    pub fn pending(&self) -> (buffer: String)
        ensures
            buffer@ == self.progress().buffer,
    {
        string_of(self.buffer.as_slice())
    }

    /// The chunks closed so far.
    pub fn closed(&self) -> (emitted: &Vec<String>)
        ensures
            emitted.deep_view() == self.progress().emitted,
    {
        &self.emitted
    }

    /// Tells whether the segment would close the buffer.
    pub fn closes_for(&self, segment: &[char]) -> (b: bool)
        ensures
            b == closes(self.progress().buffer, segment@, self.max_size()),
    {
        let len = self.buffer.len();
        len > 0 && exceeds(len, segment.len(), self.parameters.max_size())
    }

    /// Closes the buffer as a chunk and starts the next buffer with the
    /// overlap of that chunk. An empty buffer is left as it is.
    pub fn close(&mut self)
        ensures
            final(self).parameters() == old(self).parameters(),
            final(self).progress() == old(self).progress().close(old(self).overlap()),
    {
        let len = self.buffer.len();
        let overlap = self.parameters.overlap();
        if len > 0 {
            let chunk = string_of(self.buffer.as_slice());
            let ghost before = self.emitted.deep_view();
            self.emitted.push(chunk);
            assert(self.emitted.deep_view() =~= before.push(chunk@));
            if len > overlap {
                let tail = self.buffer.split_off(len - overlap);
                self.buffer = tail;
            }
        }
    }

    /// Adds a segment to the buffer, behind a separator where the buffer
    /// holds something.
    pub fn append(&mut self, segment: &[char])
        ensures
            final(self).parameters() == old(self).parameters(),
            final(self).progress() == old(self).progress().append(segment@),
    {
        let ghost seed = self.buffer@;
        if self.buffer.len() > 0 {
            self.buffer.push('.');
            self.buffer.push(' ');
            assert(self.buffer@ =~= seed + separator());
        }
        let ghost head = self.buffer@;
        let ghost closed = self.emitted;
        let mut i: usize = 0;
        while i < segment.len()
            invariant
                i <= segment@.len(),
                self.buffer@ == head + segment@.take(i as int),
                self.parameters == old(self).parameters,
                self.emitted == closed,
            decreases segment@.len() - i,
        {
            self.buffer.push(segment[i]);
            assert(segment@.take(i + 1) =~= segment@.take(i as int).push(segment@[i as int]));
            assert(self.buffer@ =~= head + segment@.take(i + 1));
            i += 1;
        }
        proof {
            assert(segment@.take(segment@.len() as int) =~= segment@);
            assert(self.buffer@ =~= joined(seed, segment@));
        }
    }

    /// Takes the next segment, given by its characters.
    pub fn push_chars(&mut self, segment: &[char])
        ensures
            final(self).parameters() == old(self).parameters(),
            final(self).progress() == old(self).progress().advance(
                segment@,
                old(self).max_size(),
                old(self).overlap(),
            ),
    {
        if self.closes_for(segment) {
            self.close();
        }
        self.append(segment);
    }

    /// Takes the next segment.
    pub fn push_segment(&mut self, segment: &str)
        ensures
            final(self).parameters() == old(self).parameters(),
            final(self).progress() == old(self).progress().advance(
                segment@,
                old(self).max_size(),
                old(self).overlap(),
            ),
    {
        let chars = chars_of(segment);
        self.push_chars(chars.as_slice());
    }

    /// Ends the chunking and hands out the chunks.
    pub fn finish(self) -> (chunks: Vec<String>)
        ensures
            chunks.deep_view() == self.progress().chunks(),
    {
        let mut chunks = self.emitted;
        if self.buffer.len() > 0 {
            let last = string_of(self.buffer.as_slice());
            let ghost before = chunks.deep_view();
            chunks.push(last);
            assert(chunks.deep_view() =~= before.push(last@));
        }
        chunks
    }
}

/// Splits a text into overlapping chunks. A chunk is longer than `chunk_size`
/// characters only where it is one segment of that length by itself, or where
/// the overlap that it begins with and the first segment behind it are
/// together longer: a segment is never cut, and the overlap is never
/// shortened.
pub fn chunk_text_internal(text: &str, chunk_size: usize, overlap: usize) -> (chunks: Vec<String>)
    requires
        valid_parameters(chunk_size, overlap),
    ensures
        chunks.deep_view() == chunks_of(text@, chunk_size as nat, overlap as nat),
        text@.len() == 0 ==> chunks@.len() == 0,
{
    proof {
        if text@.len() == 0 {
            assert(text@ =~= Seq::<char>::empty());
            lemma_empty_text_has_no_chunks(chunk_size as nat, overlap as nat);
        }
    }
    let chars = chars_of(text);
    let bounds = segment_bounds(chars.as_slice());
    let mut chunker = Chunker::new(ChunkingParameters::known_valid(chunk_size, overlap));
    let ghost segs = segments(text@);
    let mut i: usize = 0;
    while i < bounds.len()
        invariant
            i <= bounds@.len(),
            chars@ == text@,
            segs == segments(text@),
            bounds_within(bounds@, chars@.len()),
            spans(chars@, bounds@) == segs,
            chunker.max_size() == chunk_size,
            chunker.overlap() == overlap,
            chunker.progress() == progress_after(
                segs.take(i as int),
                chunk_size as nat,
                overlap as nat,
            ),
        decreases bounds@.len() - i,
    {
        let (a, b) = bounds[i];
        proof {
            assert(spans(chars@, bounds@)[i as int] == chars@.subrange(a as int, b as int));
            assert(segs.take(i + 1).drop_last() =~= segs.take(i as int));
            assert(segs.take(i + 1).last() == segs[i as int]);
        }
        chunker.push_chars(&chars.as_slice()[a..b]);
        i += 1;
    }
    proof {
        assert(segs.take(bounds@.len() as int) =~= segs);
    }
    chunker.finish()
}

/// Splits a text into chunks, or reports why the parameters are unusable.
pub fn chunk_text(text: &str, chunk_size: usize, overlap: usize) -> (r: Result<
    Vec<String>,
    InvalidParameter,
>)
    ensures
        r is Ok <==> valid_parameters(chunk_size, overlap),
        r is Err ==> Err::<(), InvalidParameter>(r->Err_0) == parameter_verdict(
            chunk_size,
            overlap,
        ),
        r is Ok ==> r->Ok_0.deep_view() == chunks_of(text@, chunk_size as nat, overlap as nat),
        r is Ok && text@.len() == 0 ==> r->Ok_0@.len() == 0,
{
    match validate_parameters(chunk_size, overlap) {
        Ok(()) => Ok(chunk_text_internal(text, chunk_size, overlap)),
        Err(e) => Err(e),
    }
}

} // verus!
