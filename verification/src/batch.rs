//! Chunking many texts at once, on a pool of worker threads. Every text is
//! chunked by itself; the results come back in the order of the texts, each
//! with the position of its text.

use vstd::prelude::*;
use rayon::iter::{IndexedParallelIterator, IntoParallelRefIterator, ParallelIterator};
use crate::chunker::{chunk_text_internal, chunks_of};
use crate::params::{parameter_verdict, valid_parameters, validate_parameters, InvalidParameter};

verus! {

/// What a batch gives for its texts: one entry for each text, in their order,
/// holding the position of the text and its chunks.
pub open spec fn is_batch_of(
    results: Seq<(usize, Vec<String>)>,
    texts: Seq<String>,
    chunk_size: nat,
    overlap: nat,
) -> bool {
    &&& results.len() == texts.len()
    &&& forall|i: int|
        0 <= i < results.len() ==> (#[trigger] results[i]).0 == i && results[i].1.deep_view()
            == chunks_of(texts[i]@, chunk_size, overlap)
}

/// Calls rayon's `par_iter`, `enumerate`, `map` and `collect` on the texts,
/// with `chunk_text_internal` as the work done on each. The contract claims of
/// rayon that `enumerate` pairs each text with its position, that `map` hands
/// each pair to the closure once, and that `collect` into a vector keeps the
/// order of the texts, however the work was spread over the threads.
#[verifier::external_body]
fn chunk_each(texts: &Vec<String>, chunk_size: usize, overlap: usize) -> (results: Vec<
    (usize, Vec<String>),
>)
    requires
        valid_parameters(chunk_size, overlap),
    ensures
        is_batch_of(results@, texts@, chunk_size as nat, overlap as nat),
{
    texts.par_iter().enumerate().map(
        |(index, text)| (index, chunk_text_internal(text.as_str(), chunk_size, overlap)),
    ).collect()
}

/// Chunks every text of a batch. The parameters are looked at once, before any
/// work is done: with unusable parameters nothing is chunked.
pub fn parallel_chunk_texts(texts: Vec<String>, chunk_size: usize, overlap: usize) -> (r: Result<
    Vec<(usize, Vec<String>)>,
    InvalidParameter,
>)
    ensures
        r is Ok <==> valid_parameters(chunk_size, overlap),
        r is Err ==> Err::<(), InvalidParameter>(r->Err_0) == parameter_verdict(
            chunk_size,
            overlap,
        ),
        r is Ok ==> is_batch_of(r->Ok_0@, texts@, chunk_size as nat, overlap as nat),
{
    match validate_parameters(chunk_size, overlap) {
        Ok(()) => Ok(chunk_each(&texts, chunk_size, overlap)),
        Err(e) => Err(e),
    }
}

/// A batch has as many results as texts, and the result at each position
/// names that position.
pub proof fn lemma_batch_keeps_positions(
    results: Seq<(usize, Vec<String>)>,
    texts: Seq<String>,
    chunk_size: nat,
    overlap: nat,
)
    requires
        is_batch_of(results, texts, chunk_size, overlap),
    ensures
        results.len() == texts.len(),
        forall|i: int| 0 <= i < texts.len() ==> (#[trigger] results[i]).0 == i,
{
}

} // verus!
