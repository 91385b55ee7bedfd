//! Chunking parameters and the one error that chunking can report.

use vstd::prelude::*;

verus! {

/// Why a pair of chunking parameters was turned down.
#[derive(Clone, Copy, Debug, PartialEq, Eq, Structural)]
pub enum InvalidParameter {
    /// The maximum chunk size is zero.
    ZeroMaxSize,
    /// The overlap is not smaller than the maximum chunk size.
    OverlapTooLarge,
}

impl InvalidParameter {
    /// The reason in words.
    pub open spec fn spec_message(self) -> Seq<char> {
        match self {
            InvalidParameter::ZeroMaxSize => "max_size must be greater than 0"@,
            InvalidParameter::OverlapTooLarge => "overlap must be less than max_size"@,
        }
    }

    /// The reason in words.
    pub fn message(self) -> (m: &'static str)
        ensures
            m@ == self.spec_message(),
    {
        match self {
            InvalidParameter::ZeroMaxSize => "max_size must be greater than 0",
            InvalidParameter::OverlapTooLarge => "overlap must be less than max_size",
        }
    }
}

/// A chunk size and an overlap are usable together when the size is positive
/// and the overlap is strictly smaller than it.
pub open spec fn valid_parameters(max_size: usize, overlap: usize) -> bool {
    0 < max_size && overlap < max_size
}

/// The verdict on a pair of parameters: the size is looked at first, so a zero
/// size is reported as such whatever the overlap is.
pub open spec fn parameter_verdict(max_size: usize, overlap: usize) -> Result<
    (),
    InvalidParameter,
> {
    if max_size == 0 {
        Err(InvalidParameter::ZeroMaxSize)
    } else if overlap >= max_size {
        Err(InvalidParameter::OverlapTooLarge)
    } else {
        Ok(())
    }
}

/// Accepts exactly the valid parameter pairs.
pub fn validate_parameters(max_size: usize, overlap: usize) -> (r: Result<(), InvalidParameter>)
    ensures
        r == parameter_verdict(max_size, overlap),
        r is Ok <==> valid_parameters(max_size, overlap),
{
    if max_size == 0 {
        Err(InvalidParameter::ZeroMaxSize)
    } else if overlap >= max_size {
        Err(InvalidParameter::OverlapTooLarge)
    } else {
        Ok(())
    }
}

/// The maximum chunk size used where none is given.
pub const DEFAULT_MAX_SIZE: usize = 1000;

/// The overlap used where none is given.
pub const DEFAULT_OVERLAP: usize = 200;

/// A chunk size and an overlap that were found usable together.
#[derive(Clone, Copy, Debug)]
pub struct ChunkingParameters {
    max_size: usize,
    overlap: usize,
}

impl ChunkingParameters {
    /// The maximum chunk size, in characters.
    pub closed spec fn spec_max_size(&self) -> usize {
        self.max_size
    }

    /// The number of characters that a chunk repeats of the one before it.
    pub closed spec fn spec_overlap(&self) -> usize {
        self.overlap
    }

    #[verifier::type_invariant]
    spec fn is_valid(self) -> bool {
        valid_parameters(self.max_size, self.overlap)
    }

    /// The parameters, for a pair that is known to be valid.
    pub(crate) fn known_valid(max_size: usize, overlap: usize) -> (p: ChunkingParameters)
        requires
            valid_parameters(max_size, overlap),
        ensures
            p.spec_max_size() == max_size,
            p.spec_overlap() == overlap,
    {
        ChunkingParameters { max_size, overlap }
    }

    /// The parameters for a valid pair, the error for any other.
    pub fn new(max_size: usize, overlap: usize) -> (r: Result<ChunkingParameters, InvalidParameter>)
        ensures
            r is Ok <==> valid_parameters(max_size, overlap),
            r is Err ==> Err::<(), InvalidParameter>(r->Err_0) == parameter_verdict(
                max_size,
                overlap,
            ),
            r is Ok ==> r->Ok_0.spec_max_size() == max_size && r->Ok_0.spec_overlap() == overlap,
    {
        match validate_parameters(max_size, overlap) {
            Ok(()) => Ok(ChunkingParameters::known_valid(max_size, overlap)),
            Err(e) => Err(e),
        }
    }

    /// The maximum chunk size: never zero.
    #[verifier::when_used_as_spec(spec_max_size)]
    pub fn max_size(&self) -> (m: usize)
        ensures
            m == self.spec_max_size(),
            m > 0,
    {
        proof {
            use_type_invariant(self);
        }
        self.max_size
    }

    /// The overlap: always smaller than the maximum chunk size.
    #[verifier::when_used_as_spec(spec_overlap)]
    pub fn overlap(&self) -> (o: usize)
        ensures
            o == self.spec_overlap(),
            o < self.spec_max_size(),
    {
        proof {
            use_type_invariant(self);
        }
        self.overlap
    }
}

impl Default for ChunkingParameters {
    /// The default chunk size with the default overlap.
    fn default() -> (p: ChunkingParameters)
        ensures
            p.spec_max_size() == DEFAULT_MAX_SIZE,
            p.spec_overlap() == DEFAULT_OVERLAP,
    {
        ChunkingParameters::known_valid(DEFAULT_MAX_SIZE, DEFAULT_OVERLAP)
    }
}

} // verus!
