//! The error taxonomy surfaced to callers.

use vstd::prelude::*;

verus! {

/// Declares `std::io::Error` so that [`Error`] can carry a wrapped I/O
/// failure from a stream wrapper's byte source. Nothing is assumed about
/// values of the type: it is only carried through.
#[verifier::external_type_specification]
#[verifier::external_body]
pub struct ExIoError(std::io::Error);

/// Everything that can go wrong while configuring or driving a chunker.
///
/// Configuration errors name the offending parameter and the bound it
/// crossed; they are raised at construction time and never later.
/// `Empty` is the end-of-stream sentinel that terminates a chunk sequence
/// cleanly; it is a normal control-flow outcome, not a failure.
pub enum Error {
    /// `min_size` was below its absolute lower bound.
    MinSizeTooSmall,
    /// `min_size` was above its absolute upper bound.
    MinSizeTooLarge,
    /// `avg_size` was below its absolute lower bound.
    AvgSizeTooSmall,
    /// `avg_size` was above its absolute upper bound.
    AvgSizeTooLarge,
    /// `max_size` was below its absolute lower bound.
    MaxSizeTooSmall,
    /// `max_size` was above its absolute upper bound.
    MaxSizeTooLarge,
    /// The ordering `min_size <= avg_size` was violated.
    MinSizeExceedsAvgSize,
    /// The ordering `avg_size <= max_size` was violated.
    AvgSizeExceedsMaxSize,
    /// End of stream: no bytes remain and no further chunk will come.
    Empty,
    /// An I/O failure reported by the underlying byte source.
    Io(std::io::Error),
    /// A drain asked for more bytes than the buffer holds.
    DrainOversize { requested: usize, available: usize },
}

impl Error {
    /// Is this the end-of-stream sentinel?
    pub fn is_empty_sentinel(&self) -> (r: bool)
        ensures
            r == (self is Empty),
    {
        match self {
            Error::Empty => true,
            _ => false,
        }
    }
}

} // verus!
