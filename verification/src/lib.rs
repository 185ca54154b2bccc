//! Content-defined chunking with the FastCDC (2020) boundary detector.
//!
//! The heart of the crate is [`FastCDC`], a resumable chunk-boundary detector:
//! it can be fed a stream of bytes as arbitrarily sized buffers and finds
//! exactly the same boundaries as it would on the whole stream at once.
//! [`StreamBuffer`] adds the fixed-capacity fill/cut/drain bookkeeping that
//! the blocking [`StreamCDC`] and asynchronous [`AsyncStreamCDC`] wrappers
//! share; the wrappers' actual I/O loops live outside the verified library.

use vstd::prelude::*;

pub mod detector;
pub mod error;
pub mod gear;
pub mod stream;

pub use detector::{Chunk, FastCDC, Normalization};
pub use error::Error;
pub use gear::{gear_value, DEFAULT_GEAR_SEED};
pub use stream::{AsyncStreamCDC, StreamBuffer, StreamCDC};

verus! {

/// Smallest permitted `min_size`.
pub const MINIMUM_MIN: u32 = 64;

/// Largest permitted `min_size`.
pub const MINIMUM_MAX: u32 = 67_108_864;

/// Smallest permitted `avg_size`.
pub const AVERAGE_MIN: u32 = 256;

/// Largest permitted `avg_size`.
pub const AVERAGE_MAX: u32 = 268_435_456;

/// Smallest permitted `max_size`.
pub const MAXIMUM_MIN: u32 = 1_024;

/// Largest permitted `max_size`.
pub const MAXIMUM_MAX: u32 = 1_073_741_824;

/// Do the three size parameters satisfy both the absolute ranges and the
/// ordering `min_size <= avg_size <= max_size`?
pub open spec fn valid_config(min_size: u32, avg_size: u32, max_size: u32) -> bool {
    &&& MINIMUM_MIN <= min_size <= MINIMUM_MAX
    &&& AVERAGE_MIN <= avg_size <= AVERAGE_MAX
    &&& MAXIMUM_MIN <= max_size <= MAXIMUM_MAX
    &&& min_size <= avg_size
    &&& avg_size <= max_size
}

} // verus!
