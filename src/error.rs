//! The library's failure modes.

use vstd::prelude::*;

verus! {

/// Why an operation failed. Indices are 0-based positions in the input the
/// operation was given (source, cached slice, slice or export region).
#[derive(Debug, Clone, Copy, PartialEq, Eq, Structural)]
pub enum ProcessError {
    /// No composite is loaded.
    NotLoaded,
    /// No source raster was given.
    EmptySource,
    /// The source at `index` could not be decoded.
    Decode { index: usize },
    /// The source at `index` is not as wide as the first source.
    WidthMismatch { index: usize },
    /// The stacked height does not fit in 32 bits.
    HeightOverflow,
    /// There is no slice at `index`.
    InvalidIndex { index: usize },
    /// The region at `index` could not be encoded.
    Encode { index: usize },
    /// The composite is too large in some dimension to be handed over whole.
    TooLargeForTransfer,
    /// The composite is split into several slices and must be fetched by slice.
    Sliced,
}

} // verus!
