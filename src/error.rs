use vstd::prelude::*;

verus! {

/// Every failure the codec reports; none of them is recovered locally.
#[derive(Debug, Clone, Copy, PartialEq, Eq, Structural)]
pub enum Error {
    /// A read or a write would pass the end of the usable window.
    OutOfBounds,
    /// Fewer than two bytes are left between the cursor and the reverse tail.
    OutOfBoundsReverse,
    /// The re-encoded reverse tail does not fit in front of the forward data.
    OutOfBoundsReverseCompact,
    /// A `Vlu16N` whose value exceeds `u16::MAX`.
    MalformedVlu16N,
    /// A `Vlu32N` whose value exceeds `u32::MAX`.
    MalformedVlu32N,
    /// A byte-aligned primitive was used off a byte boundary, or a bit-level
    /// section ended off a nibble boundary.
    UnalignedAccess,
    /// A value wrote another number of nibbles than its exact size estimate.
    InvalidSizedEstimate,
    /// A vector's element count does not fit in the space reserved for it.
    VectorCorruption,
}

} // verus!
