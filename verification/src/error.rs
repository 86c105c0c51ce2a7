use vstd::prelude::*;

verus! {

/// The failure modes of selector decoding and digest construction.
///
/// Every failure is terminal: no partial digest is ever produced.
#[derive(Clone, Copy, Debug, PartialEq, Eq, Structural)]
pub enum TxfsError {
    /// An expected byte (selection byte, continuation byte, index byte) is
    /// missing from the stream.
    MalformedSelector,
    /// A selection refers past the end of the item list, or a negative
    /// relative offset reaches before the first input.
    OutOfRange,
    /// Individually selected indices are not strictly increasing.
    OrderingViolation,
    /// Unconsumed bytes remain after a complete decode.
    NonCanonical,
    /// An internal consistency breach: a state that a decoder following the
    /// format should never need, surfaced as a typed failure instead of a
    /// panic. A leading count of zero, or a resolved index that equals the
    /// item count and is then dereferenced, ends here.
    UnreachableState,
}

} // verus!
