use vstd::prelude::*;

verus! {

/// Every failure the container model can report, as a closed enumeration so
/// that callers can branch on the kind.
#[derive(Clone, Copy, Debug, PartialEq, Eq, Structural)]
pub enum PngError {
    /// Bytes or text that are not exactly 4 ASCII letters.
    MalformedTypeCode,
    /// Fewer bytes available than a declared length requires.
    TruncatedInput,
    /// A recomputed CRC-32 differs from the stored value.
    ChecksumMismatch,
    /// The input does not begin with the fixed 8-byte signature.
    SignatureMismatch,
    /// The first record is not the header or the last is not the trailer.
    StructuralInvariantViolation,
    /// No record matches the requested type code.
    NotFound,
    /// Chunk data requested as text is not valid UTF-8.
    EncodingError,
}

} // verus!
