use vstd::prelude::*;

verus! {

/// The error taxonomy shared by every decoder in this crate.
///
/// Decoding either fully succeeds with a structured value or fails with one
/// specific kind; no decoder panics and none substitutes defaults for
/// malformed mandatory fields.
#[derive(Clone, Copy, Debug, PartialEq, Eq, Structural)]
pub enum DecodeError {
    /// A read would run past the end of the input buffer.
    Eof,
    /// A magic number, version field or scalar type did not match.
    MalformedHeader,
    /// A required table tag is absent from the font directory.
    MissingTable,
    /// Bytes consumed disagree with a declared table or subtable length.
    InconsistentLength,
    /// A mandatory terminator value is missing.
    InvalidSentinel,
    /// A recognized but unimplemented format or variant.
    UnsupportedFormat,
    /// A derived count would underflow or overflow.
    ArithmeticRange,
}

/// Which font table was being decoded when an error surfaced.
#[derive(Clone, Copy, Debug, PartialEq, Eq, Structural)]
pub enum TableId {
    Directory,
    Head,
    HHea,
    MaxP,
    HMtx,
    CMap,
    Glyf,
}

/// A decoding failure together with the table it surfaced in.
#[derive(Clone, Copy, Debug, PartialEq, Eq, Structural)]
pub struct FontError {
    pub table: TableId,
    pub kind: DecodeError,
}

} // verus!
