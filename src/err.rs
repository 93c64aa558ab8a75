use vstd::prelude::*;

verus! {

/// Why a stream could not be opened.
#[derive(Debug, Clone, Copy, PartialEq, Eq, Structural)]
pub enum OpenError {
    /// The stream ended inside the header.
    Io,
    /// The header names a version that no decoder reads.
    UnsupportedVersion { version: u16, subversion: u16 },
}

/// Why one brush could not be decoded; the brushes after it still can be.
#[derive(Debug, PartialEq, Eq)]
pub enum BrushError {
    /// The record runs past the end of the stream, or its fields past the
    /// record's declared length.
    Truncated,
    /// The record's declared length disagrees with the bytes its fields take.
    LengthMismatch,
    /// The compressed rows end early or a run overshoots a row.
    BadRows,
    /// The record names a compression scheme other than raw (0) or
    /// run-length (1).
    UnknownCompression(u8),
    /// A descriptor holds a type tag that is not known.
    UnknownType(u32),
    /// A descriptor lacks a field that the brush needs, or holds it with
    /// another type.
    MissingField(u32),
    /// A descriptor nests deeper than the reader follows.
    TooDeep,
}

} // verus!
