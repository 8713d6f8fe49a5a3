//! Error kinds surfaced by the codec.

use vstd::prelude::*;

verus! {

/// Everything that can go wrong while encoding or decoding a container.
///
/// Configuration errors (`ChunkTooWide`, `ExtensionTooLong`) are raised
/// before any output bytes are produced; `Truncated` reports a container
/// that ends before its header or coefficient stream is complete.
#[derive(Clone, Copy, Debug, PartialEq, Eq, Structural)]
pub enum CbfError {
    /// The chunk width exceeds the fixed register width of 4 bytes, so a
    /// chunk's value would not fit in one sample.
    ChunkTooWide,
    /// A chunk width of zero cannot partition a buffer.
    InvalidChunkWidth,
    /// The extension string is longer than 255 bytes and does not fit the
    /// one-byte length prefix.
    ExtensionTooLong,
    /// Metadata was asked for before any extension was recorded.
    MissingExtension,
    /// The input buffer is shorter than the chunk layout requires.
    InputTooShort,
    /// The container ends in the middle of its header or of a coefficient.
    Truncated,
    /// A header field does not fit this platform's `usize`.
    ValueTooLarge,
}

} // verus!
