use vstd::prelude::*;

verus! {

/// Why an image could not be decoded.
#[derive(Debug, Clone, Copy, PartialEq, Eq, Structural)]
pub enum ParseError {
    /// The magic signature occurs nowhere in the buffer.
    InvalidHeader,
    /// The compression configuration word is not the supported one.
    UnsupportedVersion,
    /// A table, record, string or slice does not fit where it must.
    Corrupt,
    /// A chunk does not decompress, or not to its declared size.
    CorruptChunk,
}

} // verus!
