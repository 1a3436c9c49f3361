use vstd::prelude::*;

verus! {

/// Every way a decode can fail. All of them are fatal for the file as a whole.
#[derive(Debug, Clone, Copy, PartialEq, Eq, Structural)]
pub enum DecodeError {
    /// Fewer bytes are left than a read requires.
    Truncated,
    /// A seek target lies outside the buffer.
    OutOfRange,
    /// The container does not start with its 8-byte magic.
    BadMagic,
    /// The inner header magic is not the expected one.
    BadInnerMagic,
    /// The inner footer magic is not the expected one.
    BadFooterMagic,
    /// A section does not start with its 2-byte tag.
    BadSectionMagic,
    /// The string pool's opening or closing tag is wrong.
    BadPoolMagic,
    /// A chunk did not decompress to exactly its declared size.
    DecompressionMismatch,
    /// A chunk's compressed data is longer than `MAX_COMPRESSED_CHUNK`.
    ChunkTooLarge,
    /// A reserved field does not hold its fixed value.
    UnexpectedValue,
    /// String bytes are not valid UTF-8.
    InvalidUtf8,
    /// A string pool lookup is past the end of the pool.
    IndexOutOfBounds,
}

} // verus!
