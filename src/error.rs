use vstd::prelude::*;

verus! {

/// Every way in which an operation of this library can fail.
#[derive(Debug, Clone, Copy, PartialEq, Eq, Structural)]
pub enum Error {
    /// A chunk type text is not four ASCII letters. `position` is the first
    /// index at which the text departs from that shape; `byte` is the byte
    /// found there, or `None` where the text ended early.
    InvalidFormat { position: usize, byte: Option<u8> },
    /// The buffer holds fewer bytes than the chunk's framing declares.
    Truncated,
    /// The checksum stored in a chunk differs from the one computed over its
    /// type and data.
    ChecksumMismatch { stored: u32, computed: u32 },
    /// The buffer does not start with the PNG signature.
    BadSignature,
    /// No chunk of the requested type is present.
    NotFound,
    /// The chunk data is not valid UTF-8.
    NotText,
}

} // verus!
