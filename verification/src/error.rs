//! Error types for the format layer.

use vstd::prelude::*;

verus! {

/// Declares `std::io::Error` so it can ride inside [`Error::Io`].
#[verifier::external_type_specification]
#[verifier::external_body]
pub struct ExIoError(std::io::Error);

/// Everything that can go wrong reading a character file.
#[derive(Debug)]
pub enum Error {
    /// Underlying I/O failure (opening / reading the file).
    Io(std::io::Error),
    /// A read ran past the end of the buffer.
    UnexpectedEof {
        /// What the reader was trying to read.
        context: &'static str,
        /// Byte offset at which the read was attempted.
        offset: usize,
        /// Number of bytes needed.
        needed: usize,
        /// Number of bytes actually available.
        available: usize,
    },
    /// The file's leading signature did not match a known format.
    BadSignature {
        /// The signature DWORD found at offset 0.
        found: u32,
    },
    /// An image record was structurally invalid (bad header / dimensions).
    BadImage {
        /// Zero-based image index.
        index: usize,
    },
    /// Image decompression produced the wrong number of bytes.
    DecodeFailed {
        /// Bytes actually produced.
        got: usize,
        /// Bytes expected (the frame's padded 8-bpp size).
        expected: usize,
    },
    /// A value in the file was out of the expected range.
    InvalidData(String),
    /// The operation is not available for this character (for example, palette images
    /// requested from a character built from an RGBA image pool).
    Unsupported(&'static str),
}

impl From<std::io::Error> for Error {
    fn from(e: std::io::Error) -> (r: Self) {
        Error::Io(e)
    }
}

impl vstd::std_specs::convert::FromSpecImpl<std::io::Error> for Error {
    open spec fn obeys_from_spec() -> bool {
        true
    }

    open spec fn from_spec(e: std::io::Error) -> Self {
        Error::Io(e)
    }
}

} // verus!
