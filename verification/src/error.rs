//! Failures of cartridge loading.

use vstd::prelude::*;

verus! {

/// Why a cartridge could not be loaded. Every variant is fatal for that
/// cartridge: no partial result is ever handed out.
#[derive(Clone, Copy, Debug, PartialEq, Eq, Structural)]
pub enum DecodeError {
    /// The block does not start with the magic of the supported format.
    UnsupportedFormat,
    /// The bit stream ended before the declared length was reached.
    TruncatedStream,
    /// A back-reference points before the start of the output.
    InvalidOffset,
    /// A symbol index lies outside the 256-entry table.
    IndexOutOfRange,
    /// The file or the image in it could not be read.
    IoError,
}

impl DecodeError {
    /// A short description for messages.
    pub fn message(&self) -> (s: &'static str)
        ensures
            s@ == Self::message_of(*self),
    {
        match self {
            DecodeError::UnsupportedFormat => "unsupported cartridge format",
            DecodeError::TruncatedStream => "compressed stream is truncated",
            DecodeError::InvalidOffset => "back-reference before start of output",
            DecodeError::IndexOutOfRange => "symbol index out of range",
            DecodeError::IoError => "cartridge could not be read",
        }
    }

    /// The text that `message` returns for each variant.
    pub open spec fn message_of(e: DecodeError) -> Seq<char> {
        match e {
            DecodeError::UnsupportedFormat => "unsupported cartridge format"@,
            DecodeError::TruncatedStream => "compressed stream is truncated"@,
            DecodeError::InvalidOffset => "back-reference before start of output"@,
            DecodeError::IndexOutOfRange => "symbol index out of range"@,
            DecodeError::IoError => "cartridge could not be read"@,
        }
    }
}

} // verus!
