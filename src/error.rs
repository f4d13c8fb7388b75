use vstd::prelude::*;

verus! {

/// Every way an operation of this library can fail.
#[derive(Clone, Copy, Debug, PartialEq, Eq, Structural)]
pub enum SafetensorError {
    /// Opening, reading or mapping a file failed.
    IoError,
    /// The input ends before the length prefix or before the header.
    TruncatedInput,
    /// The declared header length exceeds the accepted ceiling.
    HeaderTooLarge,
    /// The header is not valid JSON of the expected shape.
    MalformedHeader,
    /// A tensor's byte range is inconsistent, out of range, or overlaps another.
    InvalidOffsets,
    /// A product of dimensions or a total size cannot be represented.
    ShapeOverflow,
    /// A tensor's bytes do not match its dtype and shape.
    ByteLengthMismatch,
    /// An element type name is not recognised.
    UnsupportedDtype,
    /// A device name is not recognised, or not available for the framework.
    UnsupportedDevice,
    /// A framework name is not recognised.
    UnsupportedFramework,
    /// No tensor of the requested name exists.
    NotFound,
    /// The handle was closed.
    ClosedHandle,
}

impl SafetensorError {
    /// A short human-readable description of the error.
    pub fn message(&self) -> &'static str {
        match self {
            SafetensorError::IoError => "i/o error",
            SafetensorError::TruncatedInput => "input is truncated",
            SafetensorError::HeaderTooLarge => "header is too large",
            SafetensorError::MalformedHeader => "header is malformed",
            SafetensorError::InvalidOffsets => "invalid tensor offsets",
            SafetensorError::ShapeOverflow => "shape or size overflows",
            SafetensorError::ByteLengthMismatch => "data length does not match dtype and shape",
            SafetensorError::UnsupportedDtype => "unsupported dtype",
            SafetensorError::UnsupportedDevice => "unsupported device",
            SafetensorError::UnsupportedFramework => "unsupported framework",
            SafetensorError::NotFound => "tensor not found",
            SafetensorError::ClosedHandle => "file is closed",
        }
    }
}

} // verus!
