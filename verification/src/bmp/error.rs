//! The failure taxonomy shared by decoding and the transforms.

use vstd::prelude::*;

verus! {

/// Everything that can go wrong while decoding a bitmap byte stream or
/// transforming a document.
#[derive(Debug, Clone, Copy, PartialEq, Eq, Structural)]
pub enum BmpError {
    /// The first two bytes of the stream are not `B`, `M`.
    BadSignature,
    /// The stream ends before the fixed header fields (or the palette the
    /// info header announces) have been read.
    TruncatedHeader,
    /// The bits-per-pixel field asks for a depth other than the supported
    /// 8 and 24, or a transform was asked of a depth it does not support.
    UnsupportedBitDepth,
    /// The compression field is nonzero; only uncompressed data is
    /// supported.
    UnsupportedCompression,
    /// The pixel buffer holds fewer bytes than the stride and height imply,
    /// so a transform cannot run on it.
    ShortPixelBuffer,
}

impl BmpError {
    /// A short description of the failure.
    pub fn describe(&self) -> (r: &'static str)
    {
        match self {
            BmpError::BadSignature => "the stream does not start with the BM signature",
            BmpError::TruncatedHeader => "the stream ends inside the headers or the palette",
            BmpError::UnsupportedBitDepth => "only 8 and 24 bits per pixel are supported",
            BmpError::UnsupportedCompression => "only uncompressed pixel data is supported",
            BmpError::ShortPixelBuffer => "the pixel buffer is shorter than stride times height",
        }
    }
}

} // verus!
