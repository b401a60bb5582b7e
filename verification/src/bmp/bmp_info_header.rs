//! The 40-byte info header: dimensions, bit depth, compression and the
//! remaining descriptive fields, stored at byte offset 14 of the stream.

use vstd::prelude::*;
use vstd::bytes::{
    spec_u16_from_le_bytes, spec_u16_to_le_bytes, spec_u32_from_le_bytes, spec_u32_to_le_bytes,
};
use crate::bmp::error::BmpError;
use crate::bmp::utils::{parse_u16_at, parse_u32_at, push_u16_le, push_u32_le};

verus! {

/// The bitmap info header. A valid document has `bits_per_px` 8 or 24 and
/// `compression` zero; the other fields pass through the codec unchanged.
pub struct BmpInfoHeader {
    pub size: u32,
    pub width: u32,
    pub height: u32,
    pub planes: u16,
    pub bits_per_px: u16,
    pub compression: u32,
    pub image_size: u32,
    pub x_per_m: u32,
    pub y_per_m: u32,
    pub colours_used: u32,
    pub important_colours: u32,
}

/// The 40 bytes the info header occupies on disk, fields in their fixed
/// order, integers little-endian.
pub open spec fn info_bytes(ih: BmpInfoHeader) -> Seq<u8> {
    spec_u32_to_le_bytes(ih.size) + spec_u32_to_le_bytes(ih.width) + spec_u32_to_le_bytes(
        ih.height,
    ) + spec_u16_to_le_bytes(ih.planes) + spec_u16_to_le_bytes(ih.bits_per_px)
        + spec_u32_to_le_bytes(ih.compression) + spec_u32_to_le_bytes(ih.image_size)
        + spec_u32_to_le_bytes(ih.x_per_m) + spec_u32_to_le_bytes(ih.y_per_m)
        + spec_u32_to_le_bytes(ih.colours_used) + spec_u32_to_le_bytes(ih.important_colours)
}

/// The info header a decode of `bytes` yields when the stream is long
/// enough, before the bit depth and compression are validated.
pub open spec fn spec_info_decode(bytes: Seq<u8>) -> BmpInfoHeader {
    BmpInfoHeader {
        size: spec_u32_from_le_bytes(bytes.subrange(14, 18)),
        width: spec_u32_from_le_bytes(bytes.subrange(18, 22)),
        height: spec_u32_from_le_bytes(bytes.subrange(22, 26)),
        planes: spec_u16_from_le_bytes(bytes.subrange(26, 28)),
        bits_per_px: spec_u16_from_le_bytes(bytes.subrange(28, 30)),
        compression: spec_u32_from_le_bytes(bytes.subrange(30, 34)),
        image_size: spec_u32_from_le_bytes(bytes.subrange(34, 38)),
        x_per_m: spec_u32_from_le_bytes(bytes.subrange(38, 42)),
        y_per_m: spec_u32_from_le_bytes(bytes.subrange(42, 46)),
        colours_used: spec_u32_from_le_bytes(bytes.subrange(46, 50)),
        important_colours: spec_u32_from_le_bytes(bytes.subrange(50, 54)),
    }
}

/// The stream holds a complete info header that announces a supported,
/// uncompressed pixel format.
pub open spec fn info_decode_ok(bytes: Seq<u8>) -> bool {
    &&& bytes.len() >= 54
    &&& (spec_info_decode(bytes).bits_per_px == 8 || spec_info_decode(bytes).bits_per_px == 24)
    &&& spec_info_decode(bytes).compression == 0
}

/// The error a failed info-header decode reports: truncation first, then an
/// unsupported bit depth, then unsupported compression.
pub open spec fn info_decode_err(bytes: Seq<u8>) -> BmpError {
    if bytes.len() < 54 {
        BmpError::TruncatedHeader
    } else if !(spec_info_decode(bytes).bits_per_px == 8 || spec_info_decode(bytes).bits_per_px
        == 24) {
        BmpError::UnsupportedBitDepth
    } else {
        BmpError::UnsupportedCompression
    }
}

impl BmpInfoHeader {
    /// The info header of a fresh 24-bit document of the given dimensions:
    /// one plane, no compression, no palette, every descriptive field zero.
    pub fn new(width: u32, height: u32) -> (ih: BmpInfoHeader)
        ensures
            ih == (BmpInfoHeader {
                size: 40u32,
                width,
                height,
                planes: 1u16,
                bits_per_px: 24u16,
                compression: 0u32,
                image_size: 0u32,
                x_per_m: 0u32,
                y_per_m: 0u32,
                colours_used: 0u32,
                important_colours: 0u32,
            }),
    {
        BmpInfoHeader {
            size: 40,
            width,
            height,
            planes: 1,
            bits_per_px: 24,
            compression: 0,
            image_size: 0,
            x_per_m: 0,
            y_per_m: 0,
            colours_used: 0,
            important_colours: 0,
        }
    }

    /// Decodes the eleven fields stored at byte offset 14. Fails with
    /// `TruncatedHeader` when the stream ends before offset 54, with
    /// `UnsupportedBitDepth` when the bit depth is neither 8 nor 24, and
    /// with `UnsupportedCompression` when the compression field is nonzero.
    pub fn decode(bytes: &[u8]) -> (r: Result<BmpInfoHeader, BmpError>)
        ensures
            match r {
                Ok(ih) => info_decode_ok(bytes@) && ih == spec_info_decode(bytes@),
                Err(e) => !info_decode_ok(bytes@) && e == info_decode_err(bytes@),
            },
    {
        if bytes.len() < 54 {
            return Err(BmpError::TruncatedHeader);
        }
        let ih = BmpInfoHeader {
            size: parse_u32_at(bytes, 14),
            width: parse_u32_at(bytes, 18),
            height: parse_u32_at(bytes, 22),
            planes: parse_u16_at(bytes, 26),
            bits_per_px: parse_u16_at(bytes, 28),
            compression: parse_u32_at(bytes, 30),
            image_size: parse_u32_at(bytes, 34),
            x_per_m: parse_u32_at(bytes, 38),
            y_per_m: parse_u32_at(bytes, 42),
            colours_used: parse_u32_at(bytes, 46),
            important_colours: parse_u32_at(bytes, 50),
        };
        if !(ih.bits_per_px == 8 || ih.bits_per_px == 24) {
            return Err(BmpError::UnsupportedBitDepth);
        }
        if ih.compression != 0 {
            return Err(BmpError::UnsupportedCompression);
        }
        Ok(ih)
    }

    /// Appends the info header's 40 bytes to `out` at the document's
    /// current field values; transforms may have swapped the dimensions
    /// since the stream was decoded.
    pub fn encode_into(&self, out: &mut Vec<u8>)
        ensures
            final(out)@ == old(out)@ + info_bytes(*self),
    {
        push_u32_le(out, self.size);
        push_u32_le(out, self.width);
        push_u32_le(out, self.height);
        push_u16_le(out, self.planes);
        push_u16_le(out, self.bits_per_px);
        push_u32_le(out, self.compression);
        push_u32_le(out, self.image_size);
        push_u32_le(out, self.x_per_m);
        push_u32_le(out, self.y_per_m);
        push_u32_le(out, self.colours_used);
        push_u32_le(out, self.important_colours);
        proof {
            assert(out@ =~= old(out)@ + info_bytes(*self));
        }
    }
}

impl Clone for BmpInfoHeader {
    /// Copies every field; the info header owns no shared state.
    fn clone(&self) -> (r: Self)
        ensures
            r == *self,
    {
        BmpInfoHeader {
            size: self.size,
            width: self.width,
            height: self.height,
            planes: self.planes,
            bits_per_px: self.bits_per_px,
            compression: self.compression,
            image_size: self.image_size,
            x_per_m: self.x_per_m,
            y_per_m: self.y_per_m,
            colours_used: self.colours_used,
            important_colours: self.important_colours,
        }
    }
}

} // verus!
