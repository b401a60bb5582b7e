//! The 14-byte file header: signature, file size, reserved word and the
//! byte offset of the pixel region.

use vstd::prelude::*;
use vstd::bytes::{spec_u32_from_le_bytes, spec_u32_to_le_bytes};
use crate::bmp::error::BmpError;
use crate::bmp::utils::{parse_u32_at, push_u32_le, stride_of, stride_val};

verus! {

/// The bitmap file header. The signature of a valid document is the two
/// bytes `B`, `M`; the file size is recomputed from the palette and pixel
/// buffer whenever the document is encoded, so a stale value here is never
/// written back out.
pub struct BmpHeader {
    pub signature: (u8, u8),
    pub file_size: u32,
    pub reserved: u32,
    pub data_offset: u32,
}

/// The 14 bytes the file header occupies on disk, with the file size the
/// caller recomputed.
pub open spec fn header_bytes(h: BmpHeader, file_size: u32) -> Seq<u8> {
    seq![h.signature.0, h.signature.1] + spec_u32_to_le_bytes(file_size)
        + spec_u32_to_le_bytes(h.reserved) + spec_u32_to_le_bytes(h.data_offset)
}

/// The stream holds a complete file header with the `B`, `M` signature.
pub open spec fn header_decode_ok(bytes: Seq<u8>) -> bool {
    &&& bytes.len() >= 14
    &&& bytes[0] == 66u8
    &&& bytes[1] == 77u8
}

/// The error a failed file-header decode reports: a missing signature is
/// truncation, a wrong one a bad signature, and a stream that ends inside
/// the remaining fields truncation again.
pub open spec fn header_decode_err(bytes: Seq<u8>) -> BmpError {
    if bytes.len() < 2 {
        BmpError::TruncatedHeader
    } else if !(bytes[0] == 66u8 && bytes[1] == 77u8) {
        BmpError::BadSignature
    } else {
        BmpError::TruncatedHeader
    }
}

/// The file header a successful decode of `bytes` yields.
pub open spec fn spec_header_decode(bytes: Seq<u8>) -> BmpHeader {
    BmpHeader {
        signature: (bytes[0], bytes[1]),
        file_size: spec_u32_from_le_bytes(bytes.subrange(2, 6)),
        reserved: spec_u32_from_le_bytes(bytes.subrange(6, 10)),
        data_offset: spec_u32_from_le_bytes(bytes.subrange(10, 14)),
    }
}

impl BmpHeader {
    /// The file header of a fresh 24-bit document of the given dimensions:
    /// the pixel region starts right after the two headers, and the file
    /// size counts the two headers plus the padded pixel rows.
    pub fn new(width: u32, height: u32) -> (h: BmpHeader)
        requires
            54 + stride_of(width as int, 3) * (height as int) <= u32::MAX,
        ensures
            h.signature == (66u8, 77u8),
            h.file_size as int == 54 + stride_of(width as int, 3) * (height as int),
            h.reserved == 0,
            h.data_offset == 54,
    {
        let s: u64 = stride_val(width, 3);
        let file_size: u32 = (54 + s * (height as u64)) as u32;
        BmpHeader { signature: (66, 77), file_size, reserved: 0, data_offset: 54 }
    }

    /// Decodes the first 14 bytes of the stream. Fails with `BadSignature`
    /// when the first two bytes are not `B`, `M`, and with
    /// `TruncatedHeader` when the stream ends before the fields do.
    pub fn decode(bytes: &[u8]) -> (r: Result<BmpHeader, BmpError>)
        ensures
            match r {
                Ok(h) => header_decode_ok(bytes@) && h == spec_header_decode(bytes@),
                Err(e) => !header_decode_ok(bytes@) && e == header_decode_err(bytes@),
            },
    {
        if bytes.len() < 2 {
            return Err(BmpError::TruncatedHeader);
        }
        let b0 = *vstd::slice::slice_index_get(bytes, 0);
        let b1 = *vstd::slice::slice_index_get(bytes, 1);
        if !(b0 == 66 && b1 == 77) {
            return Err(BmpError::BadSignature);
        }
        if bytes.len() < 14 {
            return Err(BmpError::TruncatedHeader);
        }
        Ok(BmpHeader {
            signature: (b0, b1),
            file_size: parse_u32_at(bytes, 2),
            reserved: parse_u32_at(bytes, 6),
            data_offset: parse_u32_at(bytes, 10),
        })
    }

    /// Appends the header's 14 bytes to `out`, writing the recomputed file
    /// size in place of the stored one.
    pub fn encode_into(&self, file_size: u32, out: &mut Vec<u8>)
        ensures
            final(out)@ == old(out)@ + header_bytes(*self, file_size),
    {
        out.push(self.signature.0);
        out.push(self.signature.1);
        push_u32_le(out, file_size);
        push_u32_le(out, self.reserved);
        push_u32_le(out, self.data_offset);
        proof {
            assert(out@ =~= old(out)@ + header_bytes(*self, file_size));
        }
    }
}

impl Clone for BmpHeader {
    /// Copies every field; the header owns no shared state.
    fn clone(&self) -> (r: Self)
        ensures
            r == *self,
    {
        BmpHeader {
            signature: self.signature,
            file_size: self.file_size,
            reserved: self.reserved,
            data_offset: self.data_offset,
        }
    }
}

} // verus!
