//! The bitmap document: decoding a byte stream, encoding it back, creating
//! a fresh document, and the geometric and colour transforms.

pub mod bmp_colour_table;
pub mod bmp_header;
pub mod bmp_info_header;
pub mod bmp_pixel_data;
pub mod error;
pub mod transform;
pub mod utils;

use vstd::prelude::*;
use crate::bmp::bmp_colour_table::{
    lemma_palette_bytes_index, palette_bytes, palette_decode_ok, spec_palette_decode,
    BmpColourTable,
};
use crate::bmp::bmp_header::{
    header_bytes, header_decode_err, header_decode_ok, spec_header_decode, BmpHeader,
};
use crate::bmp::bmp_info_header::{
    info_bytes, info_decode_err, info_decode_ok, spec_info_decode, BmpInfoHeader,
};
use crate::bmp::bmp_pixel_data::{fill_byte, spec_pixel_decode, BmpPixelData};
use crate::bmp::error::BmpError;
use crate::bmp::transform::{
    flip_buf, grey_buf, is_flip_buf, is_grey_buf, is_rotate180_buf, is_rotate270_buf,
    is_rotate90_buf, lemma_buf_eq, lemma_flip_involution, lemma_grey_idempotent,
    lemma_rotate90_cycle, lemma_rotate90_thrice, lemma_rotate90_twice, rotate90_buf,
};
use crate::bmp::utils::{pix, rix, stride_of, stride_val};

verus! {

/// A bitmap document: file header, info header, colour table and pixel
/// buffer. Supports the uncompressed 8-bit indexed and 24-bit true-colour
/// variants.
pub struct Bmp {
    pub header: BmpHeader,
    pub info_header: BmpInfoHeader,
    pub colour_table: BmpColourTable,
    pub pixel_data: BmpPixelData,
}

/// The mathematical content of a document: the two headers and what the
/// palette and pixel buffers hold.
#[verifier::ext_equal]
pub ghost struct BmpModel {
    pub header: BmpHeader,
    pub info: BmpInfoHeader,
    pub palette: Seq<(u8, u8, u8, u8)>,
    pub pixels: Seq<u8>,
}

impl View for Bmp {
    type V = BmpModel;

    open spec fn view(&self) -> BmpModel {
        BmpModel {
            header: self.header,
            info: self.info_header,
            palette: self.colour_table.data@,
            pixels: self.pixel_data.data@,
        }
    }
}

/// Bytes per pixel: one for the 8-bit indexed variant, three for 24-bit
/// true colour.
pub open spec fn bytes_per_px(m: BmpModel) -> int {
    m.info.bits_per_px as int / 8
}

/// The document's row stride: its width in pixel bytes, rounded up to a
/// multiple of four.
pub open spec fn doc_stride(m: BmpModel) -> int {
    stride_of(m.info.width as int, bytes_per_px(m))
}

/// The pixel-buffer length the dimensions call for: stride times height.
pub open spec fn expected_pixel_len(m: BmpModel) -> int {
    doc_stride(m) * (m.info.height as int)
}

/// The bit depth is one of the two the transforms support.
pub open spec fn depth_supported(m: BmpModel) -> bool {
    m.info.bits_per_px == 8 || m.info.bits_per_px == 24
}

/// The pixel buffer holds at least as many bytes as the dimensions call
/// for; a decoded document may fall short of this (see
/// [`Bmp::pixel_shortfall`]).
pub open spec fn buffer_complete(m: BmpModel) -> bool {
    expected_pixel_len(m) <= m.pixels.len()
}

/// The format invariants of a valid document: the `B`, `M` signature, a
/// supported bit depth, no compression, a palette of exactly
/// `colours_used` entries for the 8-bit variant and none for 24-bit, and a
/// pixel buffer of exactly stride times height bytes.
pub open spec fn wf(m: BmpModel) -> bool {
    &&& m.header.signature == (66u8, 77u8)
    &&& depth_supported(m)
    &&& m.info.compression == 0
    &&& (m.info.bits_per_px == 8 ==> m.palette.len() == m.info.colours_used as int)
    &&& (m.info.bits_per_px == 24 ==> m.palette.len() == 0)
    &&& m.pixels.len() == expected_pixel_len(m)
}

/// The file size the encoder writes: the 54 header bytes, the palette
/// bytes and the pixel bytes. A stale decoded value is never written out.
pub open spec fn recomputed_file_size(m: BmpModel) -> int {
    54 + 4 * (m.palette.len() as int) + (m.pixels.len() as int)
}

/// The bytes `encode` produces: file header, info header, palette and
/// pixel buffer, in that order.
pub open spec fn spec_encode(m: BmpModel) -> Seq<u8> {
    header_bytes(m.header, recomputed_file_size(m) as u32) + info_bytes(m.info) + palette_bytes(
        m.palette,
    ) + m.pixels
}

/// The stream decodes into a document: both headers are complete, the
/// signature and the pixel format are valid, and the stream covers the
/// palette the info header announces.
pub open spec fn decode_ok(bytes: Seq<u8>) -> bool {
    &&& header_decode_ok(bytes)
    &&& info_decode_ok(bytes)
    &&& (spec_info_decode(bytes).bits_per_px == 8 ==> palette_decode_ok(
        bytes,
        spec_info_decode(bytes).colours_used,
    ))
}

/// The error a failed decode reports: the file header's error first, then
/// the info header's, then truncation inside the palette region.
pub open spec fn spec_decode_err(bytes: Seq<u8>) -> BmpError {
    if !header_decode_ok(bytes) {
        header_decode_err(bytes)
    } else if !info_decode_ok(bytes) {
        info_decode_err(bytes)
    } else {
        BmpError::TruncatedHeader
    }
}

/// The document a successful decode of `bytes` yields.
pub open spec fn spec_decode(bytes: Seq<u8>) -> BmpModel {
    let h = spec_header_decode(bytes);
    let ih = spec_info_decode(bytes);
    BmpModel {
        header: h,
        info: ih,
        palette: if ih.bits_per_px == 8 {
            spec_palette_decode(bytes, ih.colours_used)
        } else {
            Seq::empty()
        },
        pixels: spec_pixel_decode(bytes, h.data_offset),
    }
}

/// The document `create` builds: a 24-bit document of the given
/// dimensions, solid-filled with blue 100, green 50, red 25, its file size
/// and data offset consistent with its buffers.
pub open spec fn is_create(m: BmpModel, width: u32, height: u32) -> bool {
    let s = stride_of(width as int, 3);
    &&& m.header == (BmpHeader {
        signature: (66u8, 77u8),
        file_size: (54 + s * (height as int)) as u32,
        reserved: 0u32,
        data_offset: 54u32,
    })
    &&& m.info == (BmpInfoHeader {
        size: 40u32,
        width,
        height,
        planes: 1u16,
        bits_per_px: 24u16,
        compression: 0u32,
        image_size: 0u32,
        x_per_m: 0u32,
        y_per_m: 0u32,
        colours_used: 0u32,
        important_colours: 0u32,
    })
    &&& m.palette == Seq::<(u8, u8, u8, u8)>::empty()
    &&& m.pixels.len() == s * (height as int)
    &&& forall|x: int, y: int, c: int|
        0 <= x < width as int && 0 <= y < height as int && 0 <= c < 3 ==> m.pixels[pix(
            s,
            3,
            x,
            y,
            c,
        )] == fill_byte(c)
    &&& forall|y: int, k: int|
        0 <= y < height as int && 3 * (width as int) <= k < s ==> m.pixels[rix(s, y, k)] == 0u8
}

impl Bmp {
    /// Builds a fresh 24-bit document of the given dimensions with a solid
    /// fill, no palette, and a file size that matches its buffers.
    pub fn new(width: u32, height: u32) -> (d: Bmp)
        requires
            54 + stride_of(width as int, 3) * (height as int) <= u32::MAX,
        ensures
            is_create(d@, width, height),
    {
        let header = BmpHeader::new(width, height);
        let info_header = BmpInfoHeader::new(width, height);
        let colour_table = BmpColourTable::new();
        let pixel_data = BmpPixelData::new(width, height);
        Bmp { header, info_header, colour_table, pixel_data }
    }

    /// Decodes a byte stream into a document: file header, info header,
    /// palette and pixel buffer in sequence. Any component failure aborts
    /// the decode; no partially built document is ever returned.
    pub fn decode(bytes: &[u8]) -> (r: Result<Bmp, BmpError>)
        ensures
            match r {
                Ok(d) => decode_ok(bytes@) && d@ == spec_decode(bytes@),
                Err(e) => !decode_ok(bytes@) && e == spec_decode_err(bytes@),
            },
    {
        let header = match BmpHeader::decode(bytes) {
            Ok(h) => h,
            Err(e) => {
                return Err(e);
            },
        };
        let info_header = match BmpInfoHeader::decode(bytes) {
            Ok(ih) => ih,
            Err(e) => {
                return Err(e);
            },
        };
        let colour_table = if info_header.bits_per_px == 8 {
            match BmpColourTable::decode(bytes, info_header.colours_used) {
                Ok(t) => t,
                Err(e) => {
                    return Err(e);
                },
            }
        } else {
            BmpColourTable::new()
        };
        let pixel_data = BmpPixelData::decode(bytes, header.data_offset);
        let d = Bmp { header, info_header, colour_table, pixel_data };
        proof {
            assert(d@ =~~= spec_decode(bytes@));
        }
        Ok(d)
    }

    /// Serialises the document: file header with the file size recomputed
    /// from the current palette and pixel buffer, then info header,
    /// palette and pixel buffer. The buffers must fit the format's 32-bit
    /// file-size field.
    pub fn encode(&self) -> (out: Vec<u8>)
        requires
            recomputed_file_size(self@) <= u32::MAX,
        ensures
            out@ == spec_encode(self@),
    {
        let pal_len = self.colour_table.data.len();
        let pix_len = self.pixel_data.data.len();
        let file_size: u32 = (54u64 + 4u64 * (pal_len as u64) + (pix_len as u64)) as u32;
        let mut out: Vec<u8> = Vec::new();
        self.header.encode_into(file_size, &mut out);
        self.info_header.encode_into(&mut out);
        self.colour_table.encode_into(&mut out);
        self.pixel_data.encode_into(&mut out);
        proof {
            assert(out@ =~= spec_encode(self@));
        }
        out
    }

    /// How many pixel bytes the buffer is short of what the dimensions
    /// call for: zero for a complete document, positive for the degraded
    /// state a truncated stream decodes into.
    pub fn pixel_shortfall(&self) -> (r: u128)
        ensures
            r as int == if buffer_complete(self@) {
                0int
            } else {
                expected_pixel_len(self@) - self@.pixels.len()
            },
    {
        let bpb: u32 = (self.info_header.bits_per_px / 8) as u32;
        let stride: u64 = stride_val(self.info_header.width, bpb);
        let h = self.info_header.height;
        proof {
            assert((stride as int) * (h as int) <= 0xffff_ffff_ffff_ffffu64 * 0xffff_ffffu32)
                by (nonlinear_arith)
                requires
                    stride <= 0xffff_ffff_ffff_ffffu64,
                    h <= 0xffff_ffffu32,
            ;
        }
        let expected: u128 = (stride as u128) * (h as u128);
        let have = self.pixel_data.data.len();
        if (have as u128) >= expected {
            0
        } else {
            expected - (have as u128)
        }
    }
}

impl Clone for Bmp {
    /// Deep-copies the document: the clone shares no storage with the
    /// original, so the two can be transformed independently.
    fn clone(&self) -> (r: Self)
        ensures
            r@ == self@,
    {
        Bmp {
            header: self.header.clone(),
            info_header: self.info_header.clone(),
            colour_table: self.colour_table.clone(),
            pixel_data: self.pixel_data.clone(),
        }
    }
}


/// `m2` is `m1` rotated a quarter turn clockwise: the info header's width
/// and height are swapped, everything else outside the pixel buffer is
/// unchanged, and the pixel buffer is rotated.
pub open spec fn is_rotate90_doc(m1: BmpModel, m2: BmpModel) -> bool {
    &&& m2.header == m1.header
    &&& m2.info == (BmpInfoHeader { width: m1.info.height, height: m1.info.width, ..m1.info })
    &&& m2.palette == m1.palette
    &&& is_rotate90_buf(
        m1.pixels,
        m1.info.width as int,
        m1.info.height as int,
        bytes_per_px(m1),
        m2.pixels,
    )
}

/// `m2` is `m1` turned upside down: dimensions and everything outside the
/// pixel buffer unchanged, the pixel in column `x`, row `y` moved to
/// column `width - 1 - x`, row `height - 1 - y`, padding zero.
pub open spec fn is_rotate180_doc(m1: BmpModel, m2: BmpModel) -> bool {
    &&& m2.header == m1.header
    &&& m2.info == m1.info
    &&& m2.palette == m1.palette
    &&& is_rotate180_buf(
        m1.pixels,
        m1.info.width as int,
        m1.info.height as int,
        bytes_per_px(m1),
        m2.pixels,
    )
}

/// `m2` is `m1` rotated three quarter turns clockwise: width and height
/// swapped, everything else outside the pixel buffer unchanged, and the
/// pixel buffer rotated a quarter turn counter-clockwise.
pub open spec fn is_rotate270_doc(m1: BmpModel, m2: BmpModel) -> bool {
    &&& m2.header == m1.header
    &&& m2.info == (BmpInfoHeader { width: m1.info.height, height: m1.info.width, ..m1.info })
    &&& m2.palette == m1.palette
    &&& is_rotate270_buf(
        m1.pixels,
        m1.info.width as int,
        m1.info.height as int,
        bytes_per_px(m1),
        m2.pixels,
    )
}

/// `m2` is `m1` mirrored along the vertical axis: headers and palette
/// unchanged, each row's pixels reversed, padding regenerated as zero.
pub open spec fn is_flip_doc(m1: BmpModel, m2: BmpModel) -> bool {
    &&& m2.header == m1.header
    &&& m2.info == m1.info
    &&& m2.palette == m1.palette
    &&& is_flip_buf(
        m1.pixels,
        m1.info.width as int,
        m1.info.height as int,
        bytes_per_px(m1),
        m2.pixels,
    )
}

/// `m2` is `m1` with every 24-bit pixel replaced by its neutral grey:
/// headers and palette unchanged, padding and trailing bytes untouched.
pub open spec fn is_grey_doc(m1: BmpModel, m2: BmpModel) -> bool {
    &&& m2.header == m1.header
    &&& m2.info == m1.info
    &&& m2.palette == m1.palette
    &&& is_grey_buf(m1.pixels, m1.info.width as int, m1.info.height as int, m2.pixels)
}

/// Whether a pixel buffer of `data_len` bytes falls short of `stride`
/// bytes for each of `h` rows.
fn buffer_is_short(data_len: usize, stride: u64, h: u32) -> (r: bool)
    ensures
        r <==> (data_len as int) < (stride as int) * (h as int),
{
    proof {
        assert((stride as int) * (h as int) <= 0xffff_ffff_ffff_ffffu64 * 0xffff_ffffu32)
            by (nonlinear_arith)
            requires
                stride <= 0xffff_ffff_ffff_ffffu64,
                h <= 0xffff_ffffu32,
        ;
    }
    (data_len as u128) < (stride as u128) * (h as u128)
}

impl Bmp {
    /// Rotates the image a quarter turn clockwise: the pixel buffer is
    /// rebuilt with the stride of the new width and the dimension fields
    /// are swapped, atomically. Fails with `UnsupportedBitDepth` on a
    /// depth other than 8 or 24 and with `ShortPixelBuffer` on a degraded
    /// buffer, leaving the document unchanged either way.
    pub fn rotate_90(&mut self) -> (r: Result<(), BmpError>)
        ensures
            r is Ok <==> depth_supported(old(self)@) && buffer_complete(old(self)@),
            r is Ok ==> is_rotate90_doc(old(self)@, final(self)@),
            r is Err ==> final(self)@ == old(self)@,
            !depth_supported(old(self)@) ==> r == Err::<(), BmpError>(
                BmpError::UnsupportedBitDepth,
            ),
            depth_supported(old(self)@) && !buffer_complete(old(self)@) ==> r == Err::<
                (),
                BmpError,
            >(BmpError::ShortPixelBuffer),
    {
        let bpp = self.info_header.bits_per_px;
        if !(bpp == 8 || bpp == 24) {
            return Err(BmpError::UnsupportedBitDepth);
        }
        let bpb: u32 = if bpp == 8 {
            1
        } else {
            3
        };
        let w = self.info_header.width;
        let h = self.info_header.height;
        let stride: u64 = stride_val(w, bpb);
        if buffer_is_short(self.pixel_data.data.len(), stride, h) {
            return Err(BmpError::ShortPixelBuffer);
        }
        let new_data = rotate90_buf(&self.pixel_data.data, w, h, bpb);
        self.info_header.width = h;
        self.info_header.height = w;
        self.pixel_data.data = new_data;
        Ok(())
    }

    /// Rotates the image a half turn: two sequential quarter-turn
    /// rotations, not a separate path. The dimensions return to the
    /// original and the pixel in column `x`, row `y` ends in column
    /// `width - 1 - x`, row `height - 1 - y`. The same failures as
    /// `rotate_90`, leaving the document unchanged.
    pub fn rotate_180(&mut self) -> (r: Result<(), BmpError>)
        ensures
            r is Ok <==> depth_supported(old(self)@) && buffer_complete(old(self)@),
            r is Ok ==> is_rotate180_doc(old(self)@, final(self)@),
            r is Err ==> final(self)@ == old(self)@,
            !depth_supported(old(self)@) ==> r == Err::<(), BmpError>(
                BmpError::UnsupportedBitDepth,
            ),
            depth_supported(old(self)@) && !buffer_complete(old(self)@) ==> r == Err::<
                (),
                BmpError,
            >(BmpError::ShortPixelBuffer),
    {
        let ghost m0 = self@;
        match self.rotate_90() {
            Err(e) => Err(e),
            Ok(()) => {
                let ghost m1 = self@;
                let r2 = self.rotate_90();
                proof {
                    assert(buffer_complete(m1));
                }
                match r2 {
                    Ok(()) => {
                        proof {
                            lemma_rotate90_twice(
                                m0.pixels,
                                m1.pixels,
                                self@.pixels,
                                m0.info.width as int,
                                m0.info.height as int,
                                bytes_per_px(m0),
                            );
                            assert(self@.info =~= m0.info);
                        }
                        Ok(())
                    },
                    Err(e) => {
                        proof {
                            assert(false);
                        }
                        Err(e)
                    },
                }
            },
        }
    }

    /// Rotates the image three quarter turns clockwise: three sequential
    /// quarter-turn rotations. Width and height are swapped and the pixel
    /// in column `x`, row `y` of the result comes from column `y`, row
    /// `height - 1 - x` of the original. The same failures as `rotate_90`,
    /// leaving the document unchanged.
    pub fn rotate_270(&mut self) -> (r: Result<(), BmpError>)
        ensures
            r is Ok <==> depth_supported(old(self)@) && buffer_complete(old(self)@),
            r is Ok ==> is_rotate270_doc(old(self)@, final(self)@),
            r is Err ==> final(self)@ == old(self)@,
            !depth_supported(old(self)@) ==> r == Err::<(), BmpError>(
                BmpError::UnsupportedBitDepth,
            ),
            depth_supported(old(self)@) && !buffer_complete(old(self)@) ==> r == Err::<
                (),
                BmpError,
            >(BmpError::ShortPixelBuffer),
    {
        let ghost m0 = self@;
        match self.rotate_90() {
            Err(e) => Err(e),
            Ok(()) => {
                let ghost m1 = self@;
                let r2 = self.rotate_90();
                proof {
                    assert(buffer_complete(m1));
                }
                match r2 {
                    Ok(()) => {
                        let ghost m2 = self@;
                        let r3 = self.rotate_90();
                        proof {
                            assert(buffer_complete(m2));
                        }
                        match r3 {
                            Ok(()) => {
                                proof {
                                    lemma_rotate90_thrice(
                                        m0.pixels,
                                        m1.pixels,
                                        m2.pixels,
                                        self@.pixels,
                                        m0.info.width as int,
                                        m0.info.height as int,
                                        bytes_per_px(m0),
                                    );
                                    assert(self@.info =~= (BmpInfoHeader {
                                        width: m0.info.height,
                                        height: m0.info.width,
                                        ..m0.info
                                    }));
                                }
                                Ok(())
                            },
                            Err(e) => {
                                proof {
                                    assert(false);
                                }
                                Err(e)
                            },
                        }
                    },
                    Err(e) => {
                        proof {
                            assert(false);
                        }
                        Err(e)
                    },
                }
            },
        }
    }

    /// Mirrors the image along the vertical axis: each row's pixels are
    /// reversed in place of one another, the dimensions and stride stay,
    /// and the padding is regenerated as zero bytes. The same failures as
    /// `rotate_90`, leaving the document unchanged.
    pub fn flip_hor(&mut self) -> (r: Result<(), BmpError>)
        ensures
            r is Ok <==> depth_supported(old(self)@) && buffer_complete(old(self)@),
            r is Ok ==> is_flip_doc(old(self)@, final(self)@),
            r is Err ==> final(self)@ == old(self)@,
            !depth_supported(old(self)@) ==> r == Err::<(), BmpError>(
                BmpError::UnsupportedBitDepth,
            ),
            depth_supported(old(self)@) && !buffer_complete(old(self)@) ==> r == Err::<
                (),
                BmpError,
            >(BmpError::ShortPixelBuffer),
    {
        let bpp = self.info_header.bits_per_px;
        if !(bpp == 8 || bpp == 24) {
            return Err(BmpError::UnsupportedBitDepth);
        }
        let bpb: u32 = if bpp == 8 {
            1
        } else {
            3
        };
        let w = self.info_header.width;
        let h = self.info_header.height;
        let stride: u64 = stride_val(w, bpb);
        if buffer_is_short(self.pixel_data.data.len(), stride, h) {
            return Err(BmpError::ShortPixelBuffer);
        }
        let new_data = flip_buf(&self.pixel_data.data, w, h, bpb);
        self.pixel_data.data = new_data;
        Ok(())
    }

    /// Converts the image to greyscale: every pixel's three channels are
    /// replaced by the rounded luminance 0.299 red + 0.587 green +
    /// 0.114 blue; padding bytes are untouched. Only the 24-bit variant is
    /// supported: indexed colour would need its palette remapped, so an
    /// 8-bit document fails with `UnsupportedBitDepth`, and a degraded
    /// buffer with `ShortPixelBuffer`, the document unchanged either way.
    pub fn to_greyscale(&mut self) -> (r: Result<(), BmpError>)
        ensures
            r is Ok <==> old(self)@.info.bits_per_px == 24 && buffer_complete(old(self)@),
            r is Ok ==> is_grey_doc(old(self)@, final(self)@),
            r is Err ==> final(self)@ == old(self)@,
            old(self)@.info.bits_per_px != 24 ==> r == Err::<(), BmpError>(
                BmpError::UnsupportedBitDepth,
            ),
            old(self)@.info.bits_per_px == 24 && !buffer_complete(old(self)@) ==> r == Err::<
                (),
                BmpError,
            >(BmpError::ShortPixelBuffer),
    {
        let bpp = self.info_header.bits_per_px;
        if bpp != 24 {
            return Err(BmpError::UnsupportedBitDepth);
        }
        let w = self.info_header.width;
        let h = self.info_header.height;
        let stride: u64 = stride_val(w, 3);
        if buffer_is_short(self.pixel_data.data.len(), stride, h) {
            return Err(BmpError::ShortPixelBuffer);
        }
        let new_data = grey_buf(&self.pixel_data.data, w, h);
        self.pixel_data.data = new_data;
        Ok(())
    }
}

/// Every padding byte of the document's pixel buffer is zero. Freshly
/// created documents and every transform output satisfy this; a decoded
/// stream may carry arbitrary padding.
pub open spec fn padding_zero(m: BmpModel) -> bool {
    forall|y: int, k: int|
        0 <= y < m.info.height as int && bytes_per_px(m) * (m.info.width as int) <= k < doc_stride(
            m,
        ) ==> m.pixels[rix(doc_stride(m), y, k)] == 0u8
}

/// A half-turn rotation is exactly two sequential quarter-turn rotations:
/// whenever two documents stand in the quarter-turn relation twice over,
/// the first and the last stand in the half-turn relation, pixel for
/// pixel, with the original dimensions.
pub proof fn lemma_rotate180_is_two_quarter_turns(m0: BmpModel, m1: BmpModel, m2: BmpModel)
    requires
        depth_supported(m0),
        is_rotate90_doc(m0, m1),
        is_rotate90_doc(m1, m2),
    ensures
        is_rotate180_doc(m0, m2),
{
    lemma_rotate90_twice(
        m0.pixels,
        m1.pixels,
        m2.pixels,
        m0.info.width as int,
        m0.info.height as int,
        bytes_per_px(m0),
    );
}

/// Four quarter-turn rotations restore the original width, height and
/// every pixel byte; the padding of the result is zero.
pub proof fn lemma_rotation_cycle(
    m0: BmpModel,
    m1: BmpModel,
    m2: BmpModel,
    m3: BmpModel,
    m4: BmpModel,
)
    requires
        depth_supported(m0),
        is_rotate90_doc(m0, m1),
        is_rotate90_doc(m1, m2),
        is_rotate90_doc(m2, m3),
        is_rotate90_doc(m3, m4),
    ensures
        m4.header == m0.header,
        m4.info == m0.info,
        m4.palette == m0.palette,
        m4.pixels.len() == expected_pixel_len(m0),
        forall|x: int, y: int, c: int|
            0 <= x < m0.info.width as int && 0 <= y < m0.info.height as int && 0 <= c
                < bytes_per_px(m0) ==> #[trigger] m4.pixels[pix(
                doc_stride(m0),
                bytes_per_px(m0),
                x,
                y,
                c,
            )] == m0.pixels[pix(doc_stride(m0), bytes_per_px(m0), x, y, c)],
        padding_zero(m4),
{
    lemma_rotate90_cycle(
        m0.pixels,
        m1.pixels,
        m2.pixels,
        m3.pixels,
        m4.pixels,
        m0.info.width as int,
        m0.info.height as int,
        bytes_per_px(m0),
    );
}

/// A document whose padding is already zero comes back byte for byte,
/// dimensions included, after four quarter-turn rotations.
pub proof fn lemma_rotation_cycle_exact(
    m0: BmpModel,
    m1: BmpModel,
    m2: BmpModel,
    m3: BmpModel,
    m4: BmpModel,
)
    requires
        wf(m0),
        padding_zero(m0),
        is_rotate90_doc(m0, m1),
        is_rotate90_doc(m1, m2),
        is_rotate90_doc(m2, m3),
        is_rotate90_doc(m3, m4),
    ensures
        m4 == m0,
{
    lemma_rotation_cycle(m0, m1, m2, m3, m4);
    lemma_buf_eq(
        m4.pixels,
        m0.pixels,
        m0.info.width as int,
        m0.info.height as int,
        bytes_per_px(m0),
    );
    assert(m4 =~~= m0);
}

/// Flipping horizontally twice restores every pixel byte, and both
/// applications leave all-zero regenerated padding.
pub proof fn lemma_flip_involution_doc(m0: BmpModel, m1: BmpModel, m2: BmpModel)
    requires
        depth_supported(m0),
        is_flip_doc(m0, m1),
        is_flip_doc(m1, m2),
    ensures
        m2.header == m0.header,
        m2.info == m0.info,
        m2.palette == m0.palette,
        m2.pixels.len() == expected_pixel_len(m0),
        forall|x: int, y: int, c: int|
            0 <= x < m0.info.width as int && 0 <= y < m0.info.height as int && 0 <= c
                < bytes_per_px(m0) ==> #[trigger] m2.pixels[pix(
                doc_stride(m0),
                bytes_per_px(m0),
                x,
                y,
                c,
            )] == m0.pixels[pix(doc_stride(m0), bytes_per_px(m0), x, y, c)],
        padding_zero(m1),
        padding_zero(m2),
{
    lemma_flip_involution(
        m0.pixels,
        m1.pixels,
        m2.pixels,
        m0.info.width as int,
        m0.info.height as int,
        bytes_per_px(m0),
    );
}

/// A document whose padding is already zero comes back byte for byte
/// after two horizontal flips.
pub proof fn lemma_flip_involution_exact(m0: BmpModel, m1: BmpModel, m2: BmpModel)
    requires
        wf(m0),
        padding_zero(m0),
        is_flip_doc(m0, m1),
        is_flip_doc(m1, m2),
    ensures
        m2 == m0,
{
    lemma_flip_involution_doc(m0, m1, m2);
    lemma_buf_eq(
        m2.pixels,
        m0.pixels,
        m0.info.width as int,
        m0.info.height as int,
        bytes_per_px(m0),
    );
    assert(m2 =~~= m0);
}

/// Converting to greyscale twice yields exactly the document that one
/// conversion yields: the luminance of a neutral grey is its own channel
/// value, and everything outside the pixels passes through both times.
pub proof fn lemma_greyscale_idempotent(m0: BmpModel, m1: BmpModel, m2: BmpModel)
    requires
        is_grey_doc(m0, m1),
        is_grey_doc(m1, m2),
    ensures
        m2 == m1,
{
    lemma_grey_idempotent(
        m0.pixels,
        m1.pixels,
        m2.pixels,
        m0.info.width as int,
        m0.info.height as int,
    );
    assert(m2 =~~= m1);
}

/// A decoded document is validated in one step: its signature, bit depth,
/// compression and palette length all meet the format invariants. Only the
/// pixel buffer may fall short of stride times height, which
/// [`Bmp::pixel_shortfall`] exposes.
pub proof fn lemma_decode_validated(bytes: Seq<u8>)
    requires
        decode_ok(bytes),
    ensures
        spec_decode(bytes).header.signature == (66u8, 77u8),
        depth_supported(spec_decode(bytes)),
        spec_decode(bytes).info.compression == 0,
        spec_decode(bytes).info.bits_per_px == 8 ==> spec_decode(bytes).palette.len()
            == spec_decode(bytes).info.colours_used as int,
        spec_decode(bytes).info.bits_per_px == 24 ==> spec_decode(bytes).palette.len() == 0,
{
}

/// A freshly created document is valid: it meets the format invariants,
/// its padding is zero, and its data offset and file size agree with its
/// buffers, so it round-trips through encode and decode.
pub proof fn lemma_create_valid(m: BmpModel, width: u32, height: u32)
    requires
        is_create(m, width, height),
        54 + stride_of(width as int, 3) * (height as int) <= u32::MAX,
    ensures
        wf(m),
        padding_zero(m),
        m.header.data_offset as int == 54 + 4 * (m.palette.len() as int),
        m.header.file_size as int == recomputed_file_size(m),
{
    let s = stride_of(width as int, 3);
    assert(bytes_per_px(m) == 3);
    assert(doc_stride(m) == s);
    assert forall|y: int, k: int|
        0 <= y < m.info.height as int && bytes_per_px(m) * (m.info.width as int) <= k
            < doc_stride(m) implies m.pixels[rix(doc_stride(m), y, k)] == 0u8 by {
        assert(m.pixels[rix(s, y, k)] == 0u8);
    }
}


/// Round trip: a document whose data offset points right past the palette
/// and whose file size agrees with its buffers decodes back from its own
/// encoding unchanged — header, info header, palette and pixel buffer
/// alike. Every freshly created document qualifies (see
/// [`lemma_create_valid`]), and the pixel buffer may even be shorter than
/// the dimensions imply: the shortfall survives the round trip.
#[verifier::rlimit(30)]
pub proof fn lemma_encode_decode_round_trip(m: BmpModel)
    requires
        m.header.signature == (66u8, 77u8),
        depth_supported(m),
        m.info.compression == 0,
        m.info.bits_per_px == 8 ==> m.palette.len() == m.info.colours_used as int,
        m.info.bits_per_px == 24 ==> m.palette.len() == 0,
        m.header.data_offset as int == 54 + 4 * (m.palette.len() as int),
        m.header.file_size as int == recomputed_file_size(m),
        recomputed_file_size(m) <= u32::MAX,
    ensures
        decode_ok(spec_encode(m)),
        spec_decode(spec_encode(m)) == m,
{
    vstd::bytes::lemma_auto_spec_u32_to_from_le_bytes();
    vstd::bytes::lemma_auto_spec_u16_to_from_le_bytes();
    let enc = spec_encode(m);
    let fs: u32 = recomputed_file_size(m) as u32;
    let hb = header_bytes(m.header, fs);
    let ib = info_bytes(m.info);
    let pb = palette_bytes(m.palette);
    let p = m.palette.len() as int;
    assert(hb.len() == 14);
    assert(ib.len() == 40);
    assert(pb.len() == 4 * p);
    assert(enc.len() == 54 + 4 * p + m.pixels.len());
    assert(enc[0] == 66u8 && enc[1] == 77u8);
    assert(enc.subrange(2, 6) =~= vstd::bytes::spec_u32_to_le_bytes(fs));
    assert(enc.subrange(6, 10) =~= vstd::bytes::spec_u32_to_le_bytes(m.header.reserved));
    assert(enc.subrange(10, 14) =~= vstd::bytes::spec_u32_to_le_bytes(m.header.data_offset));
    assert(fs == m.header.file_size);
    assert(spec_header_decode(enc) == m.header);
    assert(enc.subrange(14, 18) =~= vstd::bytes::spec_u32_to_le_bytes(m.info.size));
    assert(enc.subrange(18, 22) =~= vstd::bytes::spec_u32_to_le_bytes(m.info.width));
    assert(enc.subrange(22, 26) =~= vstd::bytes::spec_u32_to_le_bytes(m.info.height));
    assert(enc.subrange(26, 28) =~= vstd::bytes::spec_u16_to_le_bytes(m.info.planes));
    assert(enc.subrange(28, 30) =~= vstd::bytes::spec_u16_to_le_bytes(m.info.bits_per_px));
    assert(enc.subrange(30, 34) =~= vstd::bytes::spec_u32_to_le_bytes(m.info.compression));
    assert(enc.subrange(34, 38) =~= vstd::bytes::spec_u32_to_le_bytes(m.info.image_size));
    assert(enc.subrange(38, 42) =~= vstd::bytes::spec_u32_to_le_bytes(m.info.x_per_m));
    assert(enc.subrange(42, 46) =~= vstd::bytes::spec_u32_to_le_bytes(m.info.y_per_m));
    assert(enc.subrange(46, 50) =~= vstd::bytes::spec_u32_to_le_bytes(m.info.colours_used));
    assert(enc.subrange(50, 54) =~= vstd::bytes::spec_u32_to_le_bytes(m.info.important_colours));
    assert(spec_info_decode(enc) == m.info);
    if m.info.bits_per_px == 8 {
        let cu = m.info.colours_used;
        assert forall|i: int| 0 <= i < p implies spec_palette_decode(enc, cu)[i]
            == m.palette[i] by {
            lemma_palette_bytes_index(m.palette, i, 0);
            lemma_palette_bytes_index(m.palette, i, 1);
            lemma_palette_bytes_index(m.palette, i, 2);
            lemma_palette_bytes_index(m.palette, i, 3);
            assert(enc[54 + 4 * i] == pb[4 * i]);
            assert(enc[54 + 4 * i + 1] == pb[4 * i + 1]);
            assert(enc[54 + 4 * i + 2] == pb[4 * i + 2]);
            assert(enc[54 + 4 * i + 3] == pb[4 * i + 3]);
        }
        assert(spec_palette_decode(enc, cu) =~= m.palette);
    } else {
        assert(spec_decode(enc).palette =~= m.palette);
    }
    assert(m.header.data_offset as int <= enc.len());
    assert(enc.skip(m.header.data_offset as int) =~= m.pixels);
    assert(spec_decode(enc) =~~= m);
}


} // verus!
