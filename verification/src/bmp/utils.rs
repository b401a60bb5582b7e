//! Stride arithmetic, pixel-index arithmetic and the greyscale luminance
//! formula shared by the codec and the transforms.

use vstd::prelude::*;
use vstd::arithmetic::div_mod::{
    lemma_fundamental_div_mod, lemma_fundamental_div_mod_converse,
};
use vstd::bytes::{
    spec_u16_from_le_bytes, spec_u16_to_le_bytes, spec_u32_from_le_bytes, spec_u32_to_le_bytes,
    u16_from_le_bytes, u16_to_le_bytes, u32_from_le_bytes, u32_to_le_bytes,
};
use vstd::slice::slice_subrange;

verus! {

/// `v` rounded up to the next multiple of four.
pub open spec fn round_up4(v: int) -> int {
    ((v + 3) / 4) * 4
}

/// Bytes per scanline, zero padding included: a row of `width` pixels of
/// `bpb` bytes each occupies `round_up4(width * bpb)` bytes.
pub open spec fn stride_of(width: int, bpb: int) -> int {
    round_up4(width * bpb)
}

/// Byte index of channel `c` of the pixel in column `x`, row `y`, of a
/// buffer whose rows are `s` bytes long and whose pixels are `b` bytes wide.
pub open spec fn pix(s: int, b: int, x: int, y: int, c: int) -> int {
    y * s + b * x + c
}

/// Byte index of offset `k` within row `y` of a buffer with row length `s`.
pub open spec fn rix(s: int, y: int, k: int) -> int {
    y * s + k
}

/// Weighted luminance of a pixel given in on-disk (blue, green, red) channel
/// order: 0.299 red + 0.587 green + 0.114 blue, rounded to the nearest
/// integer. The weights sum to exactly one, so the division is exact
/// integer rounding.
pub open spec fn luma(b: u8, g: u8, r: u8) -> int {
    (299 * (r as int) + 587 * (g as int) + 114 * (b as int) + 500) / 1000
}

/// Rounding up never moves past the next multiple of four, never moves
/// down, and always lands on a multiple of four.
pub proof fn lemma_round_up4(v: int)
    requires
        0 <= v,
    ensures
        v <= round_up4(v) <= v + 3,
        round_up4(v) % 4 == 0,
{
    lemma_fundamental_div_mod(v + 3, 4);
    let q = (v + 3) / 4;
    let m = (v + 3) % 4;
    assert(0 <= m < 4) by (nonlinear_arith)
        requires
            m == (v + 3) % 4,
    ;
    assert(round_up4(v) == (v + 3) - m);
    lemma_fundamental_div_mod_converse(4 * q, 4, q, 0);
}

/// A row of `width` pixels fits within the stride.
pub proof fn lemma_stride_lower_bound(width: int, bpb: int)
    requires
        0 <= width,
        0 <= bpb,
    ensures
        bpb * width <= stride_of(width, bpb),
        stride_of(width, bpb) <= bpb * width + 3,
{
    vstd::arithmetic::mul::lemma_mul_nonnegative(width, bpb);
    lemma_round_up4(width * bpb);
    vstd::arithmetic::mul::lemma_mul_is_commutative(width, bpb);
}

/// Every channel byte of a pixel in bounds lies inside the buffer.
pub proof fn lemma_pix_bound(s: int, b: int, w: int, h: int, x: int, y: int, c: int)
    requires
        0 <= x < w,
        0 <= y < h,
        0 <= c < b,
        b * w <= s,
    ensures
        0 <= pix(s, b, x, y, c) < s * h,
        pix(s, b, x, y, c) < s * y + s,
{
    assert(0 <= y * s + b * x + c < s * h && y * s + b * x + c < s * y + s)
        by (nonlinear_arith)
        requires
            0 <= x < w,
            0 <= y < h,
            0 <= c < b,
            b * w <= s,
    ;
}

/// Every padding byte of a row in bounds lies inside the buffer.
pub proof fn lemma_rix_bound(s: int, h: int, y: int, k: int)
    requires
        0 <= y < h,
        0 <= k < s,
    ensures
        0 <= rix(s, y, k) < s * h,
        rix(s, y, k) < s * y + s,
{
    assert(0 <= y * s + k < s * h && y * s + k < s * y + s) by (nonlinear_arith)
        requires
            0 <= y < h,
            0 <= k < s,
    ;
}

/// Every byte index of a row-padded buffer decomposes uniquely into a row
/// and an offset within the row.
pub proof fn lemma_row_decompose(s: int, h: int, k: int) -> (yc: (int, int))
    requires
        0 < s,
        0 <= k < s * h,
    ensures
        0 <= yc.0 < h,
        0 <= yc.1 < s,
        k == rix(s, yc.0, yc.1),
{
    let y = k / s;
    let c = k % s;
    lemma_fundamental_div_mod(k, s);
    assert(0 <= c < s) by (nonlinear_arith)
        requires
            0 < s,
            c == k % s,
    ;
    assert(0 <= y < h) by (nonlinear_arith)
        requires
            0 < s,
            0 <= k < s * h,
            k == s * y + c,
            0 <= c < s,
    ;
    (y, c)
}

/// An offset inside the pixel region of a row decomposes uniquely into a
/// column and a channel.
pub proof fn lemma_col_decompose(b: int, w: int, c: int) -> (xc: (int, int))
    requires
        0 < b,
        0 <= c < b * w,
    ensures
        0 <= xc.0 < w,
        0 <= xc.1 < b,
        c == b * xc.0 + xc.1,
{
    let x = c / b;
    let ch = c % b;
    lemma_fundamental_div_mod(c, b);
    assert(0 <= ch < b) by (nonlinear_arith)
        requires
            0 < b,
            ch == c % b,
    ;
    assert(0 <= x < w) by (nonlinear_arith)
        requires
            0 < b,
            0 <= c < b * w,
            c == b * x + ch,
            0 <= ch < b,
    ;
    (x, ch)
}

/// The luminance of a pixel is itself a channel value.
pub proof fn lemma_luma_range(b: u8, g: u8, r: u8)
    ensures
        0 <= luma(b, g, r) <= 255,
{
    let sum = 299 * (r as int) + 587 * (g as int) + 114 * (b as int) + 500;
    assert(0 <= sum <= 255500);
    assert(0 <= sum / 1000 <= 255) by (nonlinear_arith)
        requires
            0 <= sum <= 255500,
    ;
}

/// A pixel that is already a neutral grey keeps its value: the greyscale
/// conversion is idempotent channel by channel.
pub proof fn lemma_luma_fixed_point(v: u8)
    ensures
        luma(v, v, v) == v as int,
{
    assert(299 * (v as int) + 587 * (v as int) + 114 * (v as int) + 500 == 1000 * (v as int)
        + 500);
    lemma_fundamental_div_mod_converse(1000 * (v as int) + 500, 1000, v as int, 500);
}

/// Rounds `value` up to the next multiple of four. Strides of bitmap
/// scanlines are computed this way.
pub fn round_up_to_multiple_of_four(value: u32) -> (r: u32)
    requires
        value + 3 <= u32::MAX,
    ensures
        r as int == round_up4(value as int),
{
    ((value + 3) / 4) * 4
}

/// The stride of a row of `width` pixels of `bpb` bytes each, computed
/// without risk of overflow.
pub fn stride_val(width: u32, bpb: u32) -> (r: u64)
    requires
        bpb <= 0xffff,
    ensures
        r as int == stride_of(width as int, bpb as int),
{
    proof {
        assert((width as int) * (bpb as int) <= 0xffff_ffffu32 * 0xffffu32) by (nonlinear_arith)
            requires
                width <= 0xffff_ffffu32,
                bpb <= 0xffff,
        ;
    }
    let wb: u64 = (width as u64) * (bpb as u64);
    ((wb + 3) / 4) * 4
}

/// Appends the four little-endian bytes of `v` to `out`.
pub fn push_u32_le(out: &mut Vec<u8>, v: u32)
    ensures
        final(out)@ == old(out)@ + spec_u32_to_le_bytes(v),
{
    let bs = u32_to_le_bytes(v);
    out.push(bs[0]);
    out.push(bs[1]);
    out.push(bs[2]);
    out.push(bs[3]);
    proof {
        assert(out@ =~= old(out)@ + spec_u32_to_le_bytes(v));
    }
}

/// Appends the two little-endian bytes of `v` to `out`.
pub fn push_u16_le(out: &mut Vec<u8>, v: u16)
    ensures
        final(out)@ == old(out)@ + spec_u16_to_le_bytes(v),
{
    let bs = u16_to_le_bytes(v);
    out.push(bs[0]);
    out.push(bs[1]);
    proof {
        assert(out@ =~= old(out)@ + spec_u16_to_le_bytes(v));
    }
}

/// Reads the little-endian `u32` stored at byte offset `off`.
pub fn parse_u32_at(bytes: &[u8], off: usize) -> (r: u32)
    requires
        off + 4 <= bytes@.len(),
    ensures
        r == spec_u32_from_le_bytes(bytes@.subrange(off as int, off as int + 4)),
{
    // Materialises that the stream's length fits in usize, so off + 4 does.
    let _n = bytes.len();
    u32_from_le_bytes(slice_subrange(bytes, off, off + 4))
}

/// Reads the little-endian `u16` stored at byte offset `off`.
pub fn parse_u16_at(bytes: &[u8], off: usize) -> (r: u16)
    requires
        off + 2 <= bytes@.len(),
    ensures
        r == spec_u16_from_le_bytes(bytes@.subrange(off as int, off as int + 2)),
{
    // Materialises that the stream's length fits in usize, so off + 2 does.
    let _n = bytes.len();
    u16_from_le_bytes(slice_subrange(bytes, off, off + 2))
}

/// Converts a pixel in on-disk (blue, green, red) channel order to the
/// neutral grey of the same luminance.
pub fn rgb_to_greyscale(bgr: (u8, u8, u8)) -> (grey: (u8, u8, u8))
    ensures
        grey.0 as int == luma(bgr.0, bgr.1, bgr.2),
        grey.1 == grey.0,
        grey.2 == grey.0,
{
    let (b, g, r) = bgr;
    let sum: u32 = 299 * (r as u32) + 587 * (g as u32) + 114 * (b as u32) + 500;
    proof {
        lemma_luma_range(b, g, r);
        assert(sum / 1000 == luma(b, g, r));
    }
    let grey_value: u8 = (sum / 1000) as u8;
    (grey_value, grey_value, grey_value)
}

} // verus!
