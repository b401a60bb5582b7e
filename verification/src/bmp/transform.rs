//! The geometric and colour transforms on row-padded pixel buffers:
//! quarter-turn rotation, horizontal flip and greyscale conversion, each
//! specified pixel by pixel.

use vstd::prelude::*;
use vstd::arithmetic::mul::{lemma_mul_is_commutative, lemma_mul_nonnegative};
use crate::bmp::utils::{
    lemma_col_decompose, lemma_pix_bound, lemma_rix_bound, lemma_row_decompose,
    lemma_stride_lower_bound, luma, pix, rix, stride_of, stride_val,
};

verus! {

/// `dst` is `src` rotated a quarter turn clockwise. `src` has `w` columns
/// of `h` bottom-up rows of `b`-byte pixels; `dst` has `h` columns of `w`
/// rows. Destination row `y` holds, left to right, the pixels of source
/// column `w - 1 - y`, bottom row first, and ends in zero padding.
pub open spec fn is_rotate90_buf(src: Seq<u8>, w: int, h: int, b: int, dst: Seq<u8>) -> bool {
    let ss = stride_of(w, b);
    let sd = stride_of(h, b);
    &&& dst.len() == sd * w
    &&& forall|x: int, y: int, c: int|
        0 <= x < h && 0 <= y < w && 0 <= c < b ==> #[trigger] dst[pix(sd, b, x, y, c)] == src[pix(
            ss,
            b,
            w - 1 - y,
            x,
            c,
        )]
    &&& forall|y: int, k: int|
        0 <= y < w && b * h <= k < sd ==> #[trigger] dst[rix(sd, y, k)] == 0u8
}

/// Appends `count` bytes of `data`, starting at `base`, to `out`.
fn copy_bytes(out: &mut Vec<u8>, data: &Vec<u8>, base: u64, count: u64)
    requires
        base + count <= data@.len(),
    ensures
        final(out)@.len() == old(out)@.len() + count,
        forall|q: int| 0 <= q < old(out)@.len() ==> final(out)@[q] == old(out)@[q],
        forall|q: int|
            old(out)@.len() <= q < old(out)@.len() + count ==> final(out)@[q] == data@[base as int
                + q - old(out)@.len()],
{
    let ghost base_len = out@.len() as int;
    let n = data.len();
    let mut c: u64 = 0;
    while c < count
        invariant
            c <= count,
            base + count <= data@.len(),
            n == data@.len(),
            base_len == old(out)@.len(),
            out@.len() == base_len + c,
            forall|q: int| 0 <= q < base_len ==> out@[q] == old(out)@[q],
            forall|q: int|
                base_len <= q < base_len + c ==> out@[q] == data@[base as int + q - base_len],
        decreases count - c,
    {
        let idx: usize = (base + c) as usize;
        out.push(data[idx]);
        c = c + 1;
    }
}

/// Appends `count` zero bytes to `out`.
fn push_zeros(out: &mut Vec<u8>, count: u64)
    ensures
        final(out)@.len() == old(out)@.len() + count,
        forall|q: int| 0 <= q < old(out)@.len() ==> final(out)@[q] == old(out)@[q],
        forall|q: int| old(out)@.len() <= q < old(out)@.len() + count ==> final(out)@[q] == 0u8,
{
    let ghost base_len = out@.len() as int;
    let mut c: u64 = 0;
    while c < count
        invariant
            c <= count,
            base_len == old(out)@.len(),
            out@.len() == base_len + c,
            forall|q: int| 0 <= q < base_len ==> out@[q] == old(out)@[q],
            forall|q: int| base_len <= q < base_len + c ==> out@[q] == 0u8,
        decreases count - c,
    {
        out.push(0);
        c = c + 1;
    }
}

/// Builds the quarter-turn-clockwise rotation of `data`, a buffer of
/// `height` bottom-up rows of `width` pixels of `bpb` bytes each. The
/// source and destination strides are computed independently: the one from
/// the old width, the other from the old height.
pub fn rotate90_buf(data: &Vec<u8>, width: u32, height: u32, bpb: u32) -> (out: Vec<u8>)
    requires
        bpb == 1 || bpb == 3,
        stride_of(width as int, bpb as int) * (height as int) <= data@.len(),
    ensures
        is_rotate90_buf(data@, width as int, height as int, bpb as int, out@),
{
    let ghost w = width as int;
    let ghost h = height as int;
    let ghost b = bpb as int;
    let ghost ss = stride_of(w, b);
    let ghost sd = stride_of(h, b);
    // Materialises that the buffer's length fits in usize, which bounds
    // every source index computed below.
    let _n = data.len();
    let s_src: u64 = stride_val(width, bpb);
    let s_dst: u64 = stride_val(height, bpb);
    proof {
        lemma_stride_lower_bound(w, b);
        lemma_stride_lower_bound(h, b);
        lemma_mul_nonnegative(ss, h);
    }
    let pad_dst: u64 = s_dst - (bpb as u64) * (height as u64);
    let mut out: Vec<u8> = Vec::new();
    let mut r: u32 = 0;
    #[verifier::loop_isolation(false)]
    while r < width
        invariant
            r <= width,
            out@.len() == (r as int) * sd,
            0 <= (r as int) * sd,
            forall|x: int, y: int, c: int|
                0 <= x < h && 0 <= y < r as int && 0 <= c < b ==> 0 <= #[trigger] pix(
                    sd,
                    b,
                    x,
                    y,
                    c,
                ) < (r as int) * sd,
            forall|x: int, y: int, c: int|
                0 <= x < h && 0 <= y < r as int && 0 <= c < b ==> out@[pix(sd, b, x, y, c)]
                    == data@[pix(ss, b, w - 1 - y, x, c)],
            forall|y: int, k: int|
                0 <= y < r as int && b * h <= k < sd ==> 0 <= #[trigger] rix(sd, y, k) < (
                r as int) * sd,
            forall|y: int, k: int|
                0 <= y < r as int && b * h <= k < sd ==> out@[rix(sd, y, k)] == 0u8,
        decreases width - r,
    {
        let i: u32 = width - 1 - r;
        let mut x: u32 = 0;
        #[verifier::loop_isolation(false)]
        while x < height
            invariant
                x <= height,
                out@.len() == (r as int) * sd + b * (x as int),
                forall|x2: int, y: int, c: int|
                    0 <= x2 < h && 0 <= y < r as int && 0 <= c < b ==> out@[pix(sd, b, x2, y, c)]
                        == data@[pix(ss, b, w - 1 - y, x2, c)],
                forall|y: int, k: int|
                    0 <= y < r as int && b * h <= k < sd ==> out@[rix(sd, y, k)] == 0u8,
                forall|x2: int, c: int|
                    0 <= x2 < x as int && 0 <= c < b ==> 0 <= #[trigger] pix(sd, b, x2, r as int, c)
                        < out@.len(),
                forall|x2: int, c: int|
                    0 <= x2 < x as int && 0 <= c < b ==> out@[pix(sd, b, x2, r as int, c)]
                        == data@[pix(ss, b, w - 1 - r as int, x2, c)],
            decreases height - x,
        {
            proof {
                lemma_pix_bound(ss, b, w, h, i as int, x as int, 0);
                lemma_pix_bound(ss, b, w, h, i as int, x as int, b - 1);
                lemma_mul_nonnegative(b, i as int);
                lemma_mul_nonnegative(x as int, ss);
            }
            let src_base: u64 = (x as u64) * s_src + (bpb as u64) * (i as u64);
            let ghost len0 = out@.len() as int;
            copy_bytes(&mut out, data, src_base, bpb as u64);
            proof {
                assert forall|x2: int, c: int|
                    0 <= x2 < x as int + 1 && 0 <= c < b implies {
                    &&& 0 <= #[trigger] pix(sd, b, x2, r as int, c) < out@.len()
                    &&& out@[pix(sd, b, x2, r as int, c)] == data@[pix(ss, b, w - 1 - r as int, x2, c)]
                } by {
                    if x2 == x as int {
                        assert(pix(sd, b, x2, r as int, c) == len0 + c);
                        assert(out@[len0 + c] == data@[src_base as int + c]);
                        assert(src_base as int + c == pix(ss, b, w - 1 - r as int, x2, c));
                    }
                }
            }
            x = x + 1;
        }
        let ghost len0 = out@.len() as int;
        push_zeros(&mut out, pad_dst);
        proof {
            let next = r as int + 1;
            assert(out@.len() == next * sd && 0 <= next * sd) by (nonlinear_arith)
                requires
                    out@.len() == (r as int) * sd + b * h + (sd - b * h),
                    next == r as int + 1,
                    0 <= (r as int) * sd,
                    0 <= sd,
            ;
            assert forall|x: int, y: int, c: int|
                0 <= x < h && 0 <= y < next && 0 <= c < b implies 0 <= #[trigger] pix(
                sd,
                b,
                x,
                y,
                c,
            ) < next * sd by {
                lemma_pix_bound(sd, b, h, next, x, y, c);
                lemma_mul_is_commutative(sd, next);
            }
            assert forall|y: int, k: int|
                0 <= y < next && b * h <= k < sd implies 0 <= #[trigger] rix(sd, y, k) < next
                * sd by {
                lemma_rix_bound(sd, next, y, k);
                lemma_mul_is_commutative(sd, next);
            }
            assert forall|x: int, y: int, c: int|
                0 <= x < h && 0 <= y < next && 0 <= c < b implies out@[pix(sd, b, x, y, c)]
                == data@[pix(ss, b, w - 1 - y, x, c)] by {
                if y == r as int {
                    assert(pix(sd, b, x, y, c) == pix(sd, b, x, r as int, c));
                    assert(pix(sd, b, x, r as int, c) < len0);
                }
            }
            assert forall|y: int, k: int|
                0 <= y < next && b * h <= k < sd implies out@[rix(sd, y, k)] == 0u8 by {
                if y == r as int {
                    assert(rix(sd, y, k) == len0 + (k - b * h));
                }
            }
        }
        r = r + 1;
    }
    proof {
        lemma_mul_is_commutative(w, sd);
    }
    out
}


/// `dst` is `src` mirrored along the vertical axis: each row keeps its
/// place, and within a row the pixel in column `x` moves to column
/// `w - 1 - x`. The padding of every row is regenerated as zero bytes;
/// whatever the source rows carried there is never copied forward.
pub open spec fn is_flip_buf(src: Seq<u8>, w: int, h: int, b: int, dst: Seq<u8>) -> bool {
    let s = stride_of(w, b);
    &&& dst.len() == s * h
    &&& forall|x: int, y: int, c: int|
        0 <= x < w && 0 <= y < h && 0 <= c < b ==> #[trigger] dst[pix(s, b, x, y, c)] == src[pix(
            s,
            b,
            w - 1 - x,
            y,
            c,
        )]
    &&& forall|y: int, k: int|
        0 <= y < h && b * w <= k < s ==> #[trigger] dst[rix(s, y, k)] == 0u8
}

/// Builds the horizontal mirror of `data`, a buffer of `height` bottom-up
/// rows of `width` pixels of `bpb` bytes each. Width, height and stride
/// are unchanged; the row padding comes out as zero bytes.
pub fn flip_buf(data: &Vec<u8>, width: u32, height: u32, bpb: u32) -> (out: Vec<u8>)
    requires
        bpb == 1 || bpb == 3,
        stride_of(width as int, bpb as int) * (height as int) <= data@.len(),
    ensures
        is_flip_buf(data@, width as int, height as int, bpb as int, out@),
{
    let ghost w = width as int;
    let ghost h = height as int;
    let ghost b = bpb as int;
    let ghost s = stride_of(w, b);
    // Materialises that the buffer's length fits in usize, which bounds
    // every source index computed below.
    let _n = data.len();
    let s_row: u64 = stride_val(width, bpb);
    proof {
        lemma_stride_lower_bound(w, b);
        lemma_mul_nonnegative(s, h);
    }
    let pad: u64 = s_row - (bpb as u64) * (width as u64);
    let mut out: Vec<u8> = Vec::new();
    let mut y: u32 = 0;
    #[verifier::loop_isolation(false)]
    while y < height
        invariant
            y <= height,
            out@.len() == (y as int) * s,
            0 <= (y as int) * s,
            forall|x: int, y2: int, c: int|
                0 <= x < w && 0 <= y2 < y as int && 0 <= c < b ==> 0 <= #[trigger] pix(
                    s,
                    b,
                    x,
                    y2,
                    c,
                ) < (y as int) * s,
            forall|x: int, y2: int, c: int|
                0 <= x < w && 0 <= y2 < y as int && 0 <= c < b ==> out@[pix(s, b, x, y2, c)]
                    == data@[pix(s, b, w - 1 - x, y2, c)],
            forall|y2: int, k: int|
                0 <= y2 < y as int && b * w <= k < s ==> 0 <= #[trigger] rix(s, y2, k) < (
                y as int) * s,
            forall|y2: int, k: int|
                0 <= y2 < y as int && b * w <= k < s ==> out@[rix(s, y2, k)] == 0u8,
        decreases height - y,
    {
        let mut x: u32 = 0;
        #[verifier::loop_isolation(false)]
        while x < width
            invariant
                x <= width,
                out@.len() == (y as int) * s + b * (x as int),
                forall|x2: int, y2: int, c: int|
                    0 <= x2 < w && 0 <= y2 < y as int && 0 <= c < b ==> out@[pix(s, b, x2, y2, c)]
                        == data@[pix(s, b, w - 1 - x2, y2, c)],
                forall|y2: int, k: int|
                    0 <= y2 < y as int && b * w <= k < s ==> out@[rix(s, y2, k)] == 0u8,
                forall|x2: int, c: int|
                    0 <= x2 < x as int && 0 <= c < b ==> 0 <= #[trigger] pix(s, b, x2, y as int, c)
                        < out@.len(),
                forall|x2: int, c: int|
                    0 <= x2 < x as int && 0 <= c < b ==> out@[pix(s, b, x2, y as int, c)]
                        == data@[pix(s, b, w - 1 - x2, y as int, c)],
            decreases width - x,
        {
            let i: u32 = width - 1 - x;
            proof {
                lemma_pix_bound(s, b, w, h, i as int, y as int, 0);
                lemma_pix_bound(s, b, w, h, i as int, y as int, b - 1);
                lemma_mul_nonnegative(b, i as int);
                lemma_mul_nonnegative(y as int, s);
            }
            let src_base: u64 = (y as u64) * s_row + (bpb as u64) * (i as u64);
            let ghost len0 = out@.len() as int;
            copy_bytes(&mut out, data, src_base, bpb as u64);
            proof {
                assert forall|x2: int, c: int|
                    0 <= x2 < x as int + 1 && 0 <= c < b implies {
                    &&& 0 <= #[trigger] pix(s, b, x2, y as int, c) < out@.len()
                    &&& out@[pix(s, b, x2, y as int, c)] == data@[pix(s, b, w - 1 - x2, y as int, c)]
                } by {
                    if x2 == x as int {
                        assert(pix(s, b, x2, y as int, c) == len0 + c);
                        assert(out@[len0 + c] == data@[src_base as int + c]);
                        assert(src_base as int + c == pix(s, b, w - 1 - x2, y as int, c));
                    }
                }
            }
            x = x + 1;
        }
        let ghost len0 = out@.len() as int;
        push_zeros(&mut out, pad);
        proof {
            let next = y as int + 1;
            assert(out@.len() == next * s && 0 <= next * s) by (nonlinear_arith)
                requires
                    out@.len() == (y as int) * s + b * w + (s - b * w),
                    next == y as int + 1,
                    0 <= (y as int) * s,
                    0 <= s,
            ;
            assert forall|x: int, y2: int, c: int|
                0 <= x < w && 0 <= y2 < next && 0 <= c < b implies 0 <= #[trigger] pix(
                s,
                b,
                x,
                y2,
                c,
            ) < next * s by {
                lemma_pix_bound(s, b, w, next, x, y2, c);
                lemma_mul_is_commutative(s, next);
            }
            assert forall|y2: int, k: int|
                0 <= y2 < next && b * w <= k < s implies 0 <= #[trigger] rix(s, y2, k) < next
                * s by {
                lemma_rix_bound(s, next, y2, k);
                lemma_mul_is_commutative(s, next);
            }
            assert forall|x: int, y2: int, c: int|
                0 <= x < w && 0 <= y2 < next && 0 <= c < b implies out@[pix(s, b, x, y2, c)]
                == data@[pix(s, b, w - 1 - x, y2, c)] by {
                if y2 == y as int {
                    assert(pix(s, b, x, y2, c) == pix(s, b, x, y as int, c));
                    assert(pix(s, b, x, y as int, c) < len0);
                }
            }
            assert forall|y2: int, k: int|
                0 <= y2 < next && b * w <= k < s implies out@[rix(s, y2, k)] == 0u8 by {
                if y2 == y as int {
                    assert(rix(s, y2, k) == len0 + (k - b * w));
                }
            }
        }
        y = y + 1;
    }
    proof {
        lemma_mul_is_commutative(h, s);
    }
    out
}


/// The pixel in column `x`, row `y` of `dst` is the neutral grey whose
/// three channels all carry the luminance of the corresponding pixel of
/// `src`.
pub open spec fn grey_pixel(src: Seq<u8>, dst: Seq<u8>, s: int, x: int, y: int) -> bool {
    let l = luma(src[pix(s, 3, x, y, 0)], src[pix(s, 3, x, y, 1)], src[pix(s, 3, x, y, 2)]);
    &&& dst[pix(s, 3, x, y, 0)] as int == l
    &&& dst[pix(s, 3, x, y, 1)] as int == l
    &&& dst[pix(s, 3, x, y, 2)] as int == l
}

/// `dst` is `src` with every 24-bit pixel replaced by its neutral grey.
/// Padding bytes and any bytes beyond the last row are untouched.
pub open spec fn is_grey_buf(src: Seq<u8>, w: int, h: int, dst: Seq<u8>) -> bool {
    let s = stride_of(w, 3);
    &&& dst.len() == src.len()
    &&& s * h <= src.len()
    &&& forall|x: int, y: int| 0 <= x < w && 0 <= y < h ==> #[trigger] grey_pixel(src, dst, s, x, y)
    &&& forall|y: int, k: int|
        0 <= y < h && 3 * w <= k < s ==> #[trigger] dst[rix(s, y, k)] == src[rix(s, y, k)]
    &&& forall|q: int| s * h <= q < src.len() ==> #[trigger] dst[q] == src[q]
}

/// Appends the neutral grey of the three-channel pixel stored at `base` in
/// `data` to `out`.
fn push_grey_pixel(out: &mut Vec<u8>, data: &Vec<u8>, base: u64)
    requires
        base + 3 <= data@.len(),
    ensures
        final(out)@.len() == old(out)@.len() + 3,
        forall|q: int| 0 <= q < old(out)@.len() ==> final(out)@[q] == old(out)@[q],
        ({
            let l = luma(data@[base as int], data@[base as int + 1], data@[base as int + 2]);
            &&& final(out)@[old(out)@.len() as int] as int == l
            &&& final(out)@[old(out)@.len() as int + 1] as int == l
            &&& final(out)@[old(out)@.len() as int + 2] as int == l
        }),
{
    // Materialises that the buffer's length fits in usize, which bounds the
    // three source indices.
    let _n = data.len();
    let idx: usize = base as usize;
    let bgr = (data[idx], data[idx + 1], data[idx + 2]);
    let (g0, g1, g2) = crate::bmp::utils::rgb_to_greyscale(bgr);
    out.push(g0);
    out.push(g1);
    out.push(g2);
}

/// Builds the greyscale conversion of `data`, a buffer of `height`
/// bottom-up rows of `width` three-byte pixels. Every pixel becomes the
/// neutral grey of its luminance; padding bytes pass through unchanged.
pub fn grey_buf(data: &Vec<u8>, width: u32, height: u32) -> (out: Vec<u8>)
    requires
        stride_of(width as int, 3) * (height as int) <= data@.len(),
    ensures
        is_grey_buf(data@, width as int, height as int, out@),
{
    let ghost w = width as int;
    let ghost h = height as int;
    let ghost s = stride_of(w, 3);
    let n = data.len();
    let s_row: u64 = stride_val(width, 3);
    proof {
        lemma_stride_lower_bound(w, 3);
        lemma_mul_nonnegative(s, h);
    }
    let pad: u64 = s_row - 3 * (width as u64);
    let mut out: Vec<u8> = Vec::new();
    let mut y: u32 = 0;
    #[verifier::loop_isolation(false)]
    while y < height
        invariant
            y <= height,
            out@.len() == (y as int) * s,
            0 <= (y as int) * s,
            forall|x: int, y2: int, c: int|
                0 <= x < w && 0 <= y2 < y as int && 0 <= c < 3 ==> 0 <= #[trigger] pix(
                    s,
                    3,
                    x,
                    y2,
                    c,
                ) < (y as int) * s,
            forall|x: int, y2: int|
                0 <= x < w && 0 <= y2 < y as int ==> #[trigger] grey_pixel(data@, out@, s, x, y2),
            forall|y2: int, k: int|
                0 <= y2 < y as int && 3 * w <= k < s ==> 0 <= #[trigger] rix(s, y2, k) < (
                y as int) * s,
            forall|y2: int, k: int|
                0 <= y2 < y as int && 3 * w <= k < s ==> out@[rix(s, y2, k)] == data@[rix(
                    s,
                    y2,
                    k,
                )],
        decreases height - y,
    {
        let mut x: u32 = 0;
        #[verifier::loop_isolation(false)]
        while x < width
            invariant
                x <= width,
                out@.len() == (y as int) * s + 3 * (x as int),
                forall|x2: int, y2: int|
                    0 <= x2 < w && 0 <= y2 < y as int ==> #[trigger] grey_pixel(
                        data@,
                        out@,
                        s,
                        x2,
                        y2,
                    ),
                forall|y2: int, k: int|
                    0 <= y2 < y as int && 3 * w <= k < s ==> out@[rix(s, y2, k)] == data@[rix(
                        s,
                        y2,
                        k,
                    )],
                forall|x2: int, c: int|
                    0 <= x2 < x as int && 0 <= c < 3 ==> 0 <= #[trigger] pix(s, 3, x2, y as int, c)
                        < out@.len(),
                forall|x2: int|
                    0 <= x2 < x as int ==> #[trigger] grey_pixel(data@, out@, s, x2, y as int),
            decreases width - x,
        {
            proof {
                lemma_pix_bound(s, 3, w, h, x as int, y as int, 0);
                lemma_pix_bound(s, 3, w, h, x as int, y as int, 2);
                lemma_mul_nonnegative(y as int, s);
            }
            let src_base: u64 = (y as u64) * s_row + 3 * (x as u64);
            let ghost prev = out@;
            let ghost len0 = out@.len() as int;
            push_grey_pixel(&mut out, data, src_base);
            proof {
                assert forall|x2: int| 0 <= x2 < x as int + 1 implies #[trigger] grey_pixel(
                    data@,
                    out@,
                    s,
                    x2,
                    y as int,
                ) by {
                    if x2 == x as int {
                        assert(pix(s, 3, x2, y as int, 0) == len0);
                        assert(pix(s, 3, x2, y as int, 1) == len0 + 1);
                        assert(pix(s, 3, x2, y as int, 2) == len0 + 2);
                        assert(src_base as int == pix(s, 3, x2, y as int, 0));
                    } else {
                        assert(grey_pixel(data@, prev, s, x2, y as int));
                        assert(0 <= pix(s, 3, x2, y as int, 0) < len0);
                        assert(0 <= pix(s, 3, x2, y as int, 1) < len0);
                        assert(0 <= pix(s, 3, x2, y as int, 2) < len0);
                    }
                }
                assert forall|x2: int, y2: int|
                    0 <= x2 < w && 0 <= y2 < y as int implies #[trigger] grey_pixel(
                    data@,
                    out@,
                    s,
                    x2,
                    y2,
                ) by {
                    assert(grey_pixel(data@, prev, s, x2, y2));
                    assert(0 <= pix(s, 3, x2, y2, 0) < (y as int) * s);
                    assert(0 <= pix(s, 3, x2, y2, 1) < (y as int) * s);
                    assert(0 <= pix(s, 3, x2, y2, 2) < (y as int) * s);
                }
            }
            x = x + 1;
        }
        let ghost len0 = out@.len() as int;
        let ghost prev = out@;
        proof {
            lemma_mul_nonnegative(y as int, s);
            assert((y as int) * s + s <= s * h && (y as int) * s + 3 * w <= s * h) by (nonlinear_arith)
                requires
                    0 <= (y as int) && (y as int) < h,
                    3 * w <= s,
                    0 <= s,
            ;
        }
        let row_pad_base: u64 = (y as u64) * s_row + 3 * (width as u64);
        copy_bytes(&mut out, data, row_pad_base, pad);
        proof {
            let next = y as int + 1;
            assert(out@.len() == next * s && 0 <= next * s) by (nonlinear_arith)
                requires
                    out@.len() == (y as int) * s + 3 * w + (s - 3 * w),
                    next == y as int + 1,
                    0 <= (y as int) * s,
                    0 <= s,
            ;
            assert forall|x: int, y2: int, c: int|
                0 <= x < w && 0 <= y2 < next && 0 <= c < 3 implies 0 <= #[trigger] pix(
                s,
                3,
                x,
                y2,
                c,
            ) < next * s by {
                lemma_pix_bound(s, 3, w, next, x, y2, c);
                lemma_mul_is_commutative(s, next);
            }
            assert forall|y2: int, k: int|
                0 <= y2 < next && 3 * w <= k < s implies 0 <= #[trigger] rix(s, y2, k) < next
                * s by {
                lemma_rix_bound(s, next, y2, k);
                lemma_mul_is_commutative(s, next);
            }
            assert forall|x: int, y2: int|
                0 <= x < w && 0 <= y2 < next implies #[trigger] grey_pixel(data@, out@, s, x, y2) by {
                assert(grey_pixel(data@, prev, s, x, y2));
                assert(0 <= pix(s, 3, x, y2, 0) < len0);
                assert(0 <= pix(s, 3, x, y2, 1) < len0);
                assert(0 <= pix(s, 3, x, y2, 2) < len0);
            }
            assert forall|y2: int, k: int|
                0 <= y2 < next && 3 * w <= k < s implies out@[rix(s, y2, k)] == data@[rix(
                s,
                y2,
                k,
            )] by {
                if y2 == y as int {
                    assert(rix(s, y2, k) == len0 + (k - 3 * w));
                    assert(out@[len0 + (k - 3 * w)] == data@[row_pad_base as int + (k - 3 * w)]);
                    assert(row_pad_base as int + (k - 3 * w) == rix(s, y2, k));
                }
            }
        }
        y = y + 1;
    }
    let ghost len_rows = out@.len() as int;
    let ghost prev_tail = out@;
    proof {
        lemma_mul_is_commutative(h, s);
    }
    let tail_base: u64 = (height as u64) * s_row;
    let tail_count: u64 = (n as u64) - tail_base;
    copy_bytes(&mut out, data, tail_base, tail_count);
    proof {
        assert forall|x: int, y2: int|
            0 <= x < w && 0 <= y2 < h implies #[trigger] grey_pixel(data@, out@, s, x, y2) by {
            assert(grey_pixel(data@, prev_tail, s, x, y2));
            assert(0 <= pix(s, 3, x, y2, 0) < len_rows);
            assert(0 <= pix(s, 3, x, y2, 1) < len_rows);
            assert(0 <= pix(s, 3, x, y2, 2) < len_rows);
        }
    }
    out
}


/// Two buffers of the same row-padded layout that agree on every pixel
/// byte and on every padding byte are equal byte for byte.
pub proof fn lemma_buf_eq(a: Seq<u8>, d: Seq<u8>, w: int, h: int, b: int)
    requires
        0 < b,
        0 <= w,
        0 <= h,
        a.len() == stride_of(w, b) * h,
        d.len() == stride_of(w, b) * h,
        forall|x: int, y: int, c: int|
            0 <= x < w && 0 <= y < h && 0 <= c < b ==> #[trigger] a[pix(stride_of(w, b), b, x, y, c)]
                == d[pix(stride_of(w, b), b, x, y, c)],
        forall|y: int, k: int|
            0 <= y < h && b * w <= k < stride_of(w, b) ==> #[trigger] a[rix(stride_of(w, b), y, k)]
                == d[rix(stride_of(w, b), y, k)],
    ensures
        a == d,
{
    let s = stride_of(w, b);
    lemma_stride_lower_bound(w, b);
    lemma_mul_nonnegative(b, w);
    assert forall|q: int| 0 <= q < a.len() implies a[q] == d[q] by {
        assert(0 < s) by (nonlinear_arith)
            requires
                0 <= s,
                0 <= h,
                0 < s * h,
                q < s * h,
                0 <= q,
        ;
        let (y, k) = lemma_row_decompose(s, h, q);
        if k < b * w {
            let (x, c) = lemma_col_decompose(b, w, k);
            assert(q == pix(s, b, x, y, c));
        } else {
            assert(q == rix(s, y, k));
        }
    }
    assert(a =~= d);
}

/// `dst` is `src` upside down: the dimensions are unchanged and the pixel
/// in column `x`, row `y` moved to column `w - 1 - x`, row `h - 1 - y`;
/// the padding is zero.
pub open spec fn is_rotate180_buf(src: Seq<u8>, w: int, h: int, b: int, dst: Seq<u8>) -> bool {
    let s = stride_of(w, b);
    &&& dst.len() == s * h
    &&& forall|x: int, y: int, c: int|
        0 <= x < w && 0 <= y < h && 0 <= c < b ==> #[trigger] dst[pix(s, b, x, y, c)] == src[pix(
            s,
            b,
            w - 1 - x,
            h - 1 - y,
            c,
        )]
    &&& forall|y: int, k: int|
        0 <= y < h && b * w <= k < s ==> #[trigger] dst[rix(s, y, k)] == 0u8
}

/// `dst` is `src` rotated three quarter turns clockwise, that is a quarter
/// turn counter-clockwise: the dimensions are swapped and the pixel in
/// column `x`, row `y` of the result comes from column `y`, row
/// `h - 1 - x` of the source; the padding is zero.
pub open spec fn is_rotate270_buf(src: Seq<u8>, w: int, h: int, b: int, dst: Seq<u8>) -> bool {
    let ss = stride_of(w, b);
    let sd = stride_of(h, b);
    &&& dst.len() == sd * w
    &&& forall|x: int, y: int, c: int|
        0 <= x < h && 0 <= y < w && 0 <= c < b ==> #[trigger] dst[pix(sd, b, x, y, c)] == src[pix(
            ss,
            b,
            y,
            h - 1 - x,
            c,
        )]
    &&& forall|y: int, k: int|
        0 <= y < w && b * h <= k < sd ==> #[trigger] dst[rix(sd, y, k)] == 0u8
}

/// Two sequential quarter-turn rotations turn the image upside down,
/// pixel for pixel: this is what the half-turn transform is defined to do.
pub proof fn lemma_rotate90_twice(d0: Seq<u8>, d1: Seq<u8>, d2: Seq<u8>, w: int, h: int, b: int)
    requires
        0 < b,
        is_rotate90_buf(d0, w, h, b, d1),
        is_rotate90_buf(d1, h, w, b, d2),
    ensures
        is_rotate180_buf(d0, w, h, b, d2),
{
    let s0 = stride_of(w, b);
    let s1 = stride_of(h, b);
    assert forall|x: int, y: int, c: int|
        0 <= x < w && 0 <= y < h && 0 <= c < b implies #[trigger] d2[pix(s0, b, x, y, c)] == d0[pix(
        s0,
        b,
        w - 1 - x,
        h - 1 - y,
        c,
    )] by {
        assert(d2[pix(s0, b, x, y, c)] == d1[pix(s1, b, h - 1 - y, x, c)]);
        assert(d1[pix(s1, b, h - 1 - y, x, c)] == d0[pix(s0, b, w - 1 - x, h - 1 - y, c)]);
    }
}

/// Rotating a quarter turn clockwise four times restores the original
/// dimensions and every pixel byte; the padding of the result is zero.
pub proof fn lemma_rotate90_cycle(
    d0: Seq<u8>,
    d1: Seq<u8>,
    d2: Seq<u8>,
    d3: Seq<u8>,
    d4: Seq<u8>,
    w: int,
    h: int,
    b: int,
)
    requires
        0 < b,
        is_rotate90_buf(d0, w, h, b, d1),
        is_rotate90_buf(d1, h, w, b, d2),
        is_rotate90_buf(d2, w, h, b, d3),
        is_rotate90_buf(d3, h, w, b, d4),
    ensures
        d4.len() == stride_of(w, b) * h,
        forall|x: int, y: int, c: int|
            0 <= x < w && 0 <= y < h && 0 <= c < b ==> #[trigger] d4[pix(stride_of(w, b), b, x, y, c)]
                == d0[pix(stride_of(w, b), b, x, y, c)],
        forall|y: int, k: int|
            0 <= y < h && b * w <= k < stride_of(w, b) ==> #[trigger] d4[rix(stride_of(w, b), y, k)]
                == 0u8,
{
    let s0 = stride_of(w, b);
    lemma_rotate90_twice(d0, d1, d2, w, h, b);
    lemma_rotate90_twice(d2, d3, d4, w, h, b);
    assert forall|x: int, y: int, c: int|
        0 <= x < w && 0 <= y < h && 0 <= c < b implies #[trigger] d4[pix(s0, b, x, y, c)] == d0[pix(
        s0,
        b,
        x,
        y,
        c,
    )] by {
        assert(d4[pix(s0, b, x, y, c)] == d2[pix(s0, b, w - 1 - x, h - 1 - y, c)]);
        assert(d2[pix(s0, b, w - 1 - x, h - 1 - y, c)] == d0[pix(s0, b, x, y, c)]);
    }
}

/// A buffer whose padding is already zero comes back byte for byte after
/// four quarter-turn rotations.
pub proof fn lemma_rotate90_cycle_exact(
    d0: Seq<u8>,
    d1: Seq<u8>,
    d2: Seq<u8>,
    d3: Seq<u8>,
    d4: Seq<u8>,
    w: int,
    h: int,
    b: int,
)
    requires
        0 < b,
        0 <= w,
        0 <= h,
        is_rotate90_buf(d0, w, h, b, d1),
        is_rotate90_buf(d1, h, w, b, d2),
        is_rotate90_buf(d2, w, h, b, d3),
        is_rotate90_buf(d3, h, w, b, d4),
        d0.len() == stride_of(w, b) * h,
        forall|y: int, k: int|
            0 <= y < h && b * w <= k < stride_of(w, b) ==> #[trigger] d0[rix(stride_of(w, b), y, k)]
                == 0u8,
    ensures
        d4 == d0,
{
    lemma_rotate90_cycle(d0, d1, d2, d3, d4, w, h, b);
    lemma_buf_eq(d4, d0, w, h, b);
}

/// Flipping horizontally twice restores every pixel byte; the padding of
/// the result is zero.
pub proof fn lemma_flip_involution(d0: Seq<u8>, d1: Seq<u8>, d2: Seq<u8>, w: int, h: int, b: int)
    requires
        0 < b,
        is_flip_buf(d0, w, h, b, d1),
        is_flip_buf(d1, w, h, b, d2),
    ensures
        d2.len() == stride_of(w, b) * h,
        forall|x: int, y: int, c: int|
            0 <= x < w && 0 <= y < h && 0 <= c < b ==> #[trigger] d2[pix(stride_of(w, b), b, x, y, c)]
                == d0[pix(stride_of(w, b), b, x, y, c)],
        forall|y: int, k: int|
            0 <= y < h && b * w <= k < stride_of(w, b) ==> #[trigger] d2[rix(stride_of(w, b), y, k)]
                == 0u8,
{
    let s = stride_of(w, b);
    assert forall|x: int, y: int, c: int|
        0 <= x < w && 0 <= y < h && 0 <= c < b implies #[trigger] d2[pix(s, b, x, y, c)] == d0[pix(
        s,
        b,
        x,
        y,
        c,
    )] by {
        assert(d2[pix(s, b, x, y, c)] == d1[pix(s, b, w - 1 - x, y, c)]);
        assert(d1[pix(s, b, w - 1 - x, y, c)] == d0[pix(s, b, x, y, c)]);
    }
}

/// A buffer whose padding is already zero comes back byte for byte after
/// two horizontal flips.
pub proof fn lemma_flip_involution_exact(
    d0: Seq<u8>,
    d1: Seq<u8>,
    d2: Seq<u8>,
    w: int,
    h: int,
    b: int,
)
    requires
        0 < b,
        0 <= w,
        0 <= h,
        is_flip_buf(d0, w, h, b, d1),
        is_flip_buf(d1, w, h, b, d2),
        d0.len() == stride_of(w, b) * h,
        forall|y: int, k: int|
            0 <= y < h && b * w <= k < stride_of(w, b) ==> #[trigger] d0[rix(stride_of(w, b), y, k)]
                == 0u8,
    ensures
        d2 == d0,
{
    lemma_flip_involution(d0, d1, d2, w, h, b);
    lemma_buf_eq(d2, d0, w, h, b);
}

/// Converting to greyscale twice yields the same bytes as converting
/// once: a pixel that is already a neutral grey keeps its value, and the
/// bytes outside the pixels pass through both times.
pub proof fn lemma_grey_idempotent(d0: Seq<u8>, d1: Seq<u8>, d2: Seq<u8>, w: int, h: int)
    requires
        0 <= w,
        0 <= h,
        is_grey_buf(d0, w, h, d1),
        is_grey_buf(d1, w, h, d2),
    ensures
        d2 == d1,
{
    let s = stride_of(w, 3);
    lemma_stride_lower_bound(w, 3);
    lemma_mul_nonnegative(3, w);
    assert forall|q: int| 0 <= q < d1.len() implies d1[q] == d2[q] by {
        if q < s * h {
            assert(0 < s) by (nonlinear_arith)
                requires
                    0 <= s,
                    0 <= h,
                    0 <= q < s * h,
            ;
            let (y, k) = lemma_row_decompose(s, h, q);
            if k < 3 * w {
                let (x, c) = lemma_col_decompose(3, w, k);
                assert(grey_pixel(d0, d1, s, x, y));
                assert(grey_pixel(d1, d2, s, x, y));
                let v = d1[pix(s, 3, x, y, 0)];
                assert(d1[pix(s, 3, x, y, 1)] == v && d1[pix(s, 3, x, y, 2)] == v);
                crate::bmp::utils::lemma_luma_fixed_point(v);
                assert(q == pix(s, 3, x, y, c));
            } else {
                assert(q == rix(s, y, k));
                assert(d1[rix(s, y, k)] == d0[rix(s, y, k)]);
                assert(d2[rix(s, y, k)] == d1[rix(s, y, k)]);
            }
        }
    }
    assert(d1 =~= d2);
}

/// Three sequential quarter-turn rotations amount to a quarter turn
/// counter-clockwise, pixel for pixel.
pub proof fn lemma_rotate90_thrice(
    d0: Seq<u8>,
    d1: Seq<u8>,
    d2: Seq<u8>,
    d3: Seq<u8>,
    w: int,
    h: int,
    b: int,
)
    requires
        0 < b,
        is_rotate90_buf(d0, w, h, b, d1),
        is_rotate90_buf(d1, h, w, b, d2),
        is_rotate90_buf(d2, w, h, b, d3),
    ensures
        is_rotate270_buf(d0, w, h, b, d3),
{
    lemma_rotate90_twice(d0, d1, d2, w, h, b);
    let s0 = stride_of(w, b);
    let s1 = stride_of(h, b);
    assert forall|x: int, y: int, c: int|
        0 <= x < h && 0 <= y < w && 0 <= c < b implies #[trigger] d3[pix(s1, b, x, y, c)] == d0[pix(
        s0,
        b,
        y,
        h - 1 - x,
        c,
    )] by {
        assert(d3[pix(s1, b, x, y, c)] == d2[pix(s0, b, w - 1 - y, x, c)]);
        assert(d2[pix(s0, b, w - 1 - y, x, c)] == d0[pix(s0, b, y, h - 1 - x, c)]);
    }
}

} // verus!
