//! The raw pixel buffer: bottom-up scanlines, each padded with zero bytes
//! to a stride that is a multiple of four.

use vstd::prelude::*;
use vstd::slice::{slice_subrange, slice_to_vec};
use crate::bmp::utils::{
    lemma_pix_bound, lemma_rix_bound,
    lemma_stride_lower_bound, pix, rix, stride_of, stride_val,
};

verus! {

/// The row-padded pixel bytes of a document, exactly as they appear on
/// disk between the data offset and the end of the file.
pub struct BmpPixelData {
    pub data: Vec<u8>,
}

/// The channel bytes of the solid fill colour a fresh document is painted
/// with: blue 100, green 50, red 25 in on-disk order.
pub open spec fn fill_byte(c: int) -> u8 {
    if c == 0 {
        100u8
    } else if c == 1 {
        50u8
    } else {
        25u8
    }
}

/// The pixel bytes a decode of `bytes` yields: everything from the data
/// offset to the end of the stream, or nothing when the offset lies beyond
/// it. The length is not validated here; a buffer shorter than stride
/// times height is a degraded state the document exposes to its caller.
pub open spec fn spec_pixel_decode(bytes: Seq<u8>, data_offset: u32) -> Seq<u8> {
    if data_offset as int <= bytes.len() {
        bytes.skip(data_offset as int)
    } else {
        Seq::empty()
    }
}

impl BmpPixelData {
    /// The pixel buffer of a fresh 24-bit document: `height` rows, each
    /// `width` repetitions of the fill colour followed by zero padding up
    /// to the stride.
    pub fn new(width: u32, height: u32) -> (p: BmpPixelData)
        ensures
            p.data@.len() == stride_of(width as int, 3) * (height as int),
            forall|x: int, y: int, c: int|
                0 <= x < width as int && 0 <= y < height as int && 0 <= c < 3 ==> p.data@[pix(
                    stride_of(width as int, 3),
                    3,
                    x,
                    y,
                    c,
                )] == fill_byte(c),
            forall|y: int, k: int|
                0 <= y < height as int && 3 * (width as int) <= k < stride_of(width as int, 3)
                    ==> p.data@[rix(stride_of(width as int, 3), y, k)] == 0u8,
    {
        let ghost s = stride_of(width as int, 3);
        let ghost w = width as int;
        let stride: u64 = stride_val(width, 3);
        proof {
            lemma_stride_lower_bound(width as int, 3);
        }
        let pad: u64 = stride - 3 * (width as u64);
        let mut data: Vec<u8> = Vec::new();
        let mut j: u32 = 0;
        #[verifier::loop_isolation(false)]
        while j < height
            invariant
                j <= height,
                data@.len() == (j as int) * s,
                0 <= (j as int) * s,
                forall|x: int, y: int, c: int|
                    0 <= x < w && 0 <= y < j as int && 0 <= c < 3 ==> 0 <= #[trigger] pix(
                        s,
                        3,
                        x,
                        y,
                        c,
                    ) < (j as int) * s,
                forall|x: int, y: int, c: int|
                    0 <= x < w && 0 <= y < j as int && 0 <= c < 3 ==> data@[pix(s, 3, x, y, c)]
                        == fill_byte(c),
                forall|y: int, k: int|
                    0 <= y < j as int && 3 * w <= k < s ==> 0 <= #[trigger] rix(s, y, k) < (
                    j as int) * s,
                forall|y: int, k: int|
                    0 <= y < j as int && 3 * w <= k < s ==> data@[rix(s, y, k)] == 0u8,
            decreases height - j,
        {
            let mut i: u32 = 0;
            #[verifier::loop_isolation(false)]
            while i < width
                invariant
                    i <= width,
                    data@.len() == (j as int) * s + 3 * (i as int),
                    forall|x: int, y: int, c: int|
                        0 <= x < w && 0 <= y < j as int && 0 <= c < 3 ==> data@[pix(s, 3, x, y, c)]
                            == fill_byte(c),
                    forall|y: int, k: int|
                        0 <= y < j as int && 3 * w <= k < s ==> data@[rix(s, y, k)] == 0u8,
                    forall|x: int, c: int|
                        0 <= x < i as int && 0 <= c < 3 ==> data@[pix(s, 3, x, j as int, c)]
                            == fill_byte(c),
                decreases width - i,
            {
                data.push(100);
                data.push(50);
                data.push(25);
                i = i + 1;
            }
            let mut t: u64 = 0;
            #[verifier::loop_isolation(false)]
            while t < pad
                invariant
                    t <= pad,
                    data@.len() == (j as int) * s + 3 * w + t as int,
                    forall|x: int, y: int, c: int|
                        0 <= x < w && 0 <= y < j as int && 0 <= c < 3 ==> data@[pix(s, 3, x, y, c)]
                            == fill_byte(c),
                    forall|y: int, k: int|
                        0 <= y < j as int && 3 * w <= k < s ==> data@[rix(s, y, k)] == 0u8,
                    forall|x: int, c: int|
                        0 <= x < w && 0 <= c < 3 ==> data@[pix(s, 3, x, j as int, c)] == fill_byte(
                            c,
                        ),
                    forall|k: int|
                        3 * w <= k < 3 * w + t as int ==> data@[rix(s, j as int, k)] == 0u8,
                decreases pad - t,
            {
                data.push(0);
                t = t + 1;
            }
            proof {
                let next = j as int + 1;
                assert(data@.len() == next * s && 0 <= next * s) by (nonlinear_arith)
                    requires
                        data@.len() == (j as int) * s + 3 * w + (s - 3 * w),
                        next == j as int + 1,
                        0 <= (j as int) * s,
                        0 <= s,
                ;
                assert forall|x: int, y: int, c: int|
                    0 <= x < w && 0 <= y < next && 0 <= c < 3 implies 0 <= #[trigger] pix(
                    s,
                    3,
                    x,
                    y,
                    c,
                ) < next * s by {
                    lemma_pix_bound(s, 3, w, next, x, y, c);
                    assert(s * next == next * s) by (nonlinear_arith);
                }
                assert forall|y: int, k: int|
                    0 <= y < next && 3 * w <= k < s implies 0 <= #[trigger] rix(s, y, k) < next
                    * s by {
                    lemma_rix_bound(s, next, y, k);
                    assert(s * next == next * s) by (nonlinear_arith);
                }
                assert forall|x: int, y: int, c: int|
                    0 <= x < w && 0 <= y < next && 0 <= c < 3 implies data@[pix(s, 3, x, y, c)]
                    == fill_byte(c) by {
                    if y == j as int {
                        assert(pix(s, 3, x, y, c) == pix(s, 3, x, j as int, c));
                    }
                }
                assert forall|y: int, k: int|
                    0 <= y < next && 3 * w <= k < s implies data@[rix(s, y, k)] == 0u8 by {
                    if y == j as int {
                        assert(rix(s, y, k) == rix(s, j as int, k));
                    }
                }
            }
            j = j + 1;
        }
        proof {
            vstd::arithmetic::mul::lemma_mul_is_commutative(height as int, s);
        }
        BmpPixelData { data }
    }

    /// Copies everything from the data offset to the end of the stream.
    /// An offset beyond the end yields an empty buffer; a buffer shorter
    /// than the dimensions imply is tolerated here and surfaces later as a
    /// shortfall the caller can inspect.
    pub fn decode(bytes: &[u8], data_offset: u32) -> (p: BmpPixelData)
        ensures
            p.data@ == spec_pixel_decode(bytes@, data_offset),
    {
        let n = bytes.len();
        if (data_offset as u64) <= (n as u64) {
            let tail = slice_subrange(bytes, data_offset as usize, n);
            let data = slice_to_vec(tail);
            proof {
                assert(data@ =~= spec_pixel_decode(bytes@, data_offset));
            }
            BmpPixelData { data }
        } else {
            BmpPixelData { data: Vec::new() }
        }
    }

    /// Appends the pixel buffer to `out` verbatim.
    pub fn encode_into(&self, out: &mut Vec<u8>)
        ensures
            final(out)@ == old(out)@ + self.data@,
    {
        let n = self.data.len();
        let mut i: usize = 0;
        while i < n
            invariant
                i <= n,
                n == self.data@.len(),
                out@ == old(out)@ + self.data@.take(i as int),
            decreases n - i,
        {
            out.push(self.data[i]);
            proof {
                assert(out@ =~= old(out)@ + self.data@.take(i as int + 1));
            }
            i = i + 1;
        }
        proof {
            assert(self.data@.take(n as int) =~= self.data@);
        }
    }
}

impl Clone for BmpPixelData {
    /// Deep-copies the pixel bytes: the clone shares no storage with the
    /// original.
    fn clone(&self) -> (r: Self)
        ensures
            r.data@ == self.data@,
    {
        BmpPixelData { data: slice_to_vec(self.data.as_slice()) }
    }
}

} // verus!
