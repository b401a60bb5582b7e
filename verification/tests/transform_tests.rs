use bumpy::bmp::error::BmpError;
use bumpy::bmp::Bmp;

fn push_u32(out: &mut Vec<u8>, v: u32) {
    for b in v.to_le_bytes() {
        out.push(b);
    }
}

fn push_u16(out: &mut Vec<u8>, v: u16) {
    for b in v.to_le_bytes() {
        out.push(b);
    }
}

/// A complete stream: both headers, a palette and the pixel bytes.
fn stream(
    width: u32,
    height: u32,
    bits_per_px: u16,
    palette: &[(u8, u8, u8, u8)],
    pixels: &[u8],
) -> Vec<u8> {
    let data_offset = 54 + 4 * palette.len() as u32;
    let file_size = data_offset + pixels.len() as u32;
    let mut out = Vec::new();
    out.push(66);
    out.push(77);
    push_u32(&mut out, file_size);
    push_u32(&mut out, 0);
    push_u32(&mut out, data_offset);
    push_u32(&mut out, 40);
    push_u32(&mut out, width);
    push_u32(&mut out, height);
    push_u16(&mut out, 1);
    push_u16(&mut out, bits_per_px);
    push_u32(&mut out, 0);
    push_u32(&mut out, 0);
    push_u32(&mut out, 0);
    push_u32(&mut out, 0);
    push_u32(&mut out, palette.len() as u32);
    push_u32(&mut out, 0);
    for q in palette {
        out.push(q.0);
        out.push(q.1);
        out.push(q.2);
        out.push(q.3);
    }
    out.extend_from_slice(pixels);
    out
}

/// A 24-bit two-by-one document: pixel (0,0) = (1,2,3), pixel (1,0) =
/// (4,5,6), two padding bytes per row.
fn two_by_one() -> Bmp {
    Bmp::decode(&stream(2, 1, 24, &[], &[1, 2, 3, 4, 5, 6, 0, 0])).unwrap()
}

#[test]
fn rotate_90_two_by_one() {
    let mut d = two_by_one();
    assert_eq!(d.rotate_90(), Ok(()));
    assert_eq!(d.info_header.width, 1);
    assert_eq!(d.info_header.height, 2);
    // New stride roundUp4(3) = 4; bottom row holds the old right pixel.
    assert_eq!(d.pixel_data.data, vec![4, 5, 6, 0, 1, 2, 3, 0]);
}

#[test]
fn rotate_90_8_bit() {
    // 2 by 2 indexed pixels 1,2 (bottom row) and 3,4 (top row), stride 4.
    let palette = [(0, 0, 0, 0), (10, 10, 10, 0), (20, 20, 20, 0), (30, 30, 30, 0), (
        40,
        40,
        40,
        0,
    )];
    let mut d = Bmp::decode(&stream(2, 2, 8, &palette, &[1, 2, 0, 0, 3, 4, 0, 0])).unwrap();
    assert_eq!(d.rotate_90(), Ok(()));
    assert_eq!(d.info_header.width, 2);
    assert_eq!(d.info_header.height, 2);
    // Destination rows read the source columns right to left.
    assert_eq!(d.pixel_data.data, vec![2, 4, 0, 0, 1, 3, 0, 0]);
    // The palette rides along unchanged.
    assert_eq!(d.colour_table.data.len(), 5);
}

#[test]
fn rotate_180_two_by_one() {
    let mut d = two_by_one();
    assert_eq!(d.rotate_180(), Ok(()));
    assert_eq!(d.info_header.width, 2);
    assert_eq!(d.info_header.height, 1);
    assert_eq!(d.pixel_data.data, vec![4, 5, 6, 1, 2, 3, 0, 0]);
}

#[test]
fn rotate_180_equals_two_quarter_turns() {
    let mut once = two_by_one();
    let mut twice = once.clone();
    assert_eq!(once.rotate_180(), Ok(()));
    assert_eq!(twice.rotate_90(), Ok(()));
    assert_eq!(twice.rotate_90(), Ok(()));
    assert_eq!(once.pixel_data.data, twice.pixel_data.data);
    assert_eq!(once.info_header.width, twice.info_header.width);
    assert_eq!(once.info_header.height, twice.info_header.height);
}

#[test]
fn rotate_270_equals_three_quarter_turns() {
    let mut direct = two_by_one();
    let mut stepped = direct.clone();
    assert_eq!(direct.rotate_270(), Ok(()));
    for _ in 0..3 {
        assert_eq!(stepped.rotate_90(), Ok(()));
    }
    assert_eq!(direct.pixel_data.data, stepped.pixel_data.data);
    assert_eq!(direct.info_header.width, 1);
    assert_eq!(direct.info_header.height, 2);
    // Pixel (x, y) of the result comes from column y, row h-1-x of the
    // original: the single column now reads left pixel above right pixel.
    assert_eq!(direct.pixel_data.data, vec![1, 2, 3, 0, 4, 5, 6, 0]);
}

#[test]
fn rotate_cycle_restores_document() {
    let original = Bmp::new(3, 2);
    let mut d = original.clone();
    for _ in 0..4 {
        assert_eq!(d.rotate_90(), Ok(()));
    }
    assert_eq!(d.info_header.width, 3);
    assert_eq!(d.info_header.height, 2);
    assert_eq!(d.pixel_data.data, original.pixel_data.data);
}

#[test]
fn rotate_cycle_on_decoded_pixels() {
    // Distinct pixel values, zero padding, 2 by 2, stride 8.
    let bytes = [1, 2, 3, 4, 5, 6, 0, 0, 7, 8, 9, 10, 11, 12, 0, 0];
    let original = Bmp::decode(&stream(2, 2, 24, &[], &bytes)).unwrap();
    let mut d = original.clone();
    for _ in 0..4 {
        assert_eq!(d.rotate_90(), Ok(()));
    }
    assert_eq!(d.pixel_data.data, original.pixel_data.data);
}

#[test]
fn flip_reverses_rows() {
    let mut d = two_by_one();
    assert_eq!(d.flip_hor(), Ok(()));
    assert_eq!(d.info_header.width, 2);
    assert_eq!(d.info_header.height, 1);
    assert_eq!(d.pixel_data.data, vec![4, 5, 6, 1, 2, 3, 0, 0]);
}

#[test]
fn flip_regenerates_padding_as_zero() {
    // Junk in the two padding bytes of the single row.
    let mut d = Bmp::decode(&stream(2, 1, 24, &[], &[1, 2, 3, 4, 5, 6, 9, 9])).unwrap();
    assert_eq!(d.flip_hor(), Ok(()));
    assert_eq!(d.pixel_data.data, vec![4, 5, 6, 1, 2, 3, 0, 0]);
}

#[test]
fn flip_twice_restores_pixels() {
    // The source padding is junk; two flips restore the pixels exactly and
    // leave all-zero regenerated padding both times.
    let mut d = Bmp::decode(&stream(2, 1, 24, &[], &[1, 2, 3, 4, 5, 6, 9, 9])).unwrap();
    assert_eq!(d.flip_hor(), Ok(()));
    assert_eq!(d.flip_hor(), Ok(()));
    assert_eq!(d.pixel_data.data, vec![1, 2, 3, 4, 5, 6, 0, 0]);
}

#[test]
fn greyscale_exact_pixel() {
    // One pixel, blue 10, green 20, red 30: luma 22; the padding byte stays.
    let mut d = Bmp::decode(&stream(1, 1, 24, &[], &[10, 20, 30, 9])).unwrap();
    assert_eq!(d.to_greyscale(), Ok(()));
    assert_eq!(d.pixel_data.data, vec![22, 22, 22, 9]);
}

#[test]
fn greyscale_applied_twice_equals_once() {
    let bytes = [10, 20, 30, 40, 50, 60, 9, 9, 70, 80, 90, 100, 110, 120, 9, 9];
    let mut d = Bmp::decode(&stream(2, 2, 24, &[], &bytes)).unwrap();
    assert_eq!(d.to_greyscale(), Ok(()));
    let after_once = d.pixel_data.data.clone();
    assert_eq!(d.to_greyscale(), Ok(()));
    assert_eq!(d.pixel_data.data, after_once);
}

#[test]
fn greyscale_rejects_8_bit() {
    let palette = [(1, 2, 3, 4), (5, 6, 7, 8)];
    let mut d = Bmp::decode(&stream(2, 1, 8, &palette, &[0, 1, 0, 0])).unwrap();
    let before = d.pixel_data.data.clone();
    assert_eq!(d.to_greyscale(), Err(BmpError::UnsupportedBitDepth));
    assert_eq!(d.pixel_data.data, before);
    assert_eq!(d.info_header.width, 2);
    assert_eq!(d.info_header.height, 1);
}

#[test]
fn transforms_reject_short_buffer() {
    // 2 by 2 needs 16 pixel bytes; only 5 arrive.
    let mut d = Bmp::decode(&stream(2, 2, 24, &[], &[9, 9, 9, 9, 9])).unwrap();
    let before = d.pixel_data.data.clone();
    assert_eq!(d.rotate_90(), Err(BmpError::ShortPixelBuffer));
    assert_eq!(d.rotate_180(), Err(BmpError::ShortPixelBuffer));
    assert_eq!(d.rotate_270(), Err(BmpError::ShortPixelBuffer));
    assert_eq!(d.flip_hor(), Err(BmpError::ShortPixelBuffer));
    assert_eq!(d.to_greyscale(), Err(BmpError::ShortPixelBuffer));
    assert_eq!(d.pixel_data.data, before);
    assert_eq!(d.info_header.width, 2);
    assert_eq!(d.info_header.height, 2);
}

#[test]
fn transform_rejects_unsupported_depth_in_mutated_document() {
    // The fields are public; a caller can put the document in a state the
    // decoder would never produce, and the transforms still refuse it.
    let mut d = Bmp::new(1, 1);
    d.info_header.bits_per_px = 16;
    let before = d.pixel_data.data.clone();
    assert_eq!(d.rotate_90(), Err(BmpError::UnsupportedBitDepth));
    assert_eq!(d.rotate_180(), Err(BmpError::UnsupportedBitDepth));
    assert_eq!(d.rotate_270(), Err(BmpError::UnsupportedBitDepth));
    assert_eq!(d.flip_hor(), Err(BmpError::UnsupportedBitDepth));
    assert_eq!(d.to_greyscale(), Err(BmpError::UnsupportedBitDepth));
    assert_eq!(d.pixel_data.data, before);
}

#[test]
fn clone_is_a_deep_copy() {
    let original = Bmp::new(2, 2);
    let mut copy = original.clone();
    assert_eq!(copy.to_greyscale(), Ok(()));
    // The transform of the copy leaves the original untouched.
    assert_eq!(original.pixel_data.data[0], 100);
    assert_ne!(copy.pixel_data.data[0], 100);
}

#[test]
fn transformed_document_round_trips() {
    let mut d = Bmp::new(3, 2);
    assert_eq!(d.rotate_90(), Ok(()));
    let back = Bmp::decode(&d.encode()).unwrap();
    assert_eq!(back.info_header.width, 2);
    assert_eq!(back.info_header.height, 3);
    assert_eq!(back.pixel_data.data, d.pixel_data.data);
    // The encoder recomputed the file size for the rotated buffer.
    assert_eq!(back.header.file_size, 54 + back.pixel_data.data.len() as u32);
}
