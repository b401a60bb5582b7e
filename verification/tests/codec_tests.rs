use bumpy::bmp::bmp_colour_table::BmpColourTable;
use bumpy::bmp::bmp_header::BmpHeader;
use bumpy::bmp::bmp_info_header::BmpInfoHeader;
use bumpy::bmp::bmp_pixel_data::BmpPixelData;
use bumpy::bmp::error::BmpError;
use bumpy::bmp::utils::{rgb_to_greyscale, round_up_to_multiple_of_four};
use bumpy::bmp::Bmp;

fn push_u32(out: &mut Vec<u8>, v: u32) {
    for b in v.to_le_bytes() {
        out.push(b);
    }
}

fn push_u16(out: &mut Vec<u8>, v: u16) {
    for b in v.to_le_bytes() {
        out.push(b);
    }
}

/// A 54-byte stream of both headers, ready for a palette and pixels to be
/// appended.
fn headers(
    file_size: u32,
    data_offset: u32,
    width: u32,
    height: u32,
    bits_per_px: u16,
    compression: u32,
    colours_used: u32,
) -> Vec<u8> {
    let mut out = Vec::new();
    out.push(66);
    out.push(77);
    push_u32(&mut out, file_size);
    push_u32(&mut out, 0);
    push_u32(&mut out, data_offset);
    push_u32(&mut out, 40);
    push_u32(&mut out, width);
    push_u32(&mut out, height);
    push_u16(&mut out, 1);
    push_u16(&mut out, bits_per_px);
    push_u32(&mut out, compression);
    push_u32(&mut out, 0);
    push_u32(&mut out, 0);
    push_u32(&mut out, 0);
    push_u32(&mut out, colours_used);
    push_u32(&mut out, 0);
    out
}

fn assert_docs_equal(a: &Bmp, b: &Bmp) {
    assert_eq!(a.header.signature, b.header.signature);
    assert_eq!(a.header.file_size, b.header.file_size);
    assert_eq!(a.header.reserved, b.header.reserved);
    assert_eq!(a.header.data_offset, b.header.data_offset);
    assert_eq!(a.info_header.size, b.info_header.size);
    assert_eq!(a.info_header.width, b.info_header.width);
    assert_eq!(a.info_header.height, b.info_header.height);
    assert_eq!(a.info_header.planes, b.info_header.planes);
    assert_eq!(a.info_header.bits_per_px, b.info_header.bits_per_px);
    assert_eq!(a.info_header.compression, b.info_header.compression);
    assert_eq!(a.info_header.image_size, b.info_header.image_size);
    assert_eq!(a.info_header.x_per_m, b.info_header.x_per_m);
    assert_eq!(a.info_header.y_per_m, b.info_header.y_per_m);
    assert_eq!(a.info_header.colours_used, b.info_header.colours_used);
    assert_eq!(a.info_header.important_colours, b.info_header.important_colours);
    assert_eq!(a.colour_table.data, b.colour_table.data);
    assert_eq!(a.pixel_data.data, b.pixel_data.data);
}

#[test]
fn stride_of_width_three_is_twelve() {
    assert_eq!(round_up_to_multiple_of_four(9), 12);
}

#[test]
fn stride_of_width_four_is_twelve() {
    assert_eq!(round_up_to_multiple_of_four(12), 12);
}

#[test]
fn round_up_keeps_multiples_and_zero() {
    assert_eq!(round_up_to_multiple_of_four(0), 0);
    assert_eq!(round_up_to_multiple_of_four(1), 4);
    assert_eq!(round_up_to_multiple_of_four(5), 8);
    assert_eq!(round_up_to_multiple_of_four(8), 8);
}

#[test]
fn greyscale_of_fill_colour() {
    // blue 100, green 50, red 25: luma = round(0.299*25 + 0.587*50 + 0.114*100)
    // = round(48.225) = 48.
    let (b, g, r) = rgb_to_greyscale((100, 50, 25));
    assert_eq!(b, 48);
    assert_eq!(g, b);
    assert_eq!(r, b);
}

#[test]
fn greyscale_of_grey_is_itself() {
    assert_eq!(rgb_to_greyscale((7, 7, 7)), (7, 7, 7));
    assert_eq!(rgb_to_greyscale((0, 0, 0)), (0, 0, 0));
    assert_eq!(rgb_to_greyscale((255, 255, 255)), (255, 255, 255));
}

#[test]
fn greyscale_exact_value() {
    // blue 10, green 20, red 30: (299*30 + 587*20 + 114*10 + 500) / 1000 = 22.
    assert_eq!(rgb_to_greyscale((10, 20, 30)), (22, 22, 22));
}

#[test]
fn create_three_by_two_pixel_buffer() {
    let d = Bmp::new(3, 2);
    let row = [100u8, 50, 25, 100, 50, 25, 100, 50, 25, 0, 0, 0];
    let mut expected = Vec::new();
    expected.extend_from_slice(&row);
    expected.extend_from_slice(&row);
    assert_eq!(d.pixel_data.data.len(), 24);
    assert_eq!(d.pixel_data.data, expected);
}

#[test]
fn create_header_fields() {
    let d = Bmp::new(3, 2);
    assert_eq!(d.header.signature, (66, 77));
    assert_eq!(d.header.file_size, 54 + 24);
    assert_eq!(d.header.reserved, 0);
    assert_eq!(d.header.data_offset, 54);
    assert_eq!(d.info_header.size, 40);
    assert_eq!(d.info_header.width, 3);
    assert_eq!(d.info_header.height, 2);
    assert_eq!(d.info_header.planes, 1);
    assert_eq!(d.info_header.bits_per_px, 24);
    assert_eq!(d.info_header.compression, 0);
    assert_eq!(d.info_header.colours_used, 0);
    assert!(d.colour_table.data.is_empty());
    assert_eq!(d.pixel_shortfall(), 0);
}

#[test]
fn component_constructors() {
    let h = BmpHeader::new(1, 1);
    assert_eq!(h.signature, (66, 77));
    assert_eq!(h.file_size, 54 + 4);
    assert_eq!(h.data_offset, 54);
    let ih = BmpInfoHeader::new(5, 6);
    assert_eq!(ih.size, 40);
    assert_eq!(ih.width, 5);
    assert_eq!(ih.height, 6);
    assert_eq!(ih.planes, 1);
    assert_eq!(ih.bits_per_px, 24);
    let t = BmpColourTable::new();
    assert!(t.data.is_empty());
    let p = BmpPixelData::new(1, 1);
    assert_eq!(p.data, vec![100, 50, 25, 0]);
}

#[test]
fn encode_exact_bytes() {
    let d = Bmp::new(1, 1);
    let bytes = d.encode();
    let mut expected = headers(58, 54, 1, 1, 24, 0, 0);
    expected.extend_from_slice(&[100, 50, 25, 0]);
    assert_eq!(bytes, expected);
}

#[test]
fn round_trip_of_created_document() {
    let d = Bmp::new(3, 2);
    let bytes = d.encode();
    let back = Bmp::decode(&bytes).expect("a created document must decode back");
    assert_docs_equal(&d, &back);
}

#[test]
fn round_trip_of_decoded_8_bit_document() {
    // An 8-bit stream with a two-entry palette and one row of two pixels.
    let mut stream = headers(0, 62, 2, 1, 8, 0, 2);
    stream.extend_from_slice(&[1, 2, 3, 4]);
    stream.extend_from_slice(&[5, 6, 7, 8]);
    stream.extend_from_slice(&[0, 1, 0, 0]);
    let first = Bmp::decode(&stream).expect("valid 8-bit stream");
    // The stream's file size field was zero; the encoder fixes it, and from
    // then on the document is a fixed point of decode(encode(..)).
    let second = Bmp::decode(&first.encode()).expect("re-decode");
    let third = Bmp::decode(&second.encode()).expect("re-re-decode");
    assert_eq!(second.header.file_size, 62 + 4);
    assert_docs_equal(&second, &third);
}

#[test]
fn decode_8_bit_palette_and_pixels() {
    let mut stream = headers(66, 62, 2, 1, 8, 0, 2);
    stream.extend_from_slice(&[1, 2, 3, 4]);
    stream.extend_from_slice(&[5, 6, 7, 8]);
    stream.extend_from_slice(&[0, 1, 0, 0]);
    let d = Bmp::decode(&stream).expect("valid 8-bit stream");
    assert_eq!(d.info_header.bits_per_px, 8);
    assert_eq!(d.colour_table.data, vec![(1, 2, 3, 4), (5, 6, 7, 8)]);
    assert_eq!(d.pixel_data.data, vec![0, 1, 0, 0]);
    assert_eq!(d.pixel_shortfall(), 0);
}

#[test]
fn decode_bad_signature() {
    let mut stream = headers(58, 54, 1, 1, 24, 0, 0);
    stream[0] = 0;
    stream[1] = 0;
    assert!(matches!(Bmp::decode(&stream), Err(BmpError::BadSignature)));
}

#[test]
fn decode_bad_signature_two_bytes_only() {
    assert!(matches!(Bmp::decode(&[0, 0]), Err(BmpError::BadSignature)));
}

#[test]
fn decode_truncated_header() {
    assert!(matches!(Bmp::decode(&[]), Err(BmpError::TruncatedHeader)));
    assert!(matches!(Bmp::decode(&[66]), Err(BmpError::TruncatedHeader)));
    assert!(matches!(Bmp::decode(&[66, 77, 1, 2, 3]), Err(BmpError::TruncatedHeader)));
    let stream = headers(58, 54, 1, 1, 24, 0, 0);
    assert!(matches!(Bmp::decode(&stream[..53]), Err(BmpError::TruncatedHeader)));
}

#[test]
fn decode_unsupported_bit_depth() {
    let stream = headers(54, 54, 1, 1, 16, 0, 0);
    assert!(matches!(Bmp::decode(&stream), Err(BmpError::UnsupportedBitDepth)));
    // The bit depth is validated before the compression field.
    let stream = headers(54, 54, 1, 1, 16, 1, 0);
    assert!(matches!(Bmp::decode(&stream), Err(BmpError::UnsupportedBitDepth)));
}

#[test]
fn decode_unsupported_compression() {
    let stream = headers(54, 54, 1, 1, 24, 1, 0);
    assert!(matches!(Bmp::decode(&stream), Err(BmpError::UnsupportedCompression)));
}

#[test]
fn decode_truncated_palette() {
    // 8-bit with two announced palette entries but no palette bytes.
    let stream = headers(54, 62, 2, 1, 8, 0, 2);
    assert!(matches!(Bmp::decode(&stream), Err(BmpError::TruncatedHeader)));
}

#[test]
fn decode_short_pixel_buffer_is_tolerated() {
    // 24-bit, 2 by 2: stride 8, so 16 pixel bytes expected; only 5 present.
    let mut stream = headers(70, 54, 2, 2, 24, 0, 0);
    stream.extend_from_slice(&[9, 9, 9, 9, 9]);
    let d = Bmp::decode(&stream).expect("a short pixel buffer does not fail the decode");
    assert_eq!(d.pixel_data.data.len(), 5);
    assert_eq!(d.pixel_shortfall(), 11);
}

#[test]
fn decode_data_offset_beyond_stream() {
    let stream = headers(54, 1000, 1, 1, 24, 0, 0);
    let d = Bmp::decode(&stream).expect("decode still succeeds");
    assert!(d.pixel_data.data.is_empty());
    assert_eq!(d.pixel_shortfall(), 4);
}

#[test]
fn error_descriptions() {
    assert_eq!(
        BmpError::BadSignature.describe(),
        "the stream does not start with the BM signature"
    );
    assert_eq!(
        BmpError::TruncatedHeader.describe(),
        "the stream ends inside the headers or the palette"
    );
    assert_eq!(
        BmpError::UnsupportedBitDepth.describe(),
        "only 8 and 24 bits per pixel are supported"
    );
    assert_eq!(
        BmpError::UnsupportedCompression.describe(),
        "only uncompressed pixel data is supported"
    );
    assert_eq!(
        BmpError::ShortPixelBuffer.describe(),
        "the pixel buffer is shorter than stride times height"
    );
}
