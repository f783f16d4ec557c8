use render_opengraph::error::RenderError;
use render_opengraph::nouns::{Color, DecodedImage};

#[test]
fn decode_reads_header_and_runs() {
    // Prefix "00", header bytes 0x01, 0x02, 0x20, 0x1f, 0x03 in the order
    // palette hint, top, right, bottom, left, then two runs.
    let img = DecodedImage::decode("000102201f032a004105").unwrap();
    assert_eq!(img.palette_index, 0x01);
    assert_eq!(img.bounds.top, 0x02);
    assert_eq!(img.bounds.right, 0x20);
    assert_eq!(img.bounds.bottom, 0x1f);
    assert_eq!(img.bounds.left, 0x03);
    assert_eq!(img.rects.len(), 2);
    assert_eq!(img.rects[0].length, 0x2a);
    assert_eq!(img.rects[0].color_index, 0x00);
    assert_eq!(img.rects[1].length, 0x41);
    assert_eq!(img.rects[1].color_index, 0x05);
}

#[test]
fn decode_accepts_upper_and_lower_hex() {
    let img = DecodedImage::decode("000000FF7f00").unwrap();
    assert_eq!(img.bounds.right, 0xFF);
    assert_eq!(img.bounds.bottom, 0x7f);
    assert_eq!(img.rects.len(), 0);
}

#[test]
fn decode_rejects_non_hex_payload() {
    assert_eq!(
        DecodedImage::decode("00zz00000000").unwrap_err(),
        RenderError::MalformedHex
    );
}

#[test]
fn decode_rejects_odd_payload() {
    assert_eq!(
        DecodedImage::decode("000000000000f").unwrap_err(),
        RenderError::MalformedHex
    );
}

#[test]
fn decode_rejects_short_stream() {
    // Only four bytes after the prefix.
    assert_eq!(
        DecodedImage::decode("0000000000").unwrap_err(),
        RenderError::TooShort
    );
}

#[test]
fn decode_rejects_odd_trailing_bytes() {
    // Five header bytes and a single dangling run byte.
    assert_eq!(
        DecodedImage::decode("00000020200020").unwrap_err(),
        RenderError::OddTrailingBytes
    );
}

#[test]
fn decode_rejects_reversed_horizontal_bounds() {
    // right = 0x00 while left = 0x20.
    assert_eq!(
        DecodedImage::decode("000000002020").unwrap_err(),
        RenderError::BoundsOutOfOrder
    );
}

#[test]
fn decode_rejects_reversed_vertical_bounds() {
    // bottom = 0x00 while top = 0x20.
    assert_eq!(
        DecodedImage::decode("000020200000").unwrap_err(),
        RenderError::BoundsOutOfOrder
    );
}

#[test]
fn decoded_bounds_are_ordered() {
    let img = DecodedImage::decode("0000002020001e011f02").unwrap();
    assert!(img.bounds.left <= img.bounds.right);
    assert!(img.bounds.top <= img.bounds.bottom);
    assert_eq!(img.bounds.width(), 0x20);
    assert_eq!(img.bounds.height(), 0x20);
}

#[test]
fn color_parse_empty_is_transparent() {
    let c = Color::parse("").unwrap();
    assert!(c.0.is_none());
}

#[test]
fn color_parse_reads_channels() {
    let c = Color::parse("aabbcc").unwrap();
    let rgb = c.0.unwrap();
    assert_eq!(rgb.r, 0xaa);
    assert_eq!(rgb.g, 0xbb);
    assert_eq!(rgb.b, 0xcc);
}

#[test]
fn color_parse_rejects_non_hex() {
    assert_eq!(
        Color::parse("xyzxyz").unwrap_err(),
        RenderError::CatalogDeserializationFailure
    );
}

#[test]
fn color_parse_rejects_wrong_length() {
    assert_eq!(
        Color::parse("aabb").unwrap_err(),
        RenderError::CatalogDeserializationFailure
    );
}
