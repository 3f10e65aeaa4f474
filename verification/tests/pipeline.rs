use squarify::codec::{decode_image, encode_image, squarify};
use squarify::error::Error;
use squarify::format::FormatIdentifier;
use squarify::pixel::{Pixel, PixelBuffer};
use squarify::process_fetched;

fn buf_of(w: usize, h: usize, px: &[(u8, u8, u8, u8)]) -> PixelBuffer {
    assert_eq!(px.len(), w * h);
    let mut raw = Vec::new();
    for &(r, g, b, a) in px {
        raw.push(r);
        raw.push(g);
        raw.push(b);
        raw.push(a);
    }
    PixelBuffer::from_raw(w, h, &raw)
}

fn assert_round_trip(format: FormatIdentifier) {
    let px = [
        (255, 0, 0, 255),
        (0, 255, 0, 128),
        (0, 0, 255, 0),
        (9, 8, 7, 255),
        (1, 2, 3, 33),
        (250, 249, 248, 255),
    ];
    let buf = buf_of(3, 2, &px);
    let bytes = encode_image(&buf, format).unwrap();
    let back = decode_image(&bytes, format).unwrap();
    assert_eq!(back.width, 3);
    assert_eq!(back.height, 2);
    assert_eq!(back.to_raw(), buf.to_raw());
}

#[test]
fn round_trip_png() {
    assert_round_trip(FormatIdentifier::Png);
}

#[test]
fn round_trip_bmp() {
    assert_round_trip(FormatIdentifier::Bmp);
}

#[test]
fn round_trip_tga() {
    assert_round_trip(FormatIdentifier::Tga);
}

#[test]
fn round_trip_tiff() {
    assert_round_trip(FormatIdentifier::Tiff);
}

#[test]
fn encoder_without_rgba8_support_is_encode_error() {
    // Farbfeld stores 16-bit channels; its encoder rejects an RGBA8 buffer.
    let buf = buf_of(2, 2, &vec![(5, 5, 5, 255); 4]);
    assert_eq!(
        encode_image(&buf, FormatIdentifier::Farbfeld),
        Err(Error::ImageEncode)
    );
}

#[test]
fn squarify_bytes_crops_and_pads() {
    // A 3 by 3 PNG, opaque only in the top-left 2 by 1 strip: the crop is
    // 2 by 1, the canvas 2 by 2, and the strip lands on row 0 after the
    // shift (2 - 1) / 2 == 0.
    let mut px = vec![(0u8, 0u8, 0u8, 0u8); 9];
    px[0] = (11, 12, 13, 255);
    px[1] = (21, 22, 23, 255);
    let buf = buf_of(3, 3, &px);
    let bytes = encode_image(&buf, FormatIdentifier::Png).unwrap();
    let out_bytes = squarify(&bytes, FormatIdentifier::Png).unwrap();
    let out = decode_image(&out_bytes, FormatIdentifier::Png).unwrap();
    assert_eq!(out.width, 2);
    assert_eq!(out.height, 2);
    assert_eq!(out.rows[0][0], Pixel { r: 11, g: 12, b: 13, a: 255 });
    assert_eq!(out.rows[0][1], Pixel { r: 21, g: 22, b: 23, a: 255 });
    assert_eq!(out.rows[1][0], Pixel { r: 0, g: 0, b: 0, a: 0 });
    assert_eq!(out.rows[1][1], Pixel { r: 0, g: 0, b: 0, a: 0 });
}

#[test]
fn squarify_bytes_empty_content() {
    let buf = buf_of(2, 2, &vec![(5, 5, 5, 0); 4]);
    let bytes = encode_image(&buf, FormatIdentifier::Png).unwrap();
    assert_eq!(squarify(&bytes, FormatIdentifier::Png), Err(Error::EmptyContent));
}

#[test]
fn squarify_garbage_is_decode_error() {
    assert_eq!(
        squarify(b"not an image at all", FormatIdentifier::Png),
        Err(Error::ImageDecode)
    );
}

#[test]
fn wrong_format_is_decode_error() {
    let buf = buf_of(2, 2, &vec![(5, 5, 5, 255); 4]);
    let bytes = encode_image(&buf, FormatIdentifier::Png).unwrap();
    assert_eq!(squarify(&bytes, FormatIdentifier::Gif), Err(Error::ImageDecode));
}

#[test]
fn process_fetched_forwards_upstream_failure() {
    let r = process_fetched(false, 404, "image", "png", "http://host/a.png", b"");
    assert_eq!(r, Err(Error::Upstream { status: 404 }));
}

#[test]
fn process_fetched_rejects_non_image() {
    let r = process_fetched(true, 200, "text", "html", "http://host/a.png", b"<html>");
    assert_eq!(r, Err(Error::UnsupportedContentType));
}

#[test]
fn process_fetched_squarifies() {
    let mut px = vec![(0u8, 0u8, 0u8, 0u8); 9];
    px[4] = (1, 2, 3, 255);
    let buf = buf_of(3, 3, &px);
    let bytes = encode_image(&buf, FormatIdentifier::Png).unwrap();
    let out_bytes =
        process_fetched(true, 200, "image", "png", "http://host/a.png", &bytes).unwrap();
    let out = decode_image(&out_bytes, FormatIdentifier::Png).unwrap();
    assert_eq!(out.width, 1);
    assert_eq!(out.height, 1);
    assert_eq!(out.rows[0][0], Pixel { r: 1, g: 2, b: 3, a: 255 });
}
