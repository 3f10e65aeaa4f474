use squarify::bbox::BoundingBox;
use squarify::error::Error;
use squarify::pixel::{Pixel, PixelBuffer};

/// Builds a buffer from one (r, g, b, a) tuple per pixel, row-major.
fn buf_of(w: usize, h: usize, px: &[(u8, u8, u8, u8)]) -> PixelBuffer {
    assert_eq!(px.len(), w * h);
    let mut raw = Vec::new();
    for &(r, g, b, a) in px {
        raw.push(r);
        raw.push(g);
        raw.push(b);
        raw.push(a);
    }
    PixelBuffer::from_raw(w, h, &raw)
}

/// A w-by-h buffer where every pixel is (10, 20, 30, alpha).
fn solid(w: usize, h: usize, alpha: u8) -> PixelBuffer {
    buf_of(w, h, &vec![(10, 20, 30, alpha); w * h])
}

fn pixel(r: u8, g: u8, b: u8, a: u8) -> Pixel {
    Pixel { r, g, b, a }
}

#[test]
fn fully_transparent_is_empty_content() {
    let buf = solid(10, 10, 0);
    let r = buf.squarify();
    assert!(matches!(r, Err(Error::EmptyContent)));
}

#[test]
fn zero_sized_buffer_is_empty_content() {
    let buf = buf_of(0, 0, &[]);
    assert!(matches!(buf.squarify(), Err(Error::EmptyContent)));
    assert_eq!(buf.bounding_box(), None);
}

#[test]
fn transparent_buffer_has_no_bounding_box() {
    let buf = solid(7, 3, 0);
    assert_eq!(buf.bounding_box(), None);
}

#[test]
fn partial_rect_bounding_box() {
    // 10 by 10, opaque exactly in x in [2, 5], y in [1, 3].
    let mut px = vec![(0u8, 0u8, 0u8, 0u8); 100];
    for y in 1..=3usize {
        for x in 2..=5usize {
            px[y * 10 + x] = (x as u8, y as u8, 7, 255);
        }
    }
    let buf = buf_of(10, 10, &px);
    assert_eq!(
        buf.bounding_box(),
        Some(BoundingBox { min_x: 2, max_x: 5, min_y: 1, max_y: 3 })
    );
}

#[test]
fn partial_rect_squarified() {
    // The crop is 4 by 3 (inclusive extents), so the canvas side is 4 and
    // the crop sits at the top, shifted by (0, 0) after floor division.
    let mut px = vec![(0u8, 0u8, 0u8, 0u8); 100];
    for y in 1..=3usize {
        for x in 2..=5usize {
            px[y * 10 + x] = (x as u8, y as u8, 7, 255);
        }
    }
    let buf = buf_of(10, 10, &px);
    let out = buf.squarify().unwrap();
    assert_eq!(out.width, 4);
    assert_eq!(out.height, 4);
    for y in 0..3usize {
        for x in 0..4usize {
            assert_eq!(out.rows[y][x], pixel((x + 2) as u8, (y + 1) as u8, 7, 255));
        }
    }
    for x in 0..4usize {
        assert_eq!(out.rows[3][x], pixel(0, 0, 0, 0));
    }
}

#[test]
fn opaque_square_is_unchanged() {
    // 4 by 4, fully opaque, already square: output is identical.
    let px: Vec<(u8, u8, u8, u8)> =
        (0..16u8).map(|i| (i, i.wrapping_mul(3), 100 - i, 255)).collect();
    let buf = buf_of(4, 4, &px);
    let out = buf.squarify().unwrap();
    assert_eq!(out.width, 4);
    assert_eq!(out.height, 4);
    assert_eq!(out.to_raw(), buf.to_raw());
}

#[test]
fn output_is_square_for_any_content() {
    // A single opaque pixel in a wide buffer crops to 1 by 1.
    let mut px = vec![(0u8, 0u8, 0u8, 0u8); 14];
    px[9] = (1, 2, 3, 200);
    let buf = buf_of(7, 2, &px);
    let out = buf.squarify().unwrap();
    assert_eq!(out.width, out.height);
    assert_eq!(out.width, 1);
    assert_eq!(out.rows[0][0], pixel(1, 2, 3, 200));
}

#[test]
fn opaque_landscape_is_centered() {
    // 5 by 3, all opaque: the canvas is 5 by 5 and the source sits one row
    // down, because (5 - 3) / 2 == 1.
    let px: Vec<(u8, u8, u8, u8)> = (0..15u8).map(|i| (i, i, i, 255)).collect();
    let buf = buf_of(5, 3, &px);
    let out = buf.squarify().unwrap();
    assert_eq!(out.width, 5);
    assert_eq!(out.height, 5);
    for y in 0..3usize {
        for x in 0..5usize {
            let i = (y * 5 + x) as u8;
            assert_eq!(out.rows[y + 1][x], pixel(i, i, i, 255));
        }
    }
    for x in 0..5usize {
        assert_eq!(out.rows[0][x], pixel(0, 0, 0, 0));
        assert_eq!(out.rows[4][x], pixel(0, 0, 0, 0));
    }
}

#[test]
fn squarify_is_idempotent() {
    let mut px = vec![(0u8, 0u8, 0u8, 0u8); 100];
    for y in 1..=3usize {
        for x in 2..=5usize {
            px[y * 10 + x] = (x as u8, y as u8, 7, 128);
        }
    }
    let buf = buf_of(10, 10, &px);
    let once = buf.squarify().unwrap();
    let twice = once.squarify().unwrap();
    assert_eq!(twice.width, once.width);
    assert_eq!(twice.height, once.height);
    assert_eq!(twice.to_raw(), once.to_raw());
}

#[test]
fn raw_round_trip() {
    let raw: Vec<u8> = (0..24u8).collect();
    let buf = PixelBuffer::from_raw(3, 2, &raw);
    assert_eq!(buf.width, 3);
    assert_eq!(buf.height, 2);
    assert_eq!(buf.to_raw(), raw);
    assert_eq!(buf.rows[1][2], Pixel { r: 20, g: 21, b: 22, a: 23 });
}

#[test]
fn error_statuses() {
    assert_eq!(Error::InvalidEncoding.status(), 400);
    assert_eq!(Error::InvalidUrl.status(), 400);
    assert_eq!(Error::Fetch.status(), 500);
    assert_eq!(Error::Upstream { status: 503 }.status(), 503);
    assert_eq!(Error::UnsupportedContentType.status(), 400);
    assert_eq!(Error::UnsupportedFormat.status(), 400);
    assert_eq!(Error::ImageDecode.status(), 400);
    assert_eq!(Error::EmptyContent.status(), 400);
    assert_eq!(Error::ImageEncode.status(), 400);
}
