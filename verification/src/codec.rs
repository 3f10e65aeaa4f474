use vstd::prelude::*;
use crate::pixel::{PixelBuffer, grid_of_raw, grid_width, grid_height, raw_of_grid};
use crate::bbox::{has_content, spec_bbox};
use crate::square::{side, squarified_grid};
use crate::format::FormatIdentifier;
use crate::error::Error;

verus! {

#[verifier::external_type_specification]
#[verifier::external_body]
pub struct ExImageFormat(image::ImageFormat);

/// Relies on `image::ImageFormat`: each codec identifier names the image
/// crate's tag for the same format.
#[verifier::external_body]
fn image_format_of(f: FormatIdentifier) -> image::ImageFormat {
    match f {
        FormatIdentifier::Png => image::ImageFormat::Png,
        FormatIdentifier::Jpeg => image::ImageFormat::Jpeg,
        FormatIdentifier::Gif => image::ImageFormat::Gif,
        FormatIdentifier::WebP => image::ImageFormat::WebP,
        FormatIdentifier::Pnm => image::ImageFormat::Pnm,
        FormatIdentifier::Tiff => image::ImageFormat::Tiff,
        FormatIdentifier::Tga => image::ImageFormat::Tga,
        FormatIdentifier::Dds => image::ImageFormat::Dds,
        FormatIdentifier::Bmp => image::ImageFormat::Bmp,
        FormatIdentifier::Ico => image::ImageFormat::Ico,
        FormatIdentifier::Hdr => image::ImageFormat::Hdr,
        FormatIdentifier::Farbfeld => image::ImageFormat::Farbfeld,
        FormatIdentifier::Avif => image::ImageFormat::Avif,
    }
}

/// What decoding with the named format and normalizing to RGBA8 yields:
/// width, height and the raw RGBA bytes, row by row.
pub uninterp spec fn decoded_rgba(bytes: Seq<u8>, format: FormatIdentifier) -> Option<
    (nat, nat, Seq<u8>),
>;

/// Relies on `image::load_from_memory_with_format` and
/// `DynamicImage::to_rgba8`: decoding is deterministic in the bytes and the
/// format, and the RGBA8 buffer holds exactly `4 * width * height` bytes.
#[verifier::external_body]
fn decode_rgba(bytes: &[u8], format: FormatIdentifier) -> (r: Option<(u32, u32, Vec<u8>)>)
    ensures
        match r {
            Some(t) => decoded_rgba(bytes@, format) == Some(
                ((t.0 as nat), (t.1 as nat), t.2@),
            ) && t.2@.len() == 4 * (t.0 as nat) * (t.1 as nat),
            None => decoded_rgba(bytes@, format) is None,
        },
{
    match image::load_from_memory_with_format(bytes, image_format_of(format)) {
        Ok(img) => {
            let rgba = img.to_rgba8();
            Some((rgba.width(), rgba.height(), rgba.into_raw()))
        },
        Err(_) => None,
    }
}

/// What encoding an RGBA8 buffer of the given dimensions in the named
/// format yields, where that format's encoder accepts the buffer.
pub uninterp spec fn encoded_rgba(
    w: nat,
    h: nat,
    raw: Seq<u8>,
    format: FormatIdentifier,
) -> Option<Seq<u8>>;

/// Relies on `image::RgbaImage::from_raw` and `DynamicImage::write_to`:
/// encoding is deterministic in the dimensions, the bytes and the format.
#[verifier::external_body]
fn encode_rgba(w: u32, h: u32, raw: Vec<u8>, format: FormatIdentifier) -> (r: Option<Vec<u8>>)
    requires
        raw@.len() == 4 * (w as nat) * (h as nat),
    ensures
        match r {
            Some(v) => encoded_rgba(w as nat, h as nat, raw@, format) == Some(v@),
            None => encoded_rgba(w as nat, h as nat, raw@, format) is None,
        },
{
    let img = image::RgbaImage::from_raw(w, h, raw)?;
    let mut cur = std::io::Cursor::new(Vec::new());
    match image::DynamicImage::ImageRgba8(img).write_to(&mut cur, image_format_of(format)) {
        Ok(()) => Some(cur.into_inner()),
        Err(_) => None,
    }
}

/// Decodes raw bytes of the named format into a pixel buffer, normalized
/// to RGBA8.
pub fn decode_image(bytes: &[u8], format: FormatIdentifier) -> (r: Result<PixelBuffer, Error>)
    ensures
        match decoded_rgba(bytes@, format) {
            None => r == Err::<PixelBuffer, Error>(Error::ImageDecode),
            Some(t) => match r {
                Ok(b) => {
                    &&& b.wf()
                    &&& b.width == t.0
                    &&& b.height == t.1
                    &&& b.width <= u32::MAX
                    &&& b.height <= u32::MAX
                    &&& b@ == grid_of_raw(t.0, t.1, t.2)
                },
                Err(_) => false,
            },
        },
{
    match decode_rgba(bytes, format) {
        None => Err(Error::ImageDecode),
        Some((w, h, raw)) => Ok(PixelBuffer::from_raw(w as usize, h as usize, raw.as_slice())),
    }
}

/// Encodes a pixel buffer as raw bytes of the named format; fails where
/// that format's encoder does not accept the buffer.
pub fn encode_image(buf: &PixelBuffer, format: FormatIdentifier) -> (r: Result<Vec<u8>, Error>)
    requires
        buf.wf(),
        buf.width <= u32::MAX,
        buf.height <= u32::MAX,
    ensures
        match encoded_rgba(buf.width as nat, buf.height as nat, raw_of_grid(buf@), format) {
            None => r == Err::<Vec<u8>, Error>(Error::ImageEncode),
            Some(v) => r matches Ok(rv) && rv@ == v,
        },
{
    proof {
        buf.lemma_wf_grid();
    }
    let raw = buf.to_raw();
    proof {
        if buf.height == 0 {
            let gw = grid_width(buf@);
            assert(4 * gw * 0 == 0) by (nonlinear_arith);
            assert(raw@.len() == 0);
            assert(4 * (buf.width as nat) * (buf.height as nat) == 0) by (nonlinear_arith)
                requires
                    buf.height == 0,
            ;
        }
    }
    match encode_rgba(buf.width as u32, buf.height as u32, raw, format) {
        None => Err(Error::ImageEncode),
        Some(v) => Ok(v),
    }
}

/// What the squarify pipeline answers on raw image bytes: the re-encoded
/// squarified image, or the first failure along the way.
pub open spec fn spec_squarify(bytes: Seq<u8>, format: FormatIdentifier) -> Result<Seq<u8>, Error> {
    match decoded_rgba(bytes, format) {
        None => Err(Error::ImageDecode),
        Some(t) => {
            let g = grid_of_raw(t.0, t.1, t.2);
            if !has_content(g) {
                Err(Error::EmptyContent)
            } else {
                match encoded_rgba(
                    side(g) as nat,
                    side(g) as nat,
                    raw_of_grid(squarified_grid(g)),
                    format,
                ) {
                    None => Err(Error::ImageEncode),
                    Some(v) => Ok(v),
                }
            }
        },
    }
}

/// Decodes the bytes in the given format, squarifies the pixels, and
/// re-encodes the result in the same format.
pub fn squarify(bytes: &[u8], format: FormatIdentifier) -> (r: Result<Vec<u8>, Error>)
    ensures
        match spec_squarify(bytes@, format) {
            Ok(v) => r matches Ok(rv) && rv@ == v,
            Err(e) => r matches Err(e2) && e2 == e,
        },
{
    let (w, h, raw) = match decode_rgba(bytes, format) {
        Some(t) => t,
        None => {
            return Err(Error::ImageDecode);
        },
    };
    let buf = PixelBuffer::from_raw(w as usize, h as usize, raw.as_slice());
    let ghost g = grid_of_raw(w as nat, h as nat, raw@);
    let out = match buf.squarify() {
        Ok(o) => o,
        Err(e) => {
            return Err(e);
        },
    };
    proof {
        out.lemma_wf_grid();
        let bb = spec_bbox(g);
        assert(grid_height(g) == h as int);
        assert(grid_height(g) > 0 && grid_width(g) == w as int);
        assert(bb.max_x < w as int && bb.max_y < h as int);
        assert(side(g) <= w as int || side(g) <= h as int);
        assert(out.width <= u32::MAX);
        assert(raw_of_grid(out@).len() == 4 * grid_width(out@) * grid_height(out@));
        assert(grid_width(out@) == out.width as int && grid_height(out@) == out.height as int);
    }
    let n = out.width;
    let raw_out = out.to_raw();
    match encode_rgba(n as u32, n as u32, raw_out, format) {
        Some(v) => Ok(v),
        None => Err(Error::ImageEncode),
    }
}

} // verus!
