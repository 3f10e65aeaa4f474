use squarify::error::Error;
use squarify::format::{format_from_extension, format_from_subtype, mime_to_image_format, FormatIdentifier};

#[test]
fn jpg_subtype_resolves_via_primary_table() {
    // The subtype table answers before the URL extension is consulted.
    assert_eq!(
        mime_to_image_format("jpg", "http://host/img.jpg"),
        Ok(FormatIdentifier::Jpeg)
    );
}

#[test]
fn subtype_table() {
    assert_eq!(format_from_subtype("png"), Some(FormatIdentifier::Png));
    assert_eq!(format_from_subtype("jpeg"), Some(FormatIdentifier::Jpeg));
    assert_eq!(format_from_subtype("jpg"), Some(FormatIdentifier::Jpeg));
    assert_eq!(format_from_subtype("gif"), Some(FormatIdentifier::Gif));
    assert_eq!(format_from_subtype("webp"), Some(FormatIdentifier::WebP));
    assert_eq!(format_from_subtype("pnm"), Some(FormatIdentifier::Pnm));
    assert_eq!(format_from_subtype("tiff"), Some(FormatIdentifier::Tiff));
    assert_eq!(format_from_subtype("tga"), Some(FormatIdentifier::Tga));
    assert_eq!(format_from_subtype("dds"), Some(FormatIdentifier::Dds));
    assert_eq!(format_from_subtype("bmp"), Some(FormatIdentifier::Bmp));
    assert_eq!(format_from_subtype("ico"), Some(FormatIdentifier::Ico));
    assert_eq!(format_from_subtype("hdr"), Some(FormatIdentifier::Hdr));
    assert_eq!(format_from_subtype("farbfeld"), Some(FormatIdentifier::Farbfeld));
    assert_eq!(format_from_subtype("avif"), Some(FormatIdentifier::Avif));
    assert_eq!(format_from_subtype("html"), None);
    assert_eq!(format_from_subtype(""), None);
    // The table matches the subtype exactly, lower case.
    assert_eq!(format_from_subtype("PNG"), None);
}

#[test]
fn extension_table_is_case_insensitive() {
    assert_eq!(format_from_extension("png"), Some(FormatIdentifier::Png));
    assert_eq!(format_from_extension("PNG"), Some(FormatIdentifier::Png));
    assert_eq!(format_from_extension("JpEg"), Some(FormatIdentifier::Jpeg));
    assert_eq!(format_from_extension("jfif"), Some(FormatIdentifier::Jpeg));
    assert_eq!(format_from_extension("tif"), Some(FormatIdentifier::Tiff));
    assert_eq!(format_from_extension("pbm"), Some(FormatIdentifier::Pnm));
    assert_eq!(format_from_extension("ff"), Some(FormatIdentifier::Farbfeld));
    assert_eq!(format_from_extension("txt"), None);
}

#[test]
fn unknown_subtype_falls_back_to_extension() {
    assert_eq!(
        mime_to_image_format("octet-stream", "http://host/shot.PNG"),
        Ok(FormatIdentifier::Png)
    );
    assert_eq!(
        mime_to_image_format("x-unknown", "http://host/a/b/pic.tif"),
        Ok(FormatIdentifier::Tiff)
    );
    assert_eq!(
        mime_to_image_format("", "http://host/art.ff"),
        Ok(FormatIdentifier::Farbfeld)
    );
}

#[test]
fn unsupported_format_when_both_lookups_fail() {
    assert_eq!(
        mime_to_image_format("text", "http://host/file.txt"),
        Err(Error::UnsupportedFormat)
    );
    assert_eq!(
        mime_to_image_format("binary", "http://host/noextension"),
        Err(Error::UnsupportedFormat)
    );
    // A file name that is only an extension-like suffix has no extension.
    assert_eq!(
        mime_to_image_format("binary", "http://host/.png"),
        Err(Error::UnsupportedFormat)
    );
}
