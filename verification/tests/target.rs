use squarify::error::Error;
use squarify::target::decode_target;

#[test]
fn decodes_segment_with_suffix() {
    // base64 of "http://example.com/a.png", with the extension-like suffix
    // after the last dot discarded.
    let r = decode_target("aHR0cDovL2V4YW1wbGUuY29tL2EucG5n.png");
    assert_eq!(r.unwrap(), "http://example.com/a.png");
}

#[test]
fn decodes_segment_without_suffix() {
    let r = decode_target("aHR0cDovL2V4YW1wbGUuY29tL2EucG5n");
    assert_eq!(r.unwrap(), "http://example.com/a.png");
}

#[test]
fn serializes_the_parsed_url() {
    // The parser normalizes: a bare authority gains its trailing slash.
    let r = decode_target("aHR0cDovL2V4YW1wbGUuY29t.jpg");
    assert_eq!(r.unwrap(), "http://example.com/");
}

#[test]
fn rejects_invalid_base64() {
    assert_eq!(decode_target("!!!.png"), Err(Error::InvalidEncoding));
}

#[test]
fn rejects_invalid_utf8() {
    // base64 of the bytes 0xFF 0xFE, which are not UTF-8.
    assert_eq!(decode_target("//4=.png"), Err(Error::InvalidEncoding));
}

#[test]
fn rejects_unparsable_url() {
    // base64 of "notaurl".
    assert_eq!(decode_target("bm90YXVybA==.png"), Err(Error::InvalidUrl));
}

#[test]
fn empty_segment_is_invalid() {
    // An empty segment decodes to the empty string, which is no URL.
    assert_eq!(decode_target(""), Err(Error::InvalidUrl));
}
