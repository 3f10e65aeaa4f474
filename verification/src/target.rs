use vstd::prelude::*;
use base64::Engine;
use crate::error::Error;
use crate::format::{last_index_of, rfind_char};

verus! {

/// What base64 decoding with the standard alphabet yields on a string,
/// where the string is valid base64.
pub uninterp spec fn b64_decoded(s: Seq<char>) -> Option<Seq<u8>>;

/// Relies on base64's `STANDARD` engine `decode`: the standard alphabet
/// with padding; the result is a function of the input string alone.
#[verifier::external_body]
fn base64_decode(s: &str) -> (r: Option<Vec<u8>>)
    ensures
        match r {
            Some(v) => b64_decoded(s@) == Some(v@),
            None => b64_decoded(s@) is None,
        },
{
    base64::engine::general_purpose::STANDARD.decode(s).ok()
}

/// What UTF-8 decoding yields on a byte sequence, where the bytes are
/// valid UTF-8.
pub uninterp spec fn utf8_decoded(b: Seq<u8>) -> Option<Seq<char>>;

/// Relies on `String::from_utf8`: the characters are a function of the
/// bytes alone, and invalid UTF-8 is rejected.
#[verifier::external_body]
fn utf8_decode(bytes: &[u8]) -> (r: Option<String>)
    ensures
        match r {
            Some(s) => utf8_decoded(bytes@) == Some(s@),
            None => utf8_decoded(bytes@) is None,
        },
{
    String::from_utf8(bytes.to_vec()).ok()
}

/// What URL parsing and re-serialization yields on a string, where the
/// string is a parsable absolute URL.
pub uninterp spec fn url_parsed(s: Seq<char>) -> Option<Seq<char>>;

/// Relies on `http_types::Url::parse` (the `url` crate's parser) and the
/// parsed URL's serialization: both are functions of the string alone.
#[verifier::external_body]
fn parse_url(s: &str) -> (r: Option<String>)
    ensures
        match r {
            Some(u) => url_parsed(s@) == Some(u@),
            None => url_parsed(s@) is None,
        },
{
    http_types::Url::parse(s).ok().map(String::from)
}

/// The base64 part of a path segment: what precedes the last dot. A segment
/// without a dot is all base64; a trailing `.{anything}` is discarded.
pub open spec fn encoded_part(param: Seq<char>) -> Seq<char> {
    let d = last_index_of(param, '.');
    if d >= 0 {
        param.subrange(0, d)
    } else {
        param
    }
}

/// The target URL that a path segment decodes to, in its serialized form,
/// or why it does not decode.
pub open spec fn spec_decode_target(param: Seq<char>) -> Result<Seq<char>, Error> {
    match b64_decoded(encoded_part(param)) {
        None => Err(Error::InvalidEncoding),
        Some(bytes) => match utf8_decoded(bytes) {
            None => Err(Error::InvalidEncoding),
            Some(s) => match url_parsed(s) {
                None => Err(Error::InvalidUrl),
                Some(u) => Ok(u),
            },
        },
    }
}

/// Decodes a path segment into the target URL: everything after the last
/// dot is discarded, the rest is base64-decoded, read as UTF-8 and parsed
/// as a URL, which is returned serialized.
pub fn decode_target(param: &str) -> (r: Result<String, Error>)
    ensures
        match spec_decode_target(param@) {
            Ok(u) => r matches Ok(s) && s@ == u,
            Err(e) => r matches Err(e2) && e2 == e,
        },
{
    let encoded = match rfind_char(param, '.') {
        Some(d) => param.substring_char(0, d),
        None => param,
    };
    proof {
        assert(encoded@ == encoded_part(param@));
    }
    let bytes = match base64_decode(encoded) {
        Some(b) => b,
        None => {
            return Err(Error::InvalidEncoding);
        },
    };
    let s = match utf8_decode(bytes.as_slice()) {
        Some(s) => s,
        None => {
            return Err(Error::InvalidEncoding);
        },
    };
    match parse_url(s.as_str()) {
        Some(u) => Ok(u),
        None => Err(Error::InvalidUrl),
    }
}

} // verus!
