//! Crops an RGBA image to its non-transparent content and centers that
//! content on a transparent square canvas, keeping the original format.
//!
//! The pipeline of one request is strictly linear: decode the path segment
//! into the target URL, fetch it (outside this crate), resolve the format
//! from the content type or the URL, decode the image, squarify, re-encode.
pub mod pixel;
pub mod bbox;
pub mod error;
pub mod format;
pub mod square;
pub mod target;
pub mod codec;

use vstd::prelude::*;
use crate::error::Error;
use crate::format::{str_eq, spec_resolve_format, mime_to_image_format};
use crate::codec::{spec_squarify, squarify};

verus! {

/// What the service answers once the upstream's response is in hand: the
/// squarified body, or the failure to answer with. A non-success upstream
/// status is forwarded; a content type outside `image/*` is rejected.
pub open spec fn spec_process_fetched(
    success: bool,
    status: u16,
    basetype: Seq<char>,
    subtype: Seq<char>,
    url: Seq<char>,
    body: Seq<u8>,
) -> Result<Seq<u8>, Error> {
    if !success {
        Err(Error::Upstream { status })
    } else if basetype != "image"@ {
        Err(Error::UnsupportedContentType)
    } else {
        match spec_resolve_format(subtype, url) {
            Err(e) => Err(e),
            Ok(f) => spec_squarify(body, f),
        }
    }
}

/// The pure part of handling one request, after the fetch: checks the
/// upstream outcome and the content type, resolves the format, and
/// squarifies the body.
pub fn process_fetched(
    success: bool,
    status: u16,
    basetype: &str,
    subtype: &str,
    url: &str,
    body: &[u8],
) -> (r: Result<Vec<u8>, Error>)
    ensures
        match spec_process_fetched(success, status, basetype@, subtype@, url@, body@) {
            Ok(v) => r matches Ok(rv) && rv@ == v,
            Err(e) => r matches Err(e2) && e2 == e,
        },
{
    if !success {
        return Err(Error::Upstream { status });
    }
    if !str_eq(basetype, "image") {
        return Err(Error::UnsupportedContentType);
    }
    let f = match mime_to_image_format(subtype, url) {
        Ok(f) => f,
        Err(e) => {
            return Err(e);
        },
    };
    squarify(body, f)
}

} // verus!
