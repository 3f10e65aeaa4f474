use vstd::prelude::*;

verus! {

/// Why a request failed. Every failure is resolved at the request boundary
/// into an HTTP response; nothing is retried.
#[derive(Clone, Copy, PartialEq, Eq, Structural, Debug)]
pub enum Error {
    /// The path segment is not valid base64, or its decoding is not UTF-8.
    InvalidEncoding,
    /// The decoded target is not a parsable URL.
    InvalidUrl,
    /// The outbound fetch failed at the transport level.
    Fetch,
    /// The upstream answered a non-success status, which is forwarded.
    Upstream { status: u16 },
    /// The upstream's content type is not `image/*`.
    UnsupportedContentType,
    /// Neither the MIME subtype nor the URL extension names a known format.
    UnsupportedFormat,
    /// The body could not be decoded as an image of the resolved format.
    ImageDecode,
    /// Every pixel of the image is fully transparent.
    EmptyContent,
    /// The squarified image could not be re-encoded.
    ImageEncode,
}

impl Error {
    /// The HTTP status a failure is answered with: 400 for client errors,
    /// 500 for a transport failure, the upstream's own status forwarded.
    pub open spec fn spec_status(self) -> u16 {
        match self {
            Error::Fetch => 500,
            Error::Upstream { status } => status,
            _ => 400,
        }
    }

    pub fn status(&self) -> (s: u16)
        ensures
            s == self.spec_status(),
    {
        match self {
            Error::Fetch => 500,
            Error::Upstream { status } => *status,
            _ => 400,
        }
    }
}

} // verus!
