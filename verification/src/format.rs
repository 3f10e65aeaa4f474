use vstd::prelude::*;
use vstd::string::StrSliceExecFns;
use crate::error::Error;

verus! {

/// The closed set of codecs the service supports. Input and output of a
/// request always use the same identifier.
#[derive(Clone, Copy, PartialEq, Eq, Structural, Debug)]
pub enum FormatIdentifier {
    Png,
    Jpeg,
    Gif,
    WebP,
    Pnm,
    Tiff,
    Tga,
    Dds,
    Bmp,
    Ico,
    Hdr,
    Farbfeld,
    Avif,
}

/// ASCII lowercase folding of one character.
pub open spec fn lower_char(c: char) -> char {
    if c == 'A' {
        'a'
    } else if c == 'B' {
        'b'
    } else if c == 'C' {
        'c'
    } else if c == 'D' {
        'd'
    } else if c == 'E' {
        'e'
    } else if c == 'F' {
        'f'
    } else if c == 'G' {
        'g'
    } else if c == 'H' {
        'h'
    } else if c == 'I' {
        'i'
    } else if c == 'J' {
        'j'
    } else if c == 'K' {
        'k'
    } else if c == 'L' {
        'l'
    } else if c == 'M' {
        'm'
    } else if c == 'N' {
        'n'
    } else if c == 'O' {
        'o'
    } else if c == 'P' {
        'p'
    } else if c == 'Q' {
        'q'
    } else if c == 'R' {
        'r'
    } else if c == 'S' {
        's'
    } else if c == 'T' {
        't'
    } else if c == 'U' {
        'u'
    } else if c == 'V' {
        'v'
    } else if c == 'W' {
        'w'
    } else if c == 'X' {
        'x'
    } else if c == 'Y' {
        'y'
    } else if c == 'Z' {
        'z'
    } else {
        c
    }
}

/// ASCII lowercase folding of a string.
pub open spec fn lower(s: Seq<char>) -> Seq<char> {
    s.map_values(|c: char| lower_char(c))
}

fn lower_char_exec(c: char) -> (r: char)
    ensures
        r == lower_char(c),
{
    match c {
        'A' => 'a',
        'B' => 'b',
        'C' => 'c',
        'D' => 'd',
        'E' => 'e',
        'F' => 'f',
        'G' => 'g',
        'H' => 'h',
        'I' => 'i',
        'J' => 'j',
        'K' => 'k',
        'L' => 'l',
        'M' => 'm',
        'N' => 'n',
        'O' => 'o',
        'P' => 'p',
        'Q' => 'q',
        'R' => 'r',
        'S' => 's',
        'T' => 't',
        'U' => 'u',
        'V' => 'v',
        'W' => 'w',
        'X' => 'x',
        'Y' => 'y',
        'Z' => 'z',
        _ => c,
    }
}

/// Character-wise string equality.
pub fn str_eq(a: &str, b: &str) -> (r: bool)
    ensures
        r == (a@ == b@),
{
    let la = a.unicode_len();
    let lb = b.unicode_len();
    if la != lb {
        return false;
    }
    let mut i: usize = 0;
    while i < la
        invariant
            i <= la,
            la == a@.len(),
            la == b@.len(),
            forall|j: int| 0 <= j < i ==> a@[j] == b@[j],
        decreases la - i,
    {
        if a.get_char(i) != b.get_char(i) {
            return false;
        }
        i += 1;
    }
    proof {
        assert(a@ =~= b@);
    }
    true
}

/// Equality of `a`, folded to ASCII lowercase, with `b`.
pub fn str_eq_lower(a: &str, b: &str) -> (r: bool)
    ensures
        r == (lower(a@) == b@),
{
    let la = a.unicode_len();
    let lb = b.unicode_len();
    if la != lb {
        proof {
            assert(lower(a@).len() == a@.len());
        }
        return false;
    }
    let mut i: usize = 0;
    while i < la
        invariant
            i <= la,
            la == a@.len(),
            la == b@.len(),
            forall|j: int| 0 <= j < i ==> lower(a@)[j] == b@[j],
        decreases la - i,
    {
        if lower_char_exec(a.get_char(i)) != b.get_char(i) {
            proof {
                assert(lower(a@)[i as int] != b@[i as int]);
            }
            return false;
        }
        i += 1;
    }
    proof {
        assert(lower(a@) =~= b@);
    }
    true
}

/// The fixed table from a MIME subtype to a codec identifier.
pub open spec fn spec_format_from_subtype(s: Seq<char>) -> Option<FormatIdentifier> {
    if s == "png"@ {
        Some(FormatIdentifier::Png)
    } else if s == "jpeg"@ || s == "jpg"@ {
        Some(FormatIdentifier::Jpeg)
    } else if s == "gif"@ {
        Some(FormatIdentifier::Gif)
    } else if s == "webp"@ {
        Some(FormatIdentifier::WebP)
    } else if s == "pnm"@ {
        Some(FormatIdentifier::Pnm)
    } else if s == "tiff"@ {
        Some(FormatIdentifier::Tiff)
    } else if s == "tga"@ {
        Some(FormatIdentifier::Tga)
    } else if s == "dds"@ {
        Some(FormatIdentifier::Dds)
    } else if s == "bmp"@ {
        Some(FormatIdentifier::Bmp)
    } else if s == "ico"@ {
        Some(FormatIdentifier::Ico)
    } else if s == "hdr"@ {
        Some(FormatIdentifier::Hdr)
    } else if s == "farbfeld"@ {
        Some(FormatIdentifier::Farbfeld)
    } else if s == "avif"@ {
        Some(FormatIdentifier::Avif)
    } else {
        None
    }
}

/// Looks the MIME subtype up in the fixed table.
pub fn format_from_subtype(s: &str) -> (r: Option<FormatIdentifier>)
    ensures
        r == spec_format_from_subtype(s@),
{
    if str_eq(s, "png") {
        Some(FormatIdentifier::Png)
    } else if str_eq(s, "jpeg") || str_eq(s, "jpg") {
        Some(FormatIdentifier::Jpeg)
    } else if str_eq(s, "gif") {
        Some(FormatIdentifier::Gif)
    } else if str_eq(s, "webp") {
        Some(FormatIdentifier::WebP)
    } else if str_eq(s, "pnm") {
        Some(FormatIdentifier::Pnm)
    } else if str_eq(s, "tiff") {
        Some(FormatIdentifier::Tiff)
    } else if str_eq(s, "tga") {
        Some(FormatIdentifier::Tga)
    } else if str_eq(s, "dds") {
        Some(FormatIdentifier::Dds)
    } else if str_eq(s, "bmp") {
        Some(FormatIdentifier::Bmp)
    } else if str_eq(s, "ico") {
        Some(FormatIdentifier::Ico)
    } else if str_eq(s, "hdr") {
        Some(FormatIdentifier::Hdr)
    } else if str_eq(s, "farbfeld") {
        Some(FormatIdentifier::Farbfeld)
    } else if str_eq(s, "avif") {
        Some(FormatIdentifier::Avif)
    } else {
        None
    }
}

/// The table from a file extension, folded to lowercase, to a codec
/// identifier, with the common aliases of each format's extension.
pub open spec fn spec_format_from_extension(e: Seq<char>) -> Option<FormatIdentifier> {
    let l = lower(e);
    if l == "png"@ || l == "apng"@ {
        Some(FormatIdentifier::Png)
    } else if l == "jpg"@ || l == "jpeg"@ || l == "jfif"@ {
        Some(FormatIdentifier::Jpeg)
    } else if l == "gif"@ {
        Some(FormatIdentifier::Gif)
    } else if l == "webp"@ {
        Some(FormatIdentifier::WebP)
    } else if l == "pnm"@ || l == "pbm"@ || l == "pgm"@ || l == "ppm"@ || l == "pam"@ {
        Some(FormatIdentifier::Pnm)
    } else if l == "tiff"@ || l == "tif"@ {
        Some(FormatIdentifier::Tiff)
    } else if l == "tga"@ {
        Some(FormatIdentifier::Tga)
    } else if l == "dds"@ {
        Some(FormatIdentifier::Dds)
    } else if l == "bmp"@ {
        Some(FormatIdentifier::Bmp)
    } else if l == "ico"@ {
        Some(FormatIdentifier::Ico)
    } else if l == "hdr"@ {
        Some(FormatIdentifier::Hdr)
    } else if l == "ff"@ || l == "farbfeld"@ {
        Some(FormatIdentifier::Farbfeld)
    } else if l == "avif"@ {
        Some(FormatIdentifier::Avif)
    } else {
        None
    }
}

/// Looks the file extension up, case-insensitively.
pub fn format_from_extension(e: &str) -> (r: Option<FormatIdentifier>)
    ensures
        r == spec_format_from_extension(e@),
{
    if str_eq_lower(e, "png") || str_eq_lower(e, "apng") {
        Some(FormatIdentifier::Png)
    } else if str_eq_lower(e, "jpg") || str_eq_lower(e, "jpeg") || str_eq_lower(e, "jfif") {
        Some(FormatIdentifier::Jpeg)
    } else if str_eq_lower(e, "gif") {
        Some(FormatIdentifier::Gif)
    } else if str_eq_lower(e, "webp") {
        Some(FormatIdentifier::WebP)
    } else if str_eq_lower(e, "pnm") || str_eq_lower(e, "pbm") || str_eq_lower(e, "pgm")
        || str_eq_lower(e, "ppm") || str_eq_lower(e, "pam") {
        Some(FormatIdentifier::Pnm)
    } else if str_eq_lower(e, "tiff") || str_eq_lower(e, "tif") {
        Some(FormatIdentifier::Tiff)
    } else if str_eq_lower(e, "tga") {
        Some(FormatIdentifier::Tga)
    } else if str_eq_lower(e, "dds") {
        Some(FormatIdentifier::Dds)
    } else if str_eq_lower(e, "bmp") {
        Some(FormatIdentifier::Bmp)
    } else if str_eq_lower(e, "ico") {
        Some(FormatIdentifier::Ico)
    } else if str_eq_lower(e, "hdr") {
        Some(FormatIdentifier::Hdr)
    } else if str_eq_lower(e, "ff") || str_eq_lower(e, "farbfeld") {
        Some(FormatIdentifier::Farbfeld)
    } else if str_eq_lower(e, "avif") {
        Some(FormatIdentifier::Avif)
    } else {
        None
    }
}

/// Index of the last occurrence of `c` in `s`, or -1.
pub open spec fn last_index_of(s: Seq<char>, c: char) -> int
    decreases s.len(),
{
    if s.len() == 0 {
        -1
    } else if s[s.len() - 1] == c {
        s.len() - 1
    } else {
        last_index_of(s.drop_last(), c)
    }
}

proof fn lemma_last_index_of_found(s: Seq<char>, c: char, k: int)
    requires
        0 <= k < s.len(),
        s[k] == c,
        forall|j: int| k < j < s.len() ==> s[j] != c,
    ensures
        last_index_of(s, c) == k,
    decreases s.len(),
{
    if k < s.len() - 1 {
        lemma_last_index_of_found(s.drop_last(), c, k);
    }
}

proof fn lemma_last_index_of_none(s: Seq<char>, c: char)
    requires
        forall|j: int| 0 <= j < s.len() ==> s[j] != c,
    ensures
        last_index_of(s, c) == -1,
    decreases s.len(),
{
    if s.len() > 0 {
        lemma_last_index_of_none(s.drop_last(), c);
    }
}

/// Scans `s` from the end for the last occurrence of `c`.
pub fn rfind_char(s: &str, c: char) -> (r: Option<usize>)
    ensures
        match r {
            Some(k) => k == last_index_of(s@, c) && k < s@.len(),
            None => last_index_of(s@, c) == -1,
        },
{
    let len = s.unicode_len();
    let mut i = len;
    while i > 0
        invariant
            i <= len,
            len == s@.len(),
            forall|j: int| i <= j < len ==> s@[j] != c,
        decreases i,
    {
        i -= 1;
        if s.get_char(i) == c {
            proof {
                lemma_last_index_of_found(s@, c, i as int);
            }
            return Some(i);
        }
    }
    proof {
        lemma_last_index_of_none(s@, c);
    }
    None
}

/// The extension of the file name of a URL or path: what follows the last
/// dot of what follows the last slash, unless the only dot of the file name
/// is its leading character.
pub open spec fn extension_of(u: Seq<char>) -> Option<Seq<char>> {
    let name = u.subrange(last_index_of(u, '/') + 1, u.len() as int);
    let d = last_index_of(name, '.');
    if d >= 1 {
        Some(name.subrange(d + 1, name.len() as int))
    } else {
        None
    }
}

/// Extracts the file extension of a URL or path, if it has one.
pub fn extension_of_url(u: &str) -> (r: Option<&str>)
    ensures
        match r {
            Some(e) => extension_of(u@) == Some(e@),
            None => extension_of(u@) is None,
        },
{
    let len = u.unicode_len();
    let start = match rfind_char(u, '/') {
        Some(k) => k + 1,
        None => 0,
    };
    let name = u.substring_char(start, len);
    let nlen = name.unicode_len();
    match rfind_char(name, '.') {
        Some(d) if d >= 1 => Some(name.substring_char(d + 1, nlen)),
        _ => None,
    }
}

/// The format of a request: the subtype table first, then the extension of
/// the URL, and `UnsupportedFormatError` when both fail.
pub open spec fn spec_resolve_format(subtype: Seq<char>, url: Seq<char>) -> Result<
    FormatIdentifier,
    Error,
> {
    match spec_format_from_subtype(subtype) {
        Some(f) => Ok(f),
        None => match extension_of(url) {
            Some(e) => match spec_format_from_extension(e) {
                Some(f) => Ok(f),
                None => Err(Error::UnsupportedFormat),
            },
            None => Err(Error::UnsupportedFormat),
        },
    }
}

/// Maps the MIME subtype of the upstream's content type, or failing that the
/// URL's file extension, to the codec identifier of the request.
pub fn mime_to_image_format(subtype: &str, url: &str) -> (r: Result<FormatIdentifier, Error>)
    ensures
        r == spec_resolve_format(subtype@, url@),
{
    match format_from_subtype(subtype) {
        Some(f) => Ok(f),
        None => match extension_of_url(url) {
            Some(e) => match format_from_extension(e) {
                Some(f) => Ok(f),
                None => Err(Error::UnsupportedFormat),
            },
            None => Err(Error::UnsupportedFormat),
        },
    }
}

} // verus!
