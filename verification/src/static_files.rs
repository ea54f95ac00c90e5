//! Static files under `public/`: which file a request path names, whether a
//! resolved file may be served, and its media type.

use vstd::prelude::*;
use vstd::utf8::*;

use crate::text::{chars_eq, str_to_chars, string_from_chars};

verus! {

/// The directory whose files are served.
pub const PUBLIC_DIR: &'static str = "public";

/// Largest file served, in bytes (10 MiB).
pub const MAX_FILE_SIZE: u64 = 10 * 1024 * 1024;

/// Why a static file was not served.
#[derive(Debug)]
pub enum StaticFileError {
    /// The resolved file lies outside the public directory.
    BadPath,
    /// No such file.
    NotFound,
    /// The file is larger than [`MAX_FILE_SIZE`].
    TooLarge,
    /// Reading the file failed.
    Io(std::io::Error),
}

impl StaticFileError {
    /// A description of the error for logs.
    pub fn message(&self) -> (res: &'static str)
        ensures
            res@ == (match self {
                StaticFileError::BadPath => "path traversal detectado"@,
                StaticFileError::NotFound => "archivo no encontrado"@,
                StaticFileError::TooLarge => "archivo demasiado grande"@,
                StaticFileError::Io(_) => "error de lectura"@,
            }),
    {
        match self {
            StaticFileError::BadPath => "path traversal detectado",
            StaticFileError::NotFound => "archivo no encontrado",
            StaticFileError::TooLarge => "archivo demasiado grande",
            StaticFileError::Io(_) => "error de lectura",
        }
    }
}

// ---------------------------------------------------------------------------
// Specification
// ---------------------------------------------------------------------------

/// The value of a hexadecimal digit byte.
pub open spec fn hex_value(b: u8) -> Option<u8> {
    if 48 <= b <= 57 {
        Some((b - 48) as u8)
    } else if 97 <= b <= 102 {
        Some((b - 87) as u8)
    } else if 65 <= b <= 70 {
        Some((b - 55) as u8)
    } else {
        None
    }
}

/// `s` with every `%` followed by two hexadecimal digits replaced by the
/// byte they spell; every other byte is kept.
pub open spec fn percent_decoded(s: Seq<u8>) -> Seq<u8>
    decreases s.len(),
{
    if s.len() == 0 {
        seq![]
    } else if s[0] == 37 && s.len() >= 3 && hex_value(s[1]) is Some && hex_value(s[2]) is Some {
        seq![(hex_value(s[1])->0 * 16 + hex_value(s[2])->0) as u8] + percent_decoded(s.skip(3))
    } else {
        seq![s[0]] + percent_decoded(s.drop_first())
    }
}

/// The characters that lossy UTF-8 decoding (`String::from_utf8_lossy`)
/// makes of `bytes`: invalid sequences become U+FFFD.
pub uninterp spec fn utf8_lossy(bytes: Seq<u8>) -> Seq<char>;

/// `s` without its leading `/` characters.
pub open spec fn strip_slashes(s: Seq<char>) -> Seq<char>
    decreases s.len(),
{
    if s.len() > 0 && s[0] == '/' {
        strip_slashes(s.drop_first())
    } else {
        s
    }
}

/// The file, relative to the public directory, that a request path names:
/// the path percent-decoded, without leading slashes, `index.html` when
/// nothing is left.
pub open spec fn relative_target(request_path: Seq<char>) -> Seq<char> {
    let t = strip_slashes(utf8_lossy(percent_decoded(encode_utf8(request_path))));
    if t.len() == 0 {
        "index.html"@
    } else {
        t
    }
}

/// The media type for a file extension.
pub open spec fn media_type(extension: Option<Seq<char>>) -> Seq<char> {
    match extension {
        Some(e) => if e == "html"@ || e == "htm"@ {
            "text/html; charset=utf-8"@
        } else if e == "css"@ {
            "text/css; charset=utf-8"@
        } else if e == "js"@ {
            "application/javascript; charset=utf-8"@
        } else if e == "json"@ {
            "application/json"@
        } else if e == "png"@ {
            "image/png"@
        } else if e == "jpg"@ || e == "jpeg"@ {
            "image/jpeg"@
        } else if e == "gif"@ {
            "image/gif"@
        } else if e == "svg"@ {
            "image/svg+xml"@
        } else if e == "ico"@ {
            "image/x-icon"@
        } else if e == "txt"@ {
            "text/plain; charset=utf-8"@
        } else {
            "application/octet-stream"@
        },
        None => "application/octet-stream"@,
    }
}

// ---------------------------------------------------------------------------
// Trusted call
// ---------------------------------------------------------------------------

/// Percent-decodes `input` and decodes the bytes as UTF-8, lossily, with
/// `percent_encoding::percent_decode_str(..).decode_utf8_lossy()`. Its
/// source decodes `%` followed by two hexadecimal digits and keeps every
/// other byte, then hands the bytes to `String::from_utf8_lossy`, which
/// returns valid UTF-8 unchanged.
#[verifier::external_body]
fn percent_decode_lossy(input: &str) -> (res: String)
    ensures
        res@ == utf8_lossy(percent_decoded(encode_utf8(input@))),
        valid_utf8(percent_decoded(encode_utf8(input@))) ==> res@ == decode_utf8(
            percent_decoded(encode_utf8(input@)),
        ),
{
    percent_encoding::percent_decode_str(input).decode_utf8_lossy().into_owned()
}

// ---------------------------------------------------------------------------
// Executable functions
// ---------------------------------------------------------------------------

/// The file, relative to the public directory, that a request path names.
pub fn relative_path(request_path: &str) -> (res: String)
    ensures
        res@ == relative_target(request_path@),
{
    let decoded = percent_decode_lossy(request_path);
    let chars = str_to_chars(decoded.as_str());
    let mut i: usize = 0;
    assert(chars@.skip(0) =~= chars@);
    while i < chars.len() && chars[i] == '/'
        invariant
            i <= chars@.len(),
            strip_slashes(chars@) == strip_slashes(chars@.skip(i as int)),
        decreases chars@.len() - i,
    {
        assert(chars@.skip(i as int).drop_first() =~= chars@.skip(i + 1));
        i = i + 1;
    }
    if i == chars.len() {
        assert(chars@.skip(i as int).len() == 0);
        "index.html".to_owned()
    } else {
        let rest = crate::text::copy_range(&chars, i, chars.len());
        assert(rest@ =~= chars@.skip(i as int));
        string_from_chars(&rest)
    }
}

/// Whether a resolved file may be served: it must lie inside the public
/// directory, be a regular file and be at most [`MAX_FILE_SIZE`] bytes.
pub fn check_file(inside_root: bool, is_file: bool, size: u64) -> (res: Result<
    (),
    StaticFileError,
>)
    ensures
        !inside_root ==> res matches Err(StaticFileError::BadPath),
        inside_root && !is_file ==> res matches Err(StaticFileError::NotFound),
        inside_root && is_file && size > MAX_FILE_SIZE ==> res matches Err(
            StaticFileError::TooLarge,
        ),
        inside_root && is_file && size <= MAX_FILE_SIZE ==> res is Ok,
{
    if !inside_root {
        return Err(StaticFileError::BadPath);
    }
    if !is_file {
        return Err(StaticFileError::NotFound);
    }
    if size > MAX_FILE_SIZE {
        return Err(StaticFileError::TooLarge);
    }
    Ok(())
}

fn ext_is(e: &[char], name: &str) -> (res: bool)
    ensures
        res == (e@ == name@),
{
    chars_eq(e, &str_to_chars(name))
}

/// The media type for a file extension (`None` when the file has none).
pub fn content_type_from_extension(extension: Option<&str>) -> (res: &'static str)
    ensures
        res@ == media_type(
            match extension {
                Some(e) => Some(e@),
                None => None,
            },
        ),
{
    match extension {
        Some(ext) => {
            let e = str_to_chars(ext);
            if ext_is(&e, "html") || ext_is(&e, "htm") {
                "text/html; charset=utf-8"
            } else if ext_is(&e, "css") {
                "text/css; charset=utf-8"
            } else if ext_is(&e, "js") {
                "application/javascript; charset=utf-8"
            } else if ext_is(&e, "json") {
                "application/json"
            } else if ext_is(&e, "png") {
                "image/png"
            } else if ext_is(&e, "jpg") || ext_is(&e, "jpeg") {
                "image/jpeg"
            } else if ext_is(&e, "gif") {
                "image/gif"
            } else if ext_is(&e, "svg") {
                "image/svg+xml"
            } else if ext_is(&e, "ico") {
                "image/x-icon"
            } else if ext_is(&e, "txt") {
                "text/plain; charset=utf-8"
            } else {
                "application/octet-stream"
            }
        },
        None => "application/octet-stream",
    }
}

} // verus!
