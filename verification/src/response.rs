//! Responses and their HTTP/1.1 wire form.

use std::io::Write;

use vstd::prelude::*;
use vstd::utf8::*;

use crate::text::{chars_eq, printable, str_to_chars, string_from_chars};

verus! {

/// Bodies of at most this many bytes are sent uncompressed.
pub const GZIP_MIN_SIZE: usize = 20;

/// One past the last second (since 1970) that an HTTP date can show: the
/// first second of the year 10000.
pub const HTTP_DATE_LIMIT: u64 = 253402300800;

/// A response: status code, media type and body.
#[derive(Debug)]
pub struct Response {
    pub status: u16,
    pub content_type: String,
    pub body: Vec<u8>,
}

/// Why a response could not be written out.
#[derive(Debug, Clone, Copy, PartialEq, Eq, Structural)]
pub enum ResponseError {
    /// A header value holds a carriage return, a line feed or a NUL.
    InvalidHeaderValue,
    /// Compressing the body failed.
    Compression,
}

#[verifier::external_type_specification]
#[verifier::external_body]
pub struct ExIoError(std::io::Error);

// ---------------------------------------------------------------------------
// Specification
// ---------------------------------------------------------------------------

/// The reason phrase sent with a status code.
pub open spec fn reason_of(status: u16) -> Seq<char> {
    if status == 200 {
        "OK"@
    } else if status == 400 {
        "Bad Request"@
    } else if status == 404 {
        "Not Found"@
    } else if status == 405 {
        "Method Not Allowed"@
    } else if status == 500 {
        "Internal Server Error"@
    } else if status == 501 {
        "Not Implemented"@
    } else {
        "Unknown"@
    }
}

/// The decimal digits of `n`.
pub open spec fn decimal(n: nat) -> Seq<char>
    decreases n,
{
    if n < 10 {
        seq![((n + 48) as u32) as char]
    } else {
        decimal(n / 10).push((((n % 10) + 48) as u32) as char)
    }
}

/// A header value may be sent: its bytes hold no CR, LF or NUL.
pub open spec fn header_value_ok(bytes: Seq<u8>) -> bool {
    forall|i: int| 0 <= i < bytes.len() ==> #[trigger] bytes[i] != 13 && bytes[i] != 10 && bytes[i] != 0
}

/// The head of a response: status line, header lines and the blank line.
pub open spec fn http_head(
    status: u16,
    date: Seq<char>,
    content_type: Seq<char>,
    content_length: nat,
    connection: Seq<char>,
    gzipped: bool,
) -> Seq<char> {
    "HTTP/1.1 "@ + decimal(status as nat) + " "@ + reason_of(status) + crlf() + "Date: "@ + date
        + crlf() + "Content-Type: "@ + content_type + crlf() + "Content-Length: "@ + decimal(
        content_length,
    ) + crlf() + "Connection: "@ + connection + crlf() + (if gzipped {
        "Content-Encoding: gzip"@ + crlf()
    } else {
        Seq::<char>::empty()
    }) + crlf()
}

/// A line break: carriage return, line feed.
pub open spec fn crlf() -> Seq<char> {
    seq!['\r', '\n']
}

/// The bytes of a response: its head in UTF-8, then the body as sent.
pub open spec fn http_message(
    status: u16,
    date: Seq<char>,
    content_type: Seq<char>,
    connection: Seq<char>,
    payload: Seq<u8>,
    gzipped: bool,
) -> Seq<u8> {
    encode_utf8(http_head(status, date, content_type, payload.len(), connection, gzipped))
        + payload
}

/// Whether a body is compressed for the given `Accept` choice.
pub open spec fn should_gzip(body_len: nat, encoding: Option<Seq<char>>) -> bool {
    encoding == Some("gzip"@) && body_len > GZIP_MIN_SIZE
}

/// The IMF-fixdate that `httpdate::fmt_http_date` writes for the time
/// `secs` seconds after 1970-01-01T00:00:00Z.
pub uninterp spec fn http_date(secs: u64) -> Seq<char>;

/// The gzip stream (header with no time stamp and unknown OS, default
/// compression level) that `flate2::write::GzEncoder` writes for `data`.
pub uninterp spec fn gzip_encoded(data: Seq<u8>) -> Seq<u8>;

/// Whether `flate2::write::GzEncoder`, writing into a `Vec`, reports an
/// error while compressing `data` (its source holds error paths for a
/// failing compressor stream).
pub uninterp spec fn gzip_fails(data: Seq<u8>) -> bool;

// ---------------------------------------------------------------------------
// Trusted calls
// ---------------------------------------------------------------------------

/// Formats a time as an HTTP date with `httpdate::fmt_http_date`. Its
/// source writes a fixed 29-byte buffer of letters, digits, spaces, commas
/// and colons (`Sun, 06 Nov 1994 08:49:37 GMT`), and panics for times in
/// the year 10000 or later, which `requires` leaves out.
#[verifier::external_body]
fn fmt_http_date(secs: u64) -> (res: String)
    requires
        secs < HTTP_DATE_LIMIT,
    ensures
        res@ == http_date(secs),
        res@.len() == 29,
        printable(res@),
{
    httpdate::fmt_http_date(std::time::UNIX_EPOCH + std::time::Duration::from_secs(secs))
}

/// Compresses `data` with `flate2::write::GzEncoder` (`new` with the default
/// level, `write_all`, `finish`) into a `Vec`. What it returns on success is
/// named by `gzip_encoded`, and whether it fails by `gzip_fails`: both
/// depend on the bytes alone, the output being an in-memory `Vec`.
#[verifier::external_body]
fn gzip(data: &[u8]) -> (res: Result<Vec<u8>, std::io::Error>)
    ensures
        res is Err <==> gzip_fails(data@),
        res matches Ok(v) ==> v@ == gzip_encoded(data@),
{
    let mut encoder = flate2::write::GzEncoder::new(Vec::new(), flate2::Compression::default());
    encoder.write_all(data)?;
    encoder.finish()
}

// ---------------------------------------------------------------------------
// Helpers
// ---------------------------------------------------------------------------

/// The UTF-8 bytes of `s`.
pub fn str_bytes(s: &str) -> (res: Vec<u8>)
    ensures
        res@ == encode_utf8(s@),
{
    let b = s.as_bytes();
    let mut res: Vec<u8> = Vec::new();
    let mut i: usize = 0;
    while i < b.len()
        invariant
            i <= b@.len(),
            res@ == b@.subrange(0, i as int),
        decreases b@.len() - i,
    {
        res.push(b[i]);
        i = i + 1;
    }
    assert(b@.subrange(0, b@.len() as int) =~= b@);
    res
}

fn append_chars(out: &mut Vec<char>, s: &[char])
    ensures
        final(out)@ == old(out)@ + s@,
{
    let mut i: usize = 0;
    while i < s.len()
        invariant
            i <= s@.len(),
            out@ == old(out)@ + s@.subrange(0, i as int),
        decreases s@.len() - i,
    {
        out.push(s[i]);
        i = i + 1;
        assert(out@ =~= old(out)@ + s@.subrange(0, i as int));
    }
    assert(s@.subrange(0, s@.len() as int) =~= s@);
}

fn append_str(out: &mut Vec<char>, s: &str)
    ensures
        final(out)@ == old(out)@ + s@,
{
    let chars = str_to_chars(s);
    append_chars(out, &chars);
}

fn append_crlf(out: &mut Vec<char>)
    ensures
        final(out)@ == old(out)@ + crlf(),
{
    out.push('\r');
    out.push('\n');
    assert(out@ =~= old(out)@ + crlf());
}

fn append_decimal(out: &mut Vec<char>, n: u64)
    ensures
        final(out)@ == old(out)@ + decimal(n as nat),
    decreases n,
{
    if n >= 10 {
        append_decimal(out, n / 10);
    }
    let d: u8 = (n % 10) as u8;
    out.push((d + 48) as char);
    assert(out@ =~= old(out)@ + decimal(n as nat));
}

/// Whether a header value may be sent: none of its bytes is CR, LF or NUL.
pub fn validate_header_value(value: &str) -> (res: Result<(), ResponseError>)
    ensures
        res is Ok <==> header_value_ok(encode_utf8(value@)),
        res matches Err(e) ==> e == ResponseError::InvalidHeaderValue,
{
    let b = value.as_bytes();
    let mut i: usize = 0;
    while i < b.len()
        invariant
            i <= b@.len(),
            b@ == encode_utf8(value@),
            forall|j: int| 0 <= j < i ==> #[trigger] b@[j] != 13 && b@[j] != 10 && b@[j] != 0,
        decreases b@.len() - i,
    {
        if b[i] == 13 || b[i] == 10 || b[i] == 0 {
            return Err(ResponseError::InvalidHeaderValue);
        }
        i = i + 1;
    }
    Ok(())
}

/// The bytes of a response with status `status`, the given header values
/// and `payload` as its (possibly compressed) body.
pub fn frame_message(
    status: u16,
    date: &str,
    content_type: &str,
    connection: &str,
    payload: &[u8],
    gzipped: bool,
) -> (res: Vec<u8>)
    ensures
        res@ == http_message(status, date@, content_type@, connection@, payload@, gzipped),
{
    let mut head: Vec<char> = Vec::new();
    append_str(&mut head, "HTTP/1.1 ");
    append_decimal(&mut head, status as u64);
    append_str(&mut head, " ");
    append_str(&mut head, reason_text(status));
    append_crlf(&mut head);
    append_str(&mut head, "Date: ");
    append_str(&mut head, date);
    append_crlf(&mut head);
    append_str(&mut head, "Content-Type: ");
    append_str(&mut head, content_type);
    append_crlf(&mut head);
    append_str(&mut head, "Content-Length: ");
    append_decimal(&mut head, payload.len() as u64);
    append_crlf(&mut head);
    append_str(&mut head, "Connection: ");
    append_str(&mut head, connection);
    append_crlf(&mut head);
    if gzipped {
        append_str(&mut head, "Content-Encoding: gzip");
        append_crlf(&mut head);
    }
    append_crlf(&mut head);
    assert(head@ =~= http_head(status, date@, content_type@, payload@.len(), connection@, gzipped));
    let text = string_from_chars(&head);
    let mut res = str_bytes(text.as_str());
    let mut i: usize = 0;
    let ghost start = res@;
    while i < payload.len()
        invariant
            i <= payload@.len(),
            res@ == start + payload@.subrange(0, i as int),
        decreases payload@.len() - i,
    {
        res.push(payload[i]);
        i = i + 1;
        assert(res@ =~= start + payload@.subrange(0, i as int));
    }
    assert(payload@.subrange(0, payload@.len() as int) =~= payload@);
    res
}

/// The reason phrase of a status code.
pub fn reason_text(status: u16) -> (res: &'static str)
    ensures
        res@ == reason_of(status),
{
    if status == 200 {
        "OK"
    } else if status == 400 {
        "Bad Request"
    } else if status == 404 {
        "Not Found"
    } else if status == 405 {
        "Method Not Allowed"
    } else if status == 500 {
        "Internal Server Error"
    } else if status == 501 {
        "Not Implemented"
    } else {
        "Unknown"
    }
}

// ---------------------------------------------------------------------------
// Response
// ---------------------------------------------------------------------------

fn plain_text(status: u16, text: &str) -> (res: Response)
    ensures
        res.status == status,
        res.content_type@ == "text/plain; charset=utf-8"@,
        res.body@ == encode_utf8(text@),
{
    Response {
        status,
        content_type: "text/plain; charset=utf-8".to_owned(),
        body: str_bytes(text),
    }
}

impl Response {
    /// A `200 OK` HTML page with the given text.
    pub fn ok(body: &str) -> (res: Response)
        ensures
            res.status == 200,
            res.content_type@ == "text/html; charset=utf-8"@,
            res.body@ == encode_utf8(body@),
    {
        Response {
            status: 200,
            content_type: "text/html; charset=utf-8".to_owned(),
            body: str_bytes(body),
        }
    }

    /// A `200 OK` response with the given media type and body.
    pub fn ok_bytes(content_type: &str, body: Vec<u8>) -> (res: Response)
        ensures
            res.status == 200,
            res.content_type@ == content_type@,
            res.body@ == body@,
    {
        Response { status: 200, content_type: content_type.to_owned(), body }
    }

    /// `404 Not Found`.
    pub fn not_found() -> (res: Response)
        ensures
            res.status == 404,
            res.content_type@ == "text/plain; charset=utf-8"@,
            res.body@ == encode_utf8("404 Not Found"@),
    {
        plain_text(404, "404 Not Found")
    }

    /// `405 Method Not Allowed`.
    pub fn method_not_allowed() -> (res: Response)
        ensures
            res.status == 405,
            res.content_type@ == "text/plain; charset=utf-8"@,
            res.body@ == encode_utf8("405 Method Not Allowed"@),
    {
        plain_text(405, "405 Method Not Allowed")
    }

    /// `400 Bad Request`.
    pub fn bad_request() -> (res: Response)
        ensures
            res.status == 400,
            res.content_type@ == "text/plain; charset=utf-8"@,
            res.body@ == encode_utf8("400 Bad Request"@),
    {
        plain_text(400, "400 Bad Request")
    }

    /// `501 Not Implemented`.
    pub fn not_implemented() -> (res: Response)
        ensures
            res.status == 501,
            res.content_type@ == "text/plain; charset=utf-8"@,
            res.body@ == encode_utf8("501 Not Implemented"@),
    {
        plain_text(501, "501 Not Implemented")
    }

    /// `500 Internal Server Error`.
    pub fn internal_server_error() -> (res: Response)
        ensures
            res.status == 500,
            res.content_type@ == "text/plain; charset=utf-8"@,
            res.body@ == encode_utf8("500 Internal Server Error"@),
    {
        plain_text(500, "500 Internal Server Error")
    }

    /// A `200 OK` response carrying a file's contents.
    pub fn static_file(content_type: &str, body: Vec<u8>) -> (res: Response)
        ensures
            res.status == 200,
            res.content_type@ == content_type@,
            res.body@ == body@,
    {
        Response { status: 200, content_type: content_type.to_owned(), body }
    }

    /// The reason phrase of this response's status.
    pub fn reason_phrase(&self) -> (res: &'static str)
        ensures
            res@ == reason_of(self.status),
    {
        reason_text(self.status)
    }

    /// The response in HTTP/1.1 wire form, dated `unix_time` (seconds since
    /// 1970), with the given `Connection` value, its body gzip-compressed
    /// when `encoding` is `gzip` and the body is longer than
    /// [`GZIP_MIN_SIZE`] bytes. Header values holding CR, LF or NUL are
    /// refused.
    pub fn into_http_bytes(self, connection: &str, encoding: Option<&str>, unix_time: u64) -> (res:
        Result<Vec<u8>, ResponseError>)
        requires
            unix_time < HTTP_DATE_LIMIT,
        ensures
            printable(http_date(unix_time)),
            http_date(unix_time).len() == 29,
            !header_value_ok(encode_utf8(connection@)) || !header_value_ok(
                encode_utf8(self.content_type@),
            ) ==> res == Err::<Vec<u8>, ResponseError>(ResponseError::InvalidHeaderValue),
            header_value_ok(encode_utf8(connection@)) && header_value_ok(
                encode_utf8(self.content_type@),
            ) ==> match res {
                Ok(bytes) => bytes@ == http_message(
                    self.status,
                    http_date(unix_time),
                    self.content_type@,
                    connection@,
                    if should_gzip(self.body@.len(), encoding_view(encoding)) {
                        gzip_encoded(self.body@)
                    } else {
                        self.body@
                    },
                    should_gzip(self.body@.len(), encoding_view(encoding)),
                ) && !(should_gzip(self.body@.len(), encoding_view(encoding)) && gzip_fails(
                    self.body@,
                )),
                Err(e) => e == ResponseError::Compression && should_gzip(
                    self.body@.len(),
                    encoding_view(encoding),
                ) && gzip_fails(self.body@),
            },
    {
        let date = fmt_http_date(unix_time);
        if let Err(e) = validate_header_value(connection) {
            return Err(e);
        }
        if let Err(e) = validate_header_value(self.content_type.as_str()) {
            return Err(e);
        }
        let gzipped = match encoding {
            Some(enc) => chars_eq(&str_to_chars(enc), &str_to_chars("gzip")) && self.body.len()
                > GZIP_MIN_SIZE,
            None => false,
        };
        if gzipped {
            match gzip(self.body.as_slice()) {
                Ok(compressed) => Ok(
                    frame_message(
                        self.status,
                        date.as_str(),
                        self.content_type.as_str(),
                        connection,
                        compressed.as_slice(),
                        true,
                    ),
                ),
                Err(_) => Err(ResponseError::Compression),
            }
        } else {
            Ok(
                frame_message(
                    self.status,
                    date.as_str(),
                    self.content_type.as_str(),
                    connection,
                    self.body.as_slice(),
                    false,
                ),
            )
        }
    }

    /// The same response without a body (as sent for `HEAD`).
    pub fn head(self) -> (res: Response)
        ensures
            res.status == self.status,
            res.content_type == self.content_type,
            res.body@ == Seq::<u8>::empty(),
    {
        let mut r = self;
        r.body.clear();
        r
    }
}

/// The characters of an optional string slice.
pub open spec fn encoding_view(encoding: Option<&str>) -> Option<Seq<char>> {
    match encoding {
        Some(e) => Some(e@),
        None => None,
    }
}

} // verus!
