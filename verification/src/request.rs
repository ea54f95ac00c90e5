//! Parsing of an HTTP/1.0 or HTTP/1.1 request head: the request line and
//! the header fields, with the size limits the server enforces.

use vstd::prelude::*;
use vstd::utf8::*;

use crate::text::{
    ascii_lower, char_views, chars_eq, copy_range, eq_ignore_ascii_case, eq_ignore_case,
    find_char, find_char_in, is_ws, lower_char, trim_end, trim_start, split_char, split_crlf, split_crlf_lines, split_on_char,
    split_words, str_from_utf8, str_to_chars, string_from_chars, trim, trim_bounds, trim_chars,
    utf8_len, utf8_len_capped, words, lines_from, to_ascii_lower,
};

verus! {

/// Longest request line accepted, in bytes.
pub const MAX_REQUEST_LINE_LEN: usize = 8 * 1024;

/// Longest header line accepted, in bytes.
pub const MAX_HEADER_LEN: usize = 8 * 1024;

/// Most distinct header names accepted.
pub const MAX_HEADERS_COUNT: usize = 100;

/// Largest total size of the header lines, in bytes.
pub const MAX_HEADERS_SIZE: usize = 8 * 1024;

/// The request method.
#[derive(Debug, Clone, Copy, PartialEq, Eq, Structural)]
pub enum Method {
    Get,
    Post,
    Put,
    Delete,
    Patch,
    Head,
    Options,
    Unsupported,
}

/// Why a request head was rejected.
#[derive(Debug, Clone, Copy, PartialEq, Eq, Structural)]
pub enum RequestError {
    /// No blank line (`"\r\n\r\n"`) ends the head.
    MissingHeaderEnd,
    /// The head is not valid UTF-8.
    InvalidUtf8,
    /// The request line is longer than [`MAX_REQUEST_LINE_LEN`] bytes.
    RequestLineTooLong,
    /// The request line holds no method.
    MissingMethod,
    /// The request line holds no target.
    MissingTarget,
    /// The request line holds no version.
    MissingVersion,
    /// The request line holds more than three words.
    TooManyParts,
    /// The version is neither `HTTP/1.0` nor `HTTP/1.1`.
    UnsupportedVersion,
    /// The target is neither `*` nor starts with `/`.
    InvalidTarget,
    /// More than [`MAX_HEADERS_COUNT`] distinct header names.
    TooManyHeaders,
    /// A header line is longer than [`MAX_HEADER_LEN`] bytes.
    HeaderTooLong,
    /// The header lines together exceed [`MAX_HEADERS_SIZE`] bytes.
    HeadersTooLarge,
    /// A header line holds no `:`.
    InvalidHeader,
}

// ---------------------------------------------------------------------------
// Specification
// ---------------------------------------------------------------------------

/// A header field list: lower-case names with their values, in the order
/// in which each name first appeared.
pub type HeaderList = Seq<(Seq<char>, Seq<char>)>;

/// What a parsed request holds.
pub struct RequestModel {
    pub method: Method,
    pub path: Seq<char>,
    pub query: Option<Seq<char>>,
    pub version: Seq<char>,
    pub headers: HeaderList,
}

/// The method that a method word names.
pub open spec fn method_of(s: Seq<char>) -> Method {
    if s == "GET"@ {
        Method::Get
    } else if s == "POST"@ {
        Method::Post
    } else if s == "PUT"@ {
        Method::Put
    } else if s == "DELETE"@ {
        Method::Delete
    } else if s == "PATCH"@ {
        Method::Patch
    } else if s == "HEAD"@ {
        Method::Head
    } else if s == "OPTIONS"@ {
        Method::Options
    } else {
        Method::Unsupported
    }
}

/// A target split at its first `?` into path and query; an empty query is
/// no query.
pub open spec fn split_target(t: Seq<char>) -> (Seq<char>, Option<Seq<char>>) {
    match find_char(t, '?') {
        Some(k) => (
            t.take(k),
            if k + 1 < t.len() {
                Some(t.skip(k + 1))
            } else {
                None
            },
        ),
        None => (t, None),
    }
}

/// The outcome of reading a request line: method, path, query and version.
pub open spec fn request_line_spec(line: Seq<char>) -> Result<
    (Method, Seq<char>, Option<Seq<char>>, Seq<char>),
    RequestError,
> {
    let ws = words(line);
    if ws.len() < 1 {
        Err(RequestError::MissingMethod)
    } else if ws.len() < 2 {
        Err(RequestError::MissingTarget)
    } else if ws.len() < 3 {
        Err(RequestError::MissingVersion)
    } else if ws.len() > 3 {
        Err(RequestError::TooManyParts)
    } else if ws[2] != "HTTP/1.0"@ && ws[2] != "HTTP/1.1"@ {
        Err(RequestError::UnsupportedVersion)
    } else if ws[1] != "*"@ && !(ws[1].len() > 0 && ws[1][0] == '/') {
        Err(RequestError::InvalidTarget)
    } else {
        Ok((method_of(ws[0]), split_target(ws[1]).0, split_target(ws[1]).1, ws[2]))
    }
}

/// The position of the first entry named `name`.
pub open spec fn find_header(hs: HeaderList, name: Seq<char>) -> Option<int>
    decreases hs.len(),
{
    if hs.len() == 0 {
        None
    } else if hs[0].0 == name {
        Some(0)
    } else {
        match find_header(hs.drop_first(), name) {
            Some(k) => Some(k + 1),
            None => None,
        }
    }
}

/// The value of the entry named `name`.
pub open spec fn header_value(hs: HeaderList, name: Seq<char>) -> Option<Seq<char>> {
    match find_header(hs, name) {
        Some(k) => Some(hs[k].1),
        None => None,
    }
}

/// `hs` with the field `key: value` added: appended to an existing value
/// after `", "`, or as a new entry.
pub open spec fn add_header(hs: HeaderList, key: Seq<char>, value: Seq<char>) -> HeaderList {
    match find_header(hs, key) {
        Some(k) => hs.update(k, (key, hs[k].1 + seq![',', ' '] + value)),
        None => hs.push((key, value)),
    }
}

/// The outcome of reading header lines `lines[i..]` into `hs`, `total`
/// bytes of header lines having been read so far.
pub open spec fn headers_from(lines: Seq<Seq<char>>, i: int, hs: HeaderList, total: nat) -> Result<
    HeaderList,
    RequestError,
>
    decreases lines.len() - i,
{
    if i < 0 || i >= lines.len() {
        Ok(hs)
    } else {
        let line = trim(lines[i]);
        if line.len() == 0 {
            headers_from(lines, i + 1, hs, total)
        } else if hs.len() >= MAX_HEADERS_COUNT {
            Err(RequestError::TooManyHeaders)
        } else if utf8_len(line) > MAX_HEADER_LEN {
            Err(RequestError::HeaderTooLong)
        } else if total + utf8_len(line) > MAX_HEADERS_SIZE {
            Err(RequestError::HeadersTooLarge)
        } else {
            match find_char(line, ':') {
                None => Err(RequestError::InvalidHeader),
                Some(k) => headers_from(
                    lines,
                    i + 1,
                    add_header(hs, ascii_lower(trim(line.take(k))), trim(line.skip(k + 1))),
                    total + utf8_len(line),
                ),
            }
        }
    }
}

/// The outcome of reading a sequence of header lines.
pub open spec fn parse_headers(lines: Seq<Seq<char>>) -> Result<HeaderList, RequestError> {
    headers_from(lines, 0, seq![], 0)
}

/// The first position at or after `i` where `"\r\n\r\n"` starts in `p`.
pub open spec fn separator_from(p: Seq<u8>, i: int) -> Option<int>
    decreases p.len() - i,
{
    if i < 0 || i + 4 > p.len() {
        None
    } else if p[i] == 13 && p[i + 1] == 10 && p[i + 2] == 13 && p[i + 3] == 10 {
        Some(i)
    } else {
        separator_from(p, i + 1)
    }
}

/// Where the head of a request ends: the first `"\r\n\r\n"`.
pub open spec fn head_end(p: Seq<u8>) -> Option<int> {
    separator_from(p, 0)
}

/// The outcome of parsing a request from its raw bytes.
pub open spec fn parse_request(p: Seq<u8>) -> Result<RequestModel, RequestError> {
    match head_end(p) {
        None => Err(RequestError::MissingHeaderEnd),
        Some(pos) => {
            let head = p.take(pos);
            if !valid_utf8(head) {
                Err(RequestError::InvalidUtf8)
            } else {
                let lines = split_crlf(decode_utf8(head));
                let line = trim(lines[0]);
                if utf8_len(line) > MAX_REQUEST_LINE_LEN {
                    Err(RequestError::RequestLineTooLong)
                } else {
                    match request_line_spec(line) {
                        Err(e) => Err(e),
                        Ok((method, path, query, version)) => match parse_headers(lines.skip(1)) {
                            Err(e) => Err(e),
                            Ok(headers) => Ok(
                                RequestModel { method, path, query, version, headers },
                            ),
                        },
                    }
                }
            }
        },
    }
}

/// Whether the connection stays open after answering this request.
pub open spec fn keep_alive_spec(r: RequestModel) -> bool {
    match header_value(r.headers, "connection"@) {
        Some(c) => if eq_ignore_case(c, "close"@) {
            false
        } else if eq_ignore_case(c, "keep-alive"@) {
            true
        } else {
            r.version == "HTTP/1.1"@
        },
        None => r.version == "HTTP/1.1"@,
    }
}

/// Whether the comma-separated list `value` holds `encoding`, up to
/// surrounding whitespace and ASCII case.
pub open spec fn lists_encoding(value: Seq<char>, encoding: Seq<char>) -> bool {
    exists|k: int|
        0 <= k < split_char(value, ',').len() && #[trigger] eq_ignore_case(
            trim(split_char(value, ',')[k]),
            encoding,
        )
}

/// Whether `Accept-Encoding` lists `encoding`, up to ASCII case.
pub open spec fn accepts_spec(r: RequestModel, encoding: Seq<char>) -> bool {
    match header_value(r.headers, "accept-encoding"@) {
        Some(v) => lists_encoding(v, encoding),
        None => false,
    }
}

/// The character contents of a sequence of string slices.
pub open spec fn str_views(v: Seq<&str>) -> Seq<Seq<char>> {
    v.map_values(|l: &str| l@)
}

// ---------------------------------------------------------------------------
// Lemmas
// ---------------------------------------------------------------------------

proof fn lemma_lines_nonempty(s: Seq<char>, start: int, i: int)
    ensures
        lines_from(s, start, i).len() >= 1,
    decreases s.len() - i,
{
    if i + 1 >= s.len() {
    } else if s[i] == '\r' && s[i + 1] == '\n' {
        lemma_lines_nonempty(s, i + 2, i + 2);
    } else {
        lemma_lines_nonempty(s, start, i + 1);
    }
}

// ---------------------------------------------------------------------------
// Well-formed header lists
// ---------------------------------------------------------------------------

/// Every header name is in lower case and without surrounding whitespace,
/// no name occurs twice, and there are at most [`MAX_HEADERS_COUNT`] names.
pub open spec fn well_formed_headers(hs: HeaderList) -> bool {
    &&& hs.len() <= MAX_HEADERS_COUNT
    &&& forall|i: int| 0 <= i < hs.len() ==> ascii_lower(#[trigger] hs[i].0) == hs[i].0
    &&& forall|i: int| 0 <= i < hs.len() ==> trim(#[trigger] hs[i].0) == hs[i].0
    &&& forall|i: int, j: int|
        0 <= i < hs.len() && 0 <= j < hs.len() && i != j ==> #[trigger] hs[i].0 != #[trigger] hs[j].0
}

pub proof fn lemma_lower_idempotent(s: Seq<char>)
    ensures
        ascii_lower(ascii_lower(s)) == ascii_lower(s),
{
    assert forall|i: int| 0 <= i < s.len() implies lower_char(lower_char(s[i])) == lower_char(
        s[i],
    ) by {
        let c = s[i];
        if 'A' <= c && c <= 'Z' {
            let d = ((c as u32) + 32) as char;
            assert((d as u32) == (c as u32) + 32);
        }
    }
    assert(ascii_lower(ascii_lower(s)) =~= ascii_lower(s));
}

/// `s` is empty or begins and ends with something other than whitespace.
spec fn trimmed_shape(s: Seq<char>) -> bool {
    s.len() == 0 || (!is_ws(s[0]) && !is_ws(s.last()))
}

proof fn lemma_trim_start_shape(s: Seq<char>)
    ensures
        trim_start(s).len() == 0 || !is_ws(trim_start(s)[0]),
    decreases s.len(),
{
    if s.len() > 0 && is_ws(s[0]) {
        lemma_trim_start_shape(s.drop_first());
    }
}

proof fn lemma_trim_end_shape(t: Seq<char>)
    ensures
        trim_end(t).len() == 0 || !is_ws(trim_end(t).last()),
        t.len() > 0 && !is_ws(t[0]) ==> trim_end(t).len() > 0 && trim_end(t)[0] == t[0],
    decreases t.len(),
{
    if t.len() > 0 && is_ws(t.last()) {
        lemma_trim_end_shape(t.drop_last());
    }
}

proof fn lemma_trim_shape(s: Seq<char>)
    ensures
        trimmed_shape(trim(s)),
{
    lemma_trim_start_shape(s);
    lemma_trim_end_shape(trim_start(s));
}

proof fn lemma_trim_fixed(y: Seq<char>)
    requires
        trimmed_shape(y),
    ensures
        trim(y) == y,
{
}

proof fn lemma_lower_keeps_ws(c: char)
    ensures
        is_ws(lower_char(c)) == is_ws(c),
{
    if 'A' <= c && c <= 'Z' {
        let d = ((c as u32) + 32) as char;
        assert((d as u32) == (c as u32) + 32);
    }
}

/// A header name as kept (`ascii_lower` of a trimmed text) is trimmed.
pub proof fn lemma_lower_trimmed(x: Seq<char>)
    ensures
        trim(ascii_lower(trim(x))) == ascii_lower(trim(x)),
{
    let t = trim(x);
    lemma_trim_shape(x);
    let y = ascii_lower(t);
    if t.len() > 0 {
        lemma_lower_keeps_ws(t[0]);
        lemma_lower_keeps_ws(t.last());
        assert(y[0] == lower_char(t[0]));
        assert(y.last() == lower_char(t.last()));
    }
    lemma_trim_fixed(y);
}

proof fn lemma_find_header(hs: HeaderList, name: Seq<char>)
    ensures
        match find_header(hs, name) {
            Some(k) => 0 <= k < hs.len() && hs[k].0 == name,
            None => forall|i: int| 0 <= i < hs.len() ==> #[trigger] hs[i].0 != name,
        },
    decreases hs.len(),
{
    if hs.len() > 0 && hs[0].0 != name {
        lemma_find_header(hs.drop_first(), name);
        assert forall|i: int| 1 <= i < hs.len() implies #[trigger] hs[i].0 == hs.drop_first()[i
            - 1].0 by {}
    }
}

pub proof fn lemma_add_header_well_formed(hs: HeaderList, key: Seq<char>, value: Seq<char>)
    requires
        well_formed_headers(hs),
        ascii_lower(key) == key,
        trim(key) == key,
        find_header(hs, key) is Some || hs.len() < MAX_HEADERS_COUNT,
    ensures
        well_formed_headers(add_header(hs, key, value)),
{
    lemma_find_header(hs, key);
}

pub proof fn lemma_headers_from_well_formed(
    lines: Seq<Seq<char>>,
    i: int,
    hs: HeaderList,
    total: nat,
)
    requires
        well_formed_headers(hs),
    ensures
        headers_from(lines, i, hs, total) matches Ok(out) ==> well_formed_headers(out),
    decreases lines.len() - i,
{
    if i < 0 || i >= lines.len() {
    } else {
        let line = trim(lines[i]);
        if line.len() == 0 {
            lemma_headers_from_well_formed(lines, i + 1, hs, total);
        } else if hs.len() >= MAX_HEADERS_COUNT {
        } else {
            match find_char(line, ':') {
                None => {},
                Some(k) => {
                    let key = ascii_lower(trim(line.take(k)));
                    let value = trim(line.skip(k + 1));
                    lemma_lower_idempotent(trim(line.take(k)));
                    lemma_lower_trimmed(line.take(k));
                    lemma_add_header_well_formed(hs, key, value);
                    lemma_headers_from_well_formed(
                        lines,
                        i + 1,
                        add_header(hs, key, value),
                        total + utf8_len(line),
                    );
                },
            }
        }
    }
}

// ---------------------------------------------------------------------------
// Headers
// ---------------------------------------------------------------------------

/// Header fields of a request, looked up by lower-case name.
#[derive(Debug)]
pub struct Headers {
    entries: Vec<(String, String)>,
}

impl View for Headers {
    type V = HeaderList;

    closed spec fn view(&self) -> HeaderList {
        self.entries@.map_values(|e: (String, String)| (e.0@, e.1@))
    }
}

impl Headers {
    /// Names are in lower case, trimmed and unique; there are at most
    /// [`MAX_HEADERS_COUNT`] of them.
    #[verifier::type_invariant]
    closed spec fn inv(self) -> bool {
        well_formed_headers(self@)
    }

    /// No header fields.
    pub fn new() -> (res: Headers)
        ensures
            res@ == Seq::<(Seq<char>, Seq<char>)>::empty(),
    {
        let entries: Vec<(String, String)> = Vec::new();
        assert(entries@.map_values(|e: (String, String)| (e.0@, e.1@)) =~= Seq::<
            (Seq<char>, Seq<char>),
        >::empty());
        Headers { entries }
    }

    /// The number of distinct names; the list is well formed.
    pub fn len(&self) -> (res: usize)
        ensures
            res == self@.len(),
            well_formed_headers(self@),
    {
        proof {
            use_type_invariant(self);
        }
        self.entries.len()
    }

    /// The position of the entry named `name`.
    fn position(&self, name: &String) -> (res: Option<usize>)
        ensures
            match res {
                Some(k) => find_header(self@, name@) == Some(k as int) && k < self@.len(),
                None => find_header(self@, name@) is None,
            },
    {
        let mut i: usize = 0;
        assert(self@.skip(0) =~= self@);
        while i < self.entries.len()
            invariant
                i <= self@.len(),
                self@.len() == self.entries@.len(),
                find_header(self@, name@) == (match find_header(self@.skip(i as int), name@) {
                    Some(k) => Some(k + i),
                    None => None::<int>,
                }),
            decreases self@.len() - i,
        {
            proof {
                assert(self@.skip(i as int).drop_first() =~= self@.skip(i + 1));
                assert(self@.skip(i as int)[0] == self@[i as int]);
            }
            if self.entries[i].0 == *name {
                return Some(i);
            }
            i = i + 1;
        }
        None
    }

    /// The value of the header named `name` (names are stored in lower case).
    pub fn get(&self, name: &str) -> (res: Option<&str>)
        ensures
            match res {
                Some(v) => header_value(self@, name@) == Some(v@),
                None => header_value(self@, name@) is None,
            },
    {
        let key = name.to_owned();
        assert(key@ == name@);
        match self.position(&key) {
            Some(k) => {
                assert(find_header(self@, name@) == Some(k as int));
                assert(self@[k as int] == (self.entries@[k as int].0@, self.entries@[k as int].1@));
                Some(self.entries[k].1.as_str())
            },
            None => None,
        }
    }

    /// Adds the field `key: value`, appending to an existing value after
    /// `", "` when `key` is already present.
    fn add(&mut self, key: &[char], value: &[char])
        requires
            ascii_lower(key@) == key@,
            trim(key@) == key@,
            find_header(old(self)@, key@) is Some || old(self)@.len() < MAX_HEADERS_COUNT,
        ensures
            final(self)@ == add_header(old(self)@, key@, value@),
    {
        proof {
            use_type_invariant(&*self);
            lemma_add_header_well_formed(self@, key@, value@);
        }
        let k = string_from_chars(key);
        let position = self.position(&k);
        let ghost old_view = self@;
        let mut entries: Vec<(String, String)> = Vec::new();
        std::mem::swap(&mut entries, &mut self.entries);
        let ghost old_entries = entries@;
        assert(old_view =~= old_entries.map_values(|e: (String, String)| (e.0@, e.1@)));
        match position {
            Some(j) => {
                let mut joined = str_to_chars(entries[j].1.as_str());
                let ghost old_value = joined@;
                joined.push(',');
                joined.push(' ');
                assert(joined@ =~= old_value + seq![',', ' ']);
                let mut t: usize = 0;
                let ghost before = joined@;
                while t < value.len()
                    invariant
                        t <= value@.len(),
                        joined@ == before + value@.subrange(0, t as int),
                    decreases value@.len() - t,
                {
                    joined.push(value[t]);
                    t = t + 1;
                    assert(joined@ =~= before + value@.subrange(0, t as int));
                }
                assert(value@.subrange(0, value@.len() as int) =~= value@);
                let v = string_from_chars(&joined);
                assert(old_view[j as int] == (old_entries[j as int].0@, old_entries[j as int].1@));
                entries.set(j, (k, v));
                assert(entries@ == old_entries.update(j as int, (k, v)));
                assert(entries@.map_values(|e: (String, String)| (e.0@, e.1@)) =~= old_view.update(
                    j as int,
                    (key@, old_view[j as int].1 + seq![',', ' '] + value@),
                ));
            },
            None => {
                let v = string_from_chars(value);
                entries.push((k, v));
                assert(entries@ == old_entries.push((k, v)));
                assert(entries@.map_values(|e: (String, String)| (e.0@, e.1@)) =~= old_view.push(
                    (key@, value@),
                ));
            },
        }
        self.entries = entries;
    }
}

// ---------------------------------------------------------------------------
// Request
// ---------------------------------------------------------------------------

/// A parsed request head.
#[derive(Debug)]
pub struct Request {
    method: Method,
    path: String,
    query: Option<String>,
    version: String,
    headers: Headers,
}

impl View for Request {
    type V = RequestModel;

    closed spec fn view(&self) -> RequestModel {
        RequestModel {
            method: self.method,
            path: self.path@,
            query: match self.query {
                Some(q) => Some(q@),
                None => None,
            },
            version: self.version@,
            headers: self.headers@,
        }
    }
}

impl Method {
    /// The method named by `value` (`Unsupported` for any other word).
    pub fn parse(value: &str) -> (res: Method)
        ensures
            res == method_of(value@),
    {
        Self::parse_chars(&str_to_chars(value))
    }

    fn parse_chars(value: &[char]) -> (res: Method)
        ensures
            res == method_of(value@),
    {
        if chars_eq(value, &str_to_chars("GET")) {
            Method::Get
        } else if chars_eq(value, &str_to_chars("POST")) {
            Method::Post
        } else if chars_eq(value, &str_to_chars("PUT")) {
            Method::Put
        } else if chars_eq(value, &str_to_chars("DELETE")) {
            Method::Delete
        } else if chars_eq(value, &str_to_chars("PATCH")) {
            Method::Patch
        } else if chars_eq(value, &str_to_chars("HEAD")) {
            Method::Head
        } else if chars_eq(value, &str_to_chars("OPTIONS")) {
            Method::Options
        } else {
            Method::Unsupported
        }
    }
}

/// Splits a request at the first `"\r\n\r\n"` into head and body.
pub fn split_head_body(payload: &[u8]) -> (res: Result<(&[u8], &[u8]), RequestError>)
    ensures
        match head_end(payload@) {
            Some(pos) => res matches Ok((head, body)) && head@ == payload@.take(pos) && body@
                == payload@.skip(pos + 4),
            None => res == Err::<(&[u8], &[u8]), RequestError>(RequestError::MissingHeaderEnd),
        },
{
    let mut i: usize = 0;
    while payload.len() - i >= 4
        invariant
            i <= payload@.len(),
            head_end(payload@) == separator_from(payload@, i as int),
        decreases payload@.len() - i,
    {
        if payload[i] == 13 && payload[i + 1] == 10 && payload[i + 2] == 13 && payload[i + 3]
            == 10 {
            let (head, rest) = payload.split_at(i);
            let (_sep, body) = rest.split_at(4);
            assert(head@ =~= payload@.take(i as int));
            assert(body@ =~= payload@.skip(i + 4));
            return Ok((head, body));
        }
        i = i + 1;
    }
    Err(RequestError::MissingHeaderEnd)
}

impl Request {
    /// Parses a request from its raw bytes; the body after the head is
    /// ignored.
    pub fn new(request_payload: &[u8]) -> (res: Result<Request, RequestError>)
        ensures
            match res {
                Ok(r) => parse_request(request_payload@) == Ok::<RequestModel, RequestError>(r@),
                Err(e) => parse_request(request_payload@) == Err::<RequestModel, RequestError>(e),
            },
    {
        let (head, _body) = match split_head_body(request_payload) {
            Ok(parts) => parts,
            Err(e) => return Err(e),
        };
        let text = match str_from_utf8(head) {
            Some(t) => t,
            None => return Err(RequestError::InvalidUtf8),
        };
        let chars = str_to_chars(text);
        let lines = split_crlf_lines(&chars);
        proof {
            lemma_lines_nonempty(chars@, 0, 0);
        }
        let request_line = trim_chars(&lines[0]);
        if utf8_len_capped(&request_line, MAX_REQUEST_LINE_LEN) > MAX_REQUEST_LINE_LEN {
            return Err(RequestError::RequestLineTooLong);
        }
        let (method, path, query, version) = match Self::extract_line_chars(&request_line) {
            Ok(parts) => parts,
            Err(e) => return Err(e),
        };
        proof {
            lemma_headers_from_shift(char_views(lines@), 1);
            assert(headers_from(char_views(lines@), 1, seq![], 0) == headers_from(
                char_views(lines@).skip(1),
                0,
                seq![],
                0,
            ));
        }
        let headers = match Self::extract_header_lines(&lines, 1) {
            Ok(h) => h,
            Err(e) => return Err(e),
        };
        let query = match query {
            Some(q) => Some(string_from_chars(&q)),
            None => None,
        };
        Ok(
            Request {
                method,
                path: string_from_chars(&path),
                query,
                version: string_from_chars(&version),
                headers,
            },
        )
    }

    /// The request method.
    pub fn method(&self) -> (res: Method)
        ensures
            res == self@.method,
    {
        self.method
    }

    /// The path of the target, without the query.
    pub fn path(&self) -> (res: &str)
        ensures
            res@ == self@.path,
    {
        self.path.as_str()
    }

    /// The query of the target, when one was given and is not empty.
    pub fn query(&self) -> (res: Option<&str>)
        ensures
            match res {
                Some(q) => self@.query == Some(q@),
                None => self@.query is None,
            },
    {
        match &self.query {
            Some(q) => Some(q.as_str()),
            None => None,
        }
    }

    /// The protocol version, `HTTP/1.0` or `HTTP/1.1`.
    pub fn version(&self) -> (res: &str)
        ensures
            res@ == self@.version,
    {
        self.version.as_str()
    }

    /// The header fields.
    pub fn headers(&self) -> (res: &Headers)
        ensures
            res@ == self@.headers,
            well_formed_headers(res@),
    {
        proof {
            use_type_invariant(&self.headers);
        }
        &self.headers
    }

    /// Whether the client wants the connection kept open: as its
    /// `Connection` header says, else by default for HTTP/1.1 only.
    pub fn wants_keep_alive(&self) -> (res: bool)
        ensures
            res == keep_alive_spec(self@),
    {
        let is_11 = chars_eq(&str_to_chars(self.version.as_str()), &str_to_chars("HTTP/1.1"));
        match self.headers.get("connection") {
            Some(conn) => {
                let c = str_to_chars(conn);
                if eq_ignore_ascii_case(&c, &str_to_chars("close")) {
                    false
                } else if eq_ignore_ascii_case(&c, &str_to_chars("keep-alive")) {
                    true
                } else {
                    is_11
                }
            },
            None => is_11,
        }
    }

    /// Whether the `Accept-Encoding` header lists `encoding`, up to ASCII
    /// case.
    pub fn accepts_encoding(&self, encoding: &str) -> (res: bool)
        ensures
            res == accepts_spec(self@, encoding@),
    {
        let enc = str_to_chars(encoding);
        match self.headers.get("accept-encoding") {
            Some(value) => {
                let v = str_to_chars(value);
                let parts = split_on_char(&v, ',');
                assert(self@.headers == self.headers@);
                assert(split_char(v@, ',').len() == parts@.len());
                assert(header_value(self@.headers, "accept-encoding"@) == Some(v@));
                let mut k: usize = 0;
                while k < parts.len()
                    invariant
                        k <= parts@.len(),
                        header_value(self@.headers, "accept-encoding"@) == Some(v@),
                        enc@ == encoding@,
                        char_views(parts@) == split_char(v@, ','),
                        forall|j: int|
                            0 <= j < k ==> !#[trigger] eq_ignore_case(
                                trim(split_char(v@, ',')[j]),
                                enc@,
                            ),
                    decreases parts@.len() - k,
                {
                    let part = trim_chars(&parts[k]);
                    assert(char_views(parts@)[k as int] == parts@[k as int]@);
                    if eq_ignore_ascii_case(&part, &enc) {
                        assert(eq_ignore_case(trim(split_char(v@, ',')[k as int]), enc@));
                        assert(lists_encoding(v@, encoding@));
                        return true;
                    }
                    k = k + 1;
                }
                false
            },
            None => false,
        }
    }

    /// Reads a request line into method, path, query and version.
    pub fn extract_request_line(payload: &str) -> (res: Result<
        (Method, String, Option<String>, String),
        RequestError,
    >)
        ensures
            match res {
                Ok((m, p, q, v)) => request_line_spec(payload@) == Ok::<
                    (Method, Seq<char>, Option<Seq<char>>, Seq<char>),
                    RequestError,
                >(
                    (
                        m,
                        p@,
                        match q {
                            Some(q) => Some(q@),
                            None => None,
                        },
                        v@,
                    ),
                ),
                Err(e) => request_line_spec(payload@) == Err::<
                    (Method, Seq<char>, Option<Seq<char>>, Seq<char>),
                    RequestError,
                >(e),
            },
    {
        let chars = str_to_chars(payload);
        match Self::extract_line_chars(&chars) {
            Ok((m, p, q, v)) => {
                let q = match q {
                    Some(q) => Some(string_from_chars(&q)),
                    None => None,
                };
                Ok((m, string_from_chars(&p), q, string_from_chars(&v)))
            },
            Err(e) => Err(e),
        }
    }

    fn extract_line_chars(line: &[char]) -> (res: Result<
        (Method, Vec<char>, Option<Vec<char>>, Vec<char>),
        RequestError,
    >)
        ensures
            match res {
                Ok((m, p, q, v)) => request_line_spec(line@) == Ok::<
                    (Method, Seq<char>, Option<Seq<char>>, Seq<char>),
                    RequestError,
                >(
                    (
                        m,
                        p@,
                        match q {
                            Some(q) => Some(q@),
                            None => None,
                        },
                        v@,
                    ),
                ),
                Err(e) => request_line_spec(line@) == Err::<
                    (Method, Seq<char>, Option<Seq<char>>, Seq<char>),
                    RequestError,
                >(e),
            },
    {
        let parts = split_words(line);
        let ghost ws = words(line@);
        if parts.len() < 1 {
            return Err(RequestError::MissingMethod);
        }
        if parts.len() < 2 {
            return Err(RequestError::MissingTarget);
        }
        if parts.len() < 3 {
            return Err(RequestError::MissingVersion);
        }
        if parts.len() > 3 {
            return Err(RequestError::TooManyParts);
        }
        let method_word = &parts[0];
        let target = &parts[1];
        let version = &parts[2];
        assert(method_word@ == ws[0] && target@ == ws[1] && version@ == ws[2]);
        if !chars_eq(version, &str_to_chars("HTTP/1.0")) && !chars_eq(
            version,
            &str_to_chars("HTTP/1.1"),
        ) {
            return Err(RequestError::UnsupportedVersion);
        }
        if !chars_eq(target, &str_to_chars("*")) && !(target.len() > 0 && target[0] == '/') {
            return Err(RequestError::InvalidTarget);
        }
        let method = Method::parse_chars(method_word);
        let (path, query) = match find_char_in(target, 0, target.len(), '?') {
            Some(k) => {
                proof {
                    assert(target@.subrange(0, target@.len() as int) =~= target@);
                }
                let path = copy_range(target, 0, k);
                let query = if k + 1 < target.len() {
                    Some(copy_range(target, k + 1, target.len()))
                } else {
                    None
                };
                assert(path@ =~= target@.take(k as int));
                assert(query matches Some(q) ==> q@ =~= target@.skip(k + 1));
                (path, query)
            },
            None => {
                proof {
                    assert(target@.subrange(0, target@.len() as int) =~= target@);
                }
                (copy_range(target, 0, target.len()), None)
            },
        };
        let version = copy_range(version, 0, version.len());
        assert(version@ =~= ws[2]);
        Ok((method, path, query, version))
    }

    /// Reads header lines into a header list.
    pub fn extract_headers(lines: &[&str]) -> (res: Result<Headers, RequestError>)
        ensures
            match res {
                Ok(h) => parse_headers(str_views(lines@)) == Ok::<HeaderList, RequestError>(h@),
                Err(e) => parse_headers(str_views(lines@)) == Err::<HeaderList, RequestError>(e),
            },
    {
        let mut all: Vec<Vec<char>> = Vec::new();
        let mut i: usize = 0;
        while i < lines.len()
            invariant
                i <= lines@.len(),
                all@.len() == i,
                forall|j: int| 0 <= j < i ==> #[trigger] all@[j]@ == lines@[j]@,
            decreases lines@.len() - i,
        {
            all.push(str_to_chars(lines[i]));
            i = i + 1;
        }
        assert(char_views(all@) =~= str_views(lines@));
        Self::extract_header_lines(&all, 0)
    }

    fn extract_header_lines(lines: &Vec<Vec<char>>, from: usize) -> (res: Result<
        Headers,
        RequestError,
    >)
        requires
            from <= lines@.len(),
        ensures
            match res {
                Ok(h) => headers_from(char_views(lines@), from as int, seq![], 0) == Ok::<
                    HeaderList,
                    RequestError,
                >(h@),
                Err(e) => headers_from(char_views(lines@), from as int, seq![], 0) == Err::<
                    HeaderList,
                    RequestError,
                >(e),
            },
    {
        let ghost ls = char_views(lines@);
        let mut headers = Headers::new();
        let mut total: usize = 0;
        let mut i = from;
        while i < lines.len()
            invariant
                from <= i <= lines@.len(),
                ls == char_views(lines@),
                total <= MAX_HEADERS_SIZE,
                headers_from(ls, from as int, seq![], 0) == headers_from(
                    ls,
                    i as int,
                    headers@,
                    total as nat,
                ),
            decreases lines@.len() - i,
        {
            let raw = &lines[i];
            assert(ls[i as int] == raw@);
            let (a, b) = trim_bounds(raw, 0, raw.len());
            assert(raw@.subrange(0, raw@.len() as int) =~= raw@);
            if a == b {
                i = i + 1;
            } else {
                if headers.len() >= MAX_HEADERS_COUNT {
                    return Err(RequestError::TooManyHeaders);
                }
                let line = copy_range(raw, a, b);
                let n = utf8_len_capped(&line, MAX_HEADER_LEN);
                if n > MAX_HEADER_LEN {
                    return Err(RequestError::HeaderTooLong);
                }
                if total + n > MAX_HEADERS_SIZE {
                    return Err(RequestError::HeadersTooLarge);
                }
                let colon = find_char_in(&line, 0, line.len(), ':');
                assert(line@.subrange(0, line@.len() as int) =~= line@);
                match colon {
                    None => {
                        return Err(RequestError::InvalidHeader);
                    },
                    Some(k) => {
                        let (ka, kb) = trim_bounds(&line, 0, k);
                        let key = to_ascii_lower(&copy_range(&line, ka, kb));
                        let (va, vb) = trim_bounds(&line, k + 1, line.len());
                        let value = copy_range(&line, va, vb);
                        assert(line@.subrange(0, k as int) =~= line@.take(k as int));
                        assert(line@.subrange(k + 1, line@.len() as int) =~= line@.skip(k + 1));
                        proof {
                            lemma_lower_idempotent(trim(line@.take(k as int)));
                            lemma_lower_trimmed(line@.take(k as int));
                        }
                        headers.add(&key, &value);
                    },
                }
                total = total + n;
                i = i + 1;
            }
        }
        Ok(headers)
    }
}

proof fn lemma_headers_from_shift(lines: Seq<Seq<char>>, d: int)
    requires
        0 <= d <= lines.len(),
    ensures
        forall|i: int, hs: HeaderList, total: nat|
            d <= i ==> #[trigger] headers_from(lines, i, hs, total) == headers_from(
                lines.skip(d),
                i - d,
                hs,
                total,
            ),
{
    assert forall|i: int, hs: HeaderList, total: nat| d <= i implies #[trigger] headers_from(
        lines,
        i,
        hs,
        total,
    ) == headers_from(lines.skip(d), i - d, hs, total) by {
        lemma_headers_from_shift_one(lines, d, i, hs, total);
    }
}

proof fn lemma_headers_from_shift_one(
    lines: Seq<Seq<char>>,
    d: int,
    i: int,
    hs: HeaderList,
    total: nat,
)
    requires
        0 <= d <= lines.len(),
        d <= i,
    ensures
        headers_from(lines, i, hs, total) == headers_from(lines.skip(d), i - d, hs, total),
    decreases lines.len() - i,
{
    if i >= lines.len() {
    } else {
        assert(lines.skip(d)[i - d] == lines[i]);
        let line = trim(lines[i]);
        if line.len() == 0 {
            lemma_headers_from_shift_one(lines, d, i + 1, hs, total);
        } else {
            match find_char(line, ':') {
                None => {},
                Some(k) => {
                    lemma_headers_from_shift_one(
                        lines,
                        d,
                        i + 1,
                        add_header(hs, ascii_lower(trim(line.take(k))), trim(line.skip(k + 1))),
                        total + utf8_len(line),
                    );
                },
            }
        }
    }
}

} // verus!
