//! Properties that hold across the library's functions.

use vstd::prelude::*;

use crate::request::{
    head_end, lemma_headers_from_well_formed, parse_headers, parse_request, request_line_spec,
    separator_from, well_formed_headers, MAX_HEADERS_COUNT,
};
use crate::connection::{step_spec, trace, ActionKind, ConnState, EventModel};
use crate::response::{crlf, decimal, header_value_ok, http_head, http_message, reason_of};
use crate::request::{accepts_spec, header_value, keep_alive_spec, lists_encoding, Method, RequestModel};
use crate::router::{route_spec, RouteModel};
use crate::static_files::{percent_decoded, relative_target, strip_slashes, utf8_lossy};
use crate::text::{eq_ignore_case, split_char, split_from, ascii_lower};
use crate::text::{find_char, is_ws, lemma_find_from, printable, trim, words, words_from};
use vstd::utf8::{encode_utf8, is_ascii_chars, is_ascii_chars_encode_utf8};

verus! {

/// Header names are case-insensitive: whatever header lines are read, the
/// names kept are in lower case, each appears once (repeated fields are
/// joined), and there are at most [`MAX_HEADERS_COUNT`] of them.
pub proof fn law_header_names_normalized(lines: Seq<Seq<char>>)
    ensures
        parse_headers(lines) matches Ok(hs) ==> well_formed_headers(hs),
{
    assert(well_formed_headers(Seq::<(Seq<char>, Seq<char>)>::empty()));
    lemma_headers_from_well_formed(lines, 0, seq![], 0);
}

proof fn lemma_separator_prefix(p: Seq<u8>, q: Seq<u8>, i: int, k: int)
    requires
        0 <= i,
        separator_from(p, i) == Some(k),
        k + 4 <= q.len(),
        p.take(k + 4) == q.take(k + 4),
    ensures
        separator_from(q, i) == Some(k),
    decreases k - i,
{
    lemma_separator_bounds(p, i);
    assert forall|j: int| 0 <= j < k + 4 implies p[j] == q[j] by {
        assert(p.take(k + 4)[j] == p[j]);
        assert(q.take(k + 4)[j] == q[j]);
        assert(p.take(k + 4)[j] == q.take(k + 4)[j]);
    }
    if i + 4 <= p.len() && p[i] == 13 && p[i + 1] == 10 && p[i + 2] == 13 && p[i + 3] == 10 {
    } else {
        lemma_separator_bounds(p, i + 1);
        lemma_separator_prefix(p, q, i + 1, k);
    }
}

proof fn lemma_separator_bounds(p: Seq<u8>, i: int)
    ensures
        separator_from(p, i) matches Some(k) ==> i <= k && k + 4 <= p.len(),
    decreases p.len() - i,
{
    if i < 0 || i + 4 > p.len() {
    } else if p[i] == 13 && p[i + 1] == 10 && p[i + 2] == 13 && p[i + 3] == 10 {
    } else {
        lemma_separator_bounds(p, i + 1);
    }
}

/// Parsing reads nothing past the blank line that ends the head: two
/// payloads that agree up to and including it parse alike, whatever body
/// follows.
pub proof fn law_body_does_not_affect_parse(p: Seq<u8>, q: Seq<u8>, pos: int)
    requires
        head_end(p) == Some(pos),
        pos + 4 <= q.len(),
        q.take(pos + 4) == p.take(pos + 4),
    ensures
        parse_request(q) == parse_request(p),
{
    lemma_separator_bounds(p, 0);
    lemma_separator_prefix(p, q, 0, pos);
    assert(p.take(pos) =~= p.take(pos + 4).take(pos));
    assert(q.take(pos) =~= q.take(pos + 4).take(pos));
}

proof fn lemma_words_no_ws(s: Seq<char>, start: int, i: int)
    requires
        0 <= start <= i <= s.len(),
        forall|j: int| start <= j < i ==> !is_ws(#[trigger] s[j]),
    ensures
        forall|k: int, j: int|
            0 <= k < words_from(s, start, i).len() && 0 <= j < words_from(s, start, i)[k].len()
                ==> !is_ws(#[trigger] words_from(s, start, i)[k][j]),
    decreases s.len() - i,
{
    let w = words_from(s, start, i);
    if i >= s.len() {
        if start < s.len() {
            assert forall|k: int, j: int| 0 <= k < w.len() && 0 <= j < w[k].len() implies !is_ws(
                #[trigger] w[k][j],
            ) by {
                assert(w[k][j] == s[start + j]);
            }
        } else {
            assert(w.len() == 0);
        }
    } else if is_ws(s[i]) {
        lemma_words_no_ws(s, i + 1, i + 1);
        let first: Seq<Seq<char>> = if start < i {
            seq![s.subrange(start, i)]
        } else {
            seq![]
        };
        let rest = words_from(s, i + 1, i + 1);
        assert(w == first + rest);
        assert forall|k: int, j: int| 0 <= k < w.len() && 0 <= j < w[k].len() implies !is_ws(
            #[trigger] w[k][j],
        ) by {
            if k < first.len() {
                assert(w[k][j] == s[start + j]);
            } else {
                assert(w[k] == rest[k - first.len()]);
            }
        }
    } else {
        lemma_words_no_ws(s, start, i + 1);
        assert(w == words_from(s, start, i + 1));
    }
}

/// What a request line that parses holds: version `HTTP/1.0` or
/// `HTTP/1.1`; a path that is `*` or starts with `/` and holds neither `?`
/// nor whitespace; no empty query.
proof fn lemma_request_line_shape(line: Seq<char>)
    ensures
        request_line_spec(line) matches Ok((_, path, query, version)) ==> {
            &&& version == "HTTP/1.0"@ || version == "HTTP/1.1"@
            &&& path == "*"@ || (path.len() > 0 && path[0] == '/')
            &&& forall|j: int| 0 <= j < path.len() ==> #[trigger] path[j] != '?' && !is_ws(path[j])
            &&& query matches Some(q) ==> q.len() > 0
        },
{
    let ws = words(line);
    if request_line_spec(line) is Ok {
        lemma_words_no_ws(line, 0, 0);
        let t = ws[1];
        assert forall|j: int| 0 <= j < t.len() implies !is_ws(#[trigger] t[j]) by {
            assert(t[j] == words_from(line, 0, 0)[1][j]);
        }
        lemma_find_from(t, '?', 0);
        reveal_strlit("*");
        match find_char(t, '?') {
            Some(k) => {
                if t == "*"@ {
                    assert(t[0] == '*');
                }
                assert(k != 0);
                let path = t.take(k);
                assert(path[0] == t[0]);
                assert forall|j: int| 0 <= j < path.len() implies #[trigger] path[j] != '?'
                    && !is_ws(path[j]) by {
                    assert(path[j] == t[j]);
                }
            },
            None => {},
        }
    }
}

/// A query, when one is kept, is never empty.
pub proof fn law_query_never_empty(line: Seq<char>)
    ensures
        request_line_spec(line) matches Ok((_, _, Some(q), _)) ==> q.len() > 0,
{
    let ws = crate::text::words(line);
    if ws.len() == 3 {
        lemma_find_from(ws[1], '?', 0);
    }
}

/// What a request that parses holds: version `HTTP/1.0` or `HTTP/1.1`; a
/// path that is `*` or starts with `/` and holds neither `?` nor whitespace;
/// no empty query; header names in lower case, trimmed, each once, at most
/// [`MAX_HEADERS_COUNT`] of them.
pub proof fn law_parsed_request_shape(p: Seq<u8>)
    ensures
        parse_request(p) matches Ok(r) ==> {
            &&& r.version == "HTTP/1.0"@ || r.version == "HTTP/1.1"@
            &&& r.path == "*"@ || (r.path.len() > 0 && r.path[0] == '/')
            &&& forall|j: int| 0 <= j < r.path.len() ==> #[trigger] r.path[j] != '?' && !is_ws(
                r.path[j],
            )
            &&& r.query matches Some(q) ==> q.len() > 0
            &&& well_formed_headers(r.headers)
        },
{
    match head_end(p) {
        None => {},
        Some(pos) => {
            let head = p.take(pos);
            if vstd::utf8::valid_utf8(head) {
                let lines = crate::text::split_crlf(vstd::utf8::decode_utf8(head));
                lemma_request_line_shape(trim(lines[0]));
                law_header_names_normalized(lines.skip(1));
            }
        },
    }
}

proof fn lemma_strip_slashes(s: Seq<char>)
    ensures
        strip_slashes(s).len() > 0 ==> strip_slashes(s)[0] != '/',
    decreases s.len(),
{
    if s.len() > 0 && s[0] == '/' {
        lemma_strip_slashes(s.drop_first());
    }
}

/// The file a request path names is relative: never empty and never
/// starting with `/`.
pub proof fn law_relative_target_is_relative(request_path: Seq<char>)
    ensures
        relative_target(request_path).len() > 0,
        relative_target(request_path)[0] != '/',
{
    reveal_strlit("index.html");
    lemma_strip_slashes(
        crate::static_files::utf8_lossy(
            crate::static_files::percent_decoded(vstd::utf8::encode_utf8(request_path)),
        ),
    );
}

// ---------------------------------------------------------------------------
// The wire form of a response
// ---------------------------------------------------------------------------

spec fn no_crlf(b: Seq<u8>) -> bool {
    forall|i: int| 0 <= i < b.len() ==> #[trigger] b[i] != 13 && b[i] != 10
}

/// Every carriage return is followed by a line feed and then by something
/// other than a carriage return.
spec fn crlf_clean(x: Seq<u8>) -> bool {
    forall|j: int|
        0 <= j < x.len() && #[trigger] x[j] == 13 ==> j + 2 < x.len() && x[j + 1] == 10 && x[j
            + 2] != 13
}

proof fn lemma_encode_add(a: Seq<char>, b: Seq<char>)
    ensures
        encode_utf8(a + b) == encode_utf8(a) + encode_utf8(b),
    decreases a.len(),
{
    if a.len() == 0 {
        assert(a + b =~= b);
        assert(encode_utf8(a) + encode_utf8(b) =~= encode_utf8(b));
    } else {
        assert((a + b).drop_first() =~= a.drop_first() + b);
        assert((a + b)[0] == a[0]);
        lemma_encode_add(a.drop_first(), b);
    }
}

proof fn lemma_printable_bytes(s: Seq<char>)
    requires
        printable(s),
    ensures
        no_crlf(encode_utf8(s)),
        encode_utf8(s).len() == s.len(),
{
    assert(is_ascii_chars(s));
    is_ascii_chars_encode_utf8(s);
    assert forall|i: int| 0 <= i < encode_utf8(s).len() implies #[trigger] encode_utf8(s)[i]
        != 13 && encode_utf8(s)[i] != 10 by {
        assert(s[i] as u8 == encode_utf8(s)[i]);
    }
}

proof fn lemma_decimal_printable(n: nat)
    ensures
        printable(decimal(n)),
        decimal(n).len() > 0,
    decreases n,
{
    if n >= 10 {
        lemma_decimal_printable(n / 10);
        let d = ((((n % 10) + 48) as u32) as char);
        assert((d as u32) == (n % 10) + 48);
        assert(decimal(n) == decimal(n / 10).push(d));
    } else {
        let d = (((n + 48) as u32) as char);
        assert((d as u32) == n + 48);
    }
}

proof fn lemma_reason_printable(status: u16)
    ensures
        printable(reason_of(status)),
        reason_of(status).len() > 0,
{
    reveal_strlit("OK");
    reveal_strlit("Bad Request");
    reveal_strlit("Not Found");
    reveal_strlit("Method Not Allowed");
    reveal_strlit("Internal Server Error");
    reveal_strlit("Not Implemented");
    reveal_strlit("Unknown");
}

proof fn lemma_no_crlf_add(a: Seq<u8>, b: Seq<u8>)
    requires
        no_crlf(a),
        no_crlf(b),
    ensures
        no_crlf(a + b),
{
    assert forall|i: int| 0 <= i < (a + b).len() implies #[trigger] (a + b)[i] != 13 && (a
        + b)[i] != 10 by {
        if i < a.len() {
            assert((a + b)[i] == a[i]);
        } else {
            assert((a + b)[i] == b[i - a.len()]);
        }
    }
}

proof fn lemma_clean_start(a: Seq<u8>)
    requires
        no_crlf(a),
    ensures
        crlf_clean(a),
{
}

proof fn lemma_clean_join(x: Seq<u8>, y: Seq<u8>)
    requires
        crlf_clean(x),
        no_crlf(y),
        y.len() > 0,
    ensures
        crlf_clean(x + seq![13u8, 10u8] + y),
{
    let z = x + seq![13u8, 10u8] + y;
    assert forall|j: int| 0 <= j < z.len() && #[trigger] z[j] == 13 implies j + 2 < z.len()
        && z[j + 1] == 10 && z[j + 2] != 13 by {
        if j < x.len() {
            assert(z[j] == x[j]);
            assert(z[j + 1] == x[j + 1]);
            assert(z[j + 2] == x[j + 2]);
        } else if j == x.len() {
            assert(z[j + 1] == 10);
            assert(z[j + 2] == y[0]);
        } else if j == x.len() + 1 {
            assert(z[j] == 10);
        } else {
            assert(z[j] == y[j - x.len() - 2]);
        }
    }
}

proof fn lemma_first_separator(y: Seq<u8>, i: int, k: int)
    requires
        0 <= i <= k,
        k + 4 <= y.len(),
        y[k] == 13 && y[k + 1] == 10 && y[k + 2] == 13 && y[k + 3] == 10,
        forall|j: int|
            i <= j < k ==> !(#[trigger] y[j] == 13 && y[j + 1] == 10 && y[j + 2] == 13 && y[j
                + 3] == 10),
    ensures
        separator_from(y, i) == Some(k),
    decreases k - i,
{
    if i < k {
        lemma_first_separator(y, i + 1, k);
    }
}

proof fn lemma_clean_separator(x: Seq<u8>, payload: Seq<u8>)
    requires
        crlf_clean(x),
    ensures
        head_end(x + seq![13u8, 10u8, 13u8, 10u8] + payload) == Some(x.len() as int),
{
    let y = x + seq![13u8, 10u8, 13u8, 10u8] + payload;
    assert forall|j: int| 0 <= j < x.len() implies !(#[trigger] y[j] == 13 && y[j + 1] == 10
        && y[j + 2] == 13 && y[j + 3] == 10) by {
        assert(y[j] == x[j]);
        if x[j] == 13 {
            assert(y[j + 2] == x[j + 2]);
        }
    }
    lemma_first_separator(y, 0, x.len() as int);
}

proof fn lemma_encode_join(x: Seq<char>, y: Seq<char>)
    ensures
        encode_utf8(x + crlf() + y) == encode_utf8(x) + seq![13u8, 10u8] + encode_utf8(y),
{
    lemma_crlf_bytes();
    lemma_encode_add(x + crlf(), y);
    lemma_encode_add(x, crlf());
}

proof fn lemma_crlf_bytes()
    ensures
        encode_utf8(crlf()) == seq![13u8, 10u8],
{
    assert(is_ascii_chars(crlf()));
    is_ascii_chars_encode_utf8(crlf());
    assert(encode_utf8(crlf()) =~= seq![13u8, 10u8]);
}

/// The lines of a response head, without their line breaks.
spec fn head_lines_joined(
    status: u16,
    date: Seq<char>,
    content_type: Seq<char>,
    content_length: nat,
    connection: Seq<char>,
    gzipped: bool,
) -> Seq<char> {
    let l1 = "HTTP/1.1 "@ + decimal(status as nat) + " "@ + reason_of(status);
    let l2 = "Date: "@ + date;
    let l3 = "Content-Type: "@ + content_type;
    let l4 = "Content-Length: "@ + decimal(content_length);
    let l5 = "Connection: "@ + connection;
    let x5 = l1 + crlf() + l2 + crlf() + l3 + crlf() + l4 + crlf() + l5;
    if gzipped {
        x5 + crlf() + "Content-Encoding: gzip"@
    } else {
        x5
    }
}

#[verifier::rlimit(50)]
proof fn lemma_head_shape(
    status: u16,
    date: Seq<char>,
    content_type: Seq<char>,
    content_length: nat,
    connection: Seq<char>,
    gzipped: bool,
)
    ensures
        http_head(status, date, content_type, content_length, connection, gzipped)
            == head_lines_joined(status, date, content_type, content_length, connection, gzipped)
            + crlf() + crlf(),
{
    assert(http_head(status, date, content_type, content_length, connection, gzipped)
        =~= head_lines_joined(status, date, content_type, content_length, connection, gzipped)
        + crlf() + crlf());
}

proof fn lemma_printable_line(a: Seq<char>, b: Seq<char>)
    requires
        printable(a),
        a.len() > 0,
        no_crlf(encode_utf8(b)),
    ensures
        no_crlf(encode_utf8(a + b)),
        encode_utf8(a + b).len() > 0,
{
    lemma_printable_bytes(a);
    lemma_encode_add(a, b);
    lemma_no_crlf_add(encode_utf8(a), encode_utf8(b));
}

proof fn lemma_header_ok_no_crlf(b: Seq<u8>)
    requires
        header_value_ok(b),
    ensures
        no_crlf(b),
{
}

#[verifier::rlimit(50)]
proof fn lemma_head_lines_clean(
    status: u16,
    date: Seq<char>,
    content_type: Seq<char>,
    content_length: nat,
    connection: Seq<char>,
    gzipped: bool,
)
    requires
        printable(date),
        no_crlf(encode_utf8(content_type)),
        no_crlf(encode_utf8(connection)),
    ensures
        crlf_clean(
            encode_utf8(
                head_lines_joined(
                    status,
                    date,
                    content_type,
                    content_length,
                    connection,
                    gzipped,
                ),
            ),
        ),
{
    reveal_strlit("HTTP/1.1 ");
    reveal_strlit(" ");
    reveal_strlit("Date: ");
    reveal_strlit("Content-Type: ");
    reveal_strlit("Content-Length: ");
    reveal_strlit("Connection: ");
    reveal_strlit("Content-Encoding: gzip");
    lemma_decimal_printable(status as nat);
    lemma_decimal_printable(content_length);
    lemma_reason_printable(status);
    lemma_printable_bytes(date);
    lemma_printable_bytes(decimal(content_length));
    let l1a = "HTTP/1.1 "@ + decimal(status as nat) + " "@;
    assert(printable(l1a));
    lemma_printable_bytes(reason_of(status));
    lemma_printable_line(l1a, reason_of(status));
    let l1 = l1a + reason_of(status);
    let l2 = "Date: "@ + date;
    let l3 = "Content-Type: "@ + content_type;
    let l4 = "Content-Length: "@ + decimal(content_length);
    let l5 = "Connection: "@ + connection;
    lemma_printable_line("Date: "@, date);
    lemma_printable_line("Content-Type: "@, content_type);
    lemma_printable_line("Content-Length: "@, decimal(content_length));
    lemma_printable_line("Connection: "@, connection);
    lemma_clean_start(encode_utf8(l1));
    lemma_encode_join(l1, l2);
    lemma_clean_join(encode_utf8(l1), encode_utf8(l2));
    let x2 = l1 + crlf() + l2;
    lemma_encode_join(x2, l3);
    lemma_clean_join(encode_utf8(x2), encode_utf8(l3));
    let x3 = x2 + crlf() + l3;
    lemma_encode_join(x3, l4);
    lemma_clean_join(encode_utf8(x3), encode_utf8(l4));
    let x4 = x3 + crlf() + l4;
    lemma_encode_join(x4, l5);
    lemma_clean_join(encode_utf8(x4), encode_utf8(l5));
    let x5 = x4 + crlf() + l5;
    if gzipped {
        lemma_printable_bytes("Content-Encoding: gzip"@);
        lemma_encode_join(x5, "Content-Encoding: gzip"@);
        lemma_clean_join(encode_utf8(x5), encode_utf8("Content-Encoding: gzip"@));
    }
}

/// A reader of a response's wire form finds its body right after the first
/// blank line: the head holds no blank line of its own, so long as the
/// header values hold no CR, LF or NUL (as `into_http_bytes` checks) and the
/// date is printable ASCII (as an HTTP date is).
pub proof fn law_body_follows_first_blank_line(
    status: u16,
    date: Seq<char>,
    content_type: Seq<char>,
    connection: Seq<char>,
    payload: Seq<u8>,
    gzipped: bool,
)
    requires
        printable(date),
        header_value_ok(encode_utf8(content_type)),
        header_value_ok(encode_utf8(connection)),
    ensures
        ({
            let head = encode_utf8(
                http_head(status, date, content_type, payload.len(), connection, gzipped),
            );
            let message = http_message(status, date, content_type, connection, payload, gzipped);
            &&& head_end(message) == Some(head.len() - 4)
            &&& message.skip(head.len() as int) == payload
        }),
{
    let x = head_lines_joined(status, date, content_type, payload.len(), connection, gzipped);
    lemma_header_ok_no_crlf(encode_utf8(content_type));
    lemma_header_ok_no_crlf(encode_utf8(connection));
    lemma_head_lines_clean(status, date, content_type, payload.len(), connection, gzipped);
    lemma_head_shape(status, date, content_type, payload.len(), connection, gzipped);
    lemma_crlf_bytes();
    lemma_encode_add(x + crlf(), crlf());
    lemma_encode_add(x, crlf());
    let head = encode_utf8(http_head(status, date, content_type, payload.len(), connection, gzipped));
    assert(head =~= encode_utf8(x) + seq![13u8, 10u8, 13u8, 10u8]);
    lemma_clean_separator(encode_utf8(x), payload);
    assert(http_message(status, date, content_type, connection, payload, gzipped) =~= encode_utf8(
        x,
    ) + seq![13u8, 10u8, 13u8, 10u8] + payload);
}

// ---------------------------------------------------------------------------
// The request loop
// ---------------------------------------------------------------------------

proof fn lemma_closed_trace(es: Seq<EventModel>)
    ensures
        forall|k: int| 0 <= k < trace(ConnState::Closed, es).len() ==> #[trigger] trace(
            ConnState::Closed,
            es,
        )[k] == ActionKind::Stop,
        trace(ConnState::Closed, es).len() == es.len(),
    decreases es.len(),
{
    if es.len() > 0 {
        lemma_closed_trace(es.drop_first());
        let t = trace(ConnState::Closed, es);
        let rest = trace(ConnState::Closed, es.drop_first());
        assert forall|k: int| 0 <= k < t.len() implies #[trigger] t[k] == ActionKind::Stop by {
            if k > 0 {
                assert(t[k] == rest[k - 1]);
            }
        }
    }
}

/// Once a connection ends (the client closes, a request is rejected, or a
/// request is answered without keep-alive), nothing more is done on it:
/// every later action is to stop. So a request is answered only while
/// every request before it on the connection kept it alive.
pub proof fn law_nothing_after_connection_ends(s: ConnState, es: Seq<EventModel>)
    ensures
        forall|i: int, j: int|
            0 <= i < j < trace(s, es).len() && #[trigger] trace(s, es)[i] != ActionKind::Answer(
                true,
            ) ==> #[trigger] trace(s, es)[j] == ActionKind::Stop,
        forall|i: int, j: int|
            0 <= i < j < trace(s, es).len() && (#[trigger] trace(s, es)[j] is Answer) ==> #[trigger] trace(
                s,
                es,
            )[i] == ActionKind::Answer(true),
    decreases es.len(),
{
    if es.len() > 0 {
        let (s2, a) = step_spec(s, es[0]);
        let t = trace(s, es);
        let rest = trace(s2, es.drop_first());
        law_nothing_after_connection_ends(s2, es.drop_first());
        if a != ActionKind::Answer(true) {
            assert(s2 == ConnState::Closed);
            lemma_closed_trace(es.drop_first());
        }
        assert forall|i: int, j: int|
            0 <= i < j < t.len() && #[trigger] t[i] != ActionKind::Answer(true) implies #[trigger] t[j]
            == ActionKind::Stop by {
            assert(t[j] == rest[j - 1]);
            if i > 0 {
                assert(t[i] == rest[i - 1]);
            }
        }
        assert forall|i: int, j: int|
            0 <= i < j < t.len() && (#[trigger] t[j] is Answer) implies #[trigger] t[i]
            == ActionKind::Answer(true) by {
            assert(t[j] == rest[j - 1]);
            if i > 0 {
                assert(t[i] == rest[i - 1]);
            } else if t[0] != ActionKind::Answer(true) {
                assert(rest[j - 1] == ActionKind::Stop);
            }
        }
    }
}

// ---------------------------------------------------------------------------
// Numbers in the wire form
// ---------------------------------------------------------------------------

/// The number that a string of decimal digits spells.
pub open spec fn digits_value(s: Seq<char>) -> int
    decreases s.len(),
{
    if s.len() == 0 {
        0
    } else {
        digits_value(s.drop_last()) * 10 + ((s.last() as u32) - 48)
    }
}

/// Every character is a decimal digit.
pub open spec fn all_digits(s: Seq<char>) -> bool {
    forall|i: int| 0 <= i < s.len() ==> '0' <= #[trigger] s[i] && s[i] <= '9'
}

/// `decimal(n)` is the usual decimal numeral of `n`: digits only, no
/// leading zero (unless `n` is zero), spelling `n` back.
pub proof fn law_decimal_spells_number(n: nat)
    ensures
        all_digits(decimal(n)),
        decimal(n).len() >= 1,
        decimal(n)[0] != '0' || n == 0,
        digits_value(decimal(n)) == n,
    decreases n,
{
    if n >= 10 {
        law_decimal_spells_number(n / 10);
        let d = ((((n % 10) + 48) as u32) as char);
        assert((d as u32) == (n % 10) + 48);
        let s = decimal(n);
        assert(s == decimal(n / 10).push(d));
        assert(s.drop_last() =~= decimal(n / 10));
        assert(s.last() == d);
        assert(s[0] == decimal(n / 10)[0]);
        assert(n / 10 * 10 + n % 10 == n) by (nonlinear_arith);
        assert(digits_value(s) == digits_value(s.drop_last()) * 10 + ((s.last() as u32) - 48));
    } else {
        let d = (((n + 48) as u32) as char);
        assert((d as u32) == n + 48);
        let s = decimal(n);
        assert(s.drop_last() =~= Seq::<char>::empty());
        assert(digits_value(Seq::<char>::empty()) == 0);
        assert(digits_value(s) == digits_value(s.drop_last()) * 10 + ((s.last() as u32) - 48));
    }
}

/// The head of a response carries `Content-Length: ` followed by the
/// decimal numeral of the body's length in bytes, as a line of its own.
#[verifier::rlimit(50)]
pub proof fn law_content_length_spells_length(
    status: u16,
    date: Seq<char>,
    content_type: Seq<char>,
    content_length: nat,
    connection: Seq<char>,
    gzipped: bool,
)
    ensures
        exists|before: Seq<char>, digits: Seq<char>, after: Seq<char>|
            {
                &&& http_head(status, date, content_type, content_length, connection, gzipped)
                    == before + crlf() + "Content-Length: "@ + digits + crlf() + after
                &&& all_digits(digits)
                &&& digits.len() >= 1
                &&& digits_value(digits) == content_length
            },
{
    law_decimal_spells_number(content_length);
    let before = "HTTP/1.1 "@ + decimal(status as nat) + " "@ + reason_of(status) + crlf()
        + "Date: "@ + date + crlf() + "Content-Type: "@ + content_type;
    let digits = decimal(content_length);
    let after = "Connection: "@ + connection + crlf() + (if gzipped {
        "Content-Encoding: gzip"@ + crlf()
    } else {
        Seq::<char>::empty()
    }) + crlf();
    assert(http_head(status, date, content_type, content_length, connection, gzipped) =~= before
        + crlf() + "Content-Length: "@ + digits + crlf() + after);
}

// ---------------------------------------------------------------------------
// Routing
// ---------------------------------------------------------------------------

/// `HEAD` is routed exactly as `GET`, on every path; `/` and `/home` are
/// the home page for both; other known methods on them are refused with
/// 405; an unknown method is 501 on every path; `GET` of any other path
/// names a static file.
pub proof fn law_head_routes_as_get(path: Seq<char>, method: Method)
    ensures
        route_spec(Method::Head, path) == route_spec(Method::Get, path),
        route_spec(Method::Get, "/"@) == RouteModel::Home,
        route_spec(Method::Get, "/home"@) == RouteModel::Home,
        route_spec(Method::Head, "/"@) == RouteModel::Home,
        route_spec(Method::Head, "/home"@) == RouteModel::Home,
        route_spec(Method::Unsupported, path) == RouteModel::NotImplemented,
        method != Method::Get && method != Method::Head && method != Method::Unsupported ==> (
        route_spec(method, "/"@) == RouteModel::MethodNotAllowed && route_spec(method, "/home"@)
            == RouteModel::MethodNotAllowed),
        path != "/"@ && path != "/home"@ ==> route_spec(Method::Get, path)
            == RouteModel::StaticFile(relative_target(path)),
{
}

// ---------------------------------------------------------------------------
// Static file names
// ---------------------------------------------------------------------------

proof fn lemma_strip_slashes_suffix(s: Seq<char>)
    ensures
        (forall|j: int| 0 <= j < s.len() ==> s[j] == '/') ==> strip_slashes(s).len() == 0,
        (exists|j: int| 0 <= j < s.len() && s[j] != '/') ==> exists|k: int|
            0 <= k < s.len() && (forall|j: int| 0 <= j < k ==> s[j] == '/') && s[k] != '/'
                && strip_slashes(s) == s.skip(k),
    decreases s.len(),
{
    if s.len() > 0 && s[0] == '/' {
        let t = s.drop_first();
        lemma_strip_slashes_suffix(t);
        if exists|j: int| 0 <= j < s.len() && s[j] != '/' {
            let j0 = choose|j: int| 0 <= j < s.len() && s[j] != '/';
            assert(t[j0 - 1] != '/');
            let k = choose|k: int|
                0 <= k < t.len() && (forall|j: int| 0 <= j < k ==> t[j] == '/') && t[k] != '/'
                    && strip_slashes(t) == t.skip(k);
            assert(t.skip(k) =~= s.skip(k + 1));
            assert forall|j: int| 0 <= j < k + 1 implies s[j] == '/' by {
                if j > 0 {
                    assert(s[j] == t[j - 1]);
                }
            }
            assert(s[k + 1] == t[k]);
        } else {
            assert forall|j: int| 0 <= j < t.len() implies t[j] == '/' by {
                assert(t[j] == s[j + 1]);
            }
        }
    } else if s.len() > 0 {
        assert(s.skip(0) =~= s);
    }
}

/// The file that a request path names keeps the decoded path's characters
/// as they are: it is the decoded path from its first character that is
/// not `/` on, or `index.html` when the decoded path is only slashes.
pub proof fn law_relative_target_keeps_path(request_path: Seq<char>)
    ensures
        ({
            let d = utf8_lossy(percent_decoded(encode_utf8(request_path)));
            &&& (forall|j: int| 0 <= j < d.len() ==> d[j] == '/') ==> relative_target(request_path)
                == "index.html"@
            &&& (exists|j: int| 0 <= j < d.len() && d[j] != '/') ==> exists|k: int|
                0 <= k < d.len() && (forall|j: int| 0 <= j < k ==> d[j] == '/') && d[k] != '/'
                    && relative_target(request_path) == d.skip(k)
        }),
{
    let d = utf8_lossy(percent_decoded(encode_utf8(request_path)));
    lemma_strip_slashes_suffix(d);
    if exists|j: int| 0 <= j < d.len() && d[j] != '/' {
        let k = choose|k: int|
            0 <= k < d.len() && (forall|j: int| 0 <= j < k ==> d[j] == '/') && d[k] != '/'
                && strip_slashes(d) == d.skip(k);
        assert(strip_slashes(d).len() > 0);
    }
}

// ---------------------------------------------------------------------------
// Keep-alive
// ---------------------------------------------------------------------------

/// The `Connection` header decides whether the connection stays open: one
/// equal to `keep-alive` up to ASCII case keeps it open and one equal to
/// `close` closes it, whatever the version; without the header HTTP/1.1
/// keeps it open and HTTP/1.0 closes it.
pub proof fn law_connection_header_decides(r: RequestModel)
    ensures
        (header_value(r.headers, "connection"@) matches Some(c) && eq_ignore_case(
            c,
            "keep-alive"@,
        )) ==> keep_alive_spec(r),
        (header_value(r.headers, "connection"@) matches Some(c) && eq_ignore_case(c, "close"@))
            ==> !keep_alive_spec(r),
        header_value(r.headers, "connection"@) is None ==> (keep_alive_spec(r) <==> r.version
            == "HTTP/1.1"@),
{
    reveal_strlit("keep-alive");
    reveal_strlit("close");
    if let Some(c) = header_value(r.headers, "connection"@) {
        if eq_ignore_case(c, "keep-alive"@) {
            assert(ascii_lower(c).len() == 10);
            assert(ascii_lower("close"@).len() == 5);
        }
    }
}

// ---------------------------------------------------------------------------
// Accept-Encoding
// ---------------------------------------------------------------------------

/// Pieces joined back with the separator between them.
pub open spec fn join_with(ps: Seq<Seq<char>>, c: char) -> Seq<char>
    decreases ps.len(),
{
    if ps.len() == 0 {
        seq![]
    } else if ps.len() == 1 {
        ps[0]
    } else {
        ps[0] + seq![c] + join_with(ps.drop_first(), c)
    }
}

proof fn lemma_split_from(s: Seq<char>, c: char, start: int, i: int)
    requires
        0 <= start <= i <= s.len(),
        forall|j: int| start <= j < i ==> s[j] != c,
    ensures
        split_from(s, c, start, i).len() >= 1,
        join_with(split_from(s, c, start, i), c) == s.subrange(start, s.len() as int),
        forall|k: int, j: int|
            0 <= k < split_from(s, c, start, i).len() && 0 <= j < split_from(s, c, start, i)[k].len()
                ==> #[trigger] split_from(s, c, start, i)[k][j] != c,
    decreases s.len() - i,
{
    let ps = split_from(s, c, start, i);
    if i >= s.len() {
        assert forall|k: int, j: int| 0 <= k < ps.len() && 0 <= j < ps[k].len() implies #[trigger] ps[k][j]
            != c by {
            assert(ps[k][j] == s[start + j]);
        }
    } else if s[i] == c {
        lemma_split_from(s, c, i + 1, i + 1);
        let rest = split_from(s, c, i + 1, i + 1);
        let first = s.subrange(start, i);
        assert(ps == seq![first] + rest);
        assert((seq![first] + rest).drop_first() =~= rest);
        assert(join_with(ps, c) == first + seq![c] + join_with(rest, c));
        assert(first + seq![c] + s.subrange(i + 1, s.len() as int) =~= s.subrange(start, s.len() as int));
        assert forall|k: int, j: int| 0 <= k < ps.len() && 0 <= j < ps[k].len() implies #[trigger] ps[k][j]
            != c by {
            if k == 0 {
                assert(ps[k][j] == s[start + j]);
            } else {
                assert(ps[k] == rest[k - 1]);
            }
        }
    } else {
        lemma_split_from(s, c, start, i + 1);
    }
}

/// `split_char` cuts a text at every separator and nowhere else: joining
/// the pieces back with the separator gives the text, and no piece holds
/// the separator.
pub proof fn law_split_cuts_at_separators(s: Seq<char>, c: char)
    ensures
        split_char(s, c).len() >= 1,
        join_with(split_char(s, c), c) == s,
        forall|k: int, j: int|
            0 <= k < split_char(s, c).len() && 0 <= j < split_char(s, c)[k].len()
                ==> #[trigger] split_char(s, c)[k][j] != c,
{
    lemma_split_from(s, c, 0, 0);
    assert(s.subrange(0, s.len() as int) =~= s);
}

/// An encoding is accepted when any entry of the `Accept-Encoding` list
/// equals it once trimmed, up to ASCII case, wherever the entry stands in
/// the list; and only then.
pub proof fn law_accepted_at_any_position(r: RequestModel, encoding: Seq<char>, k: int)
    ensures
        (header_value(r.headers, "accept-encoding"@) matches Some(v) && 0 <= k < split_char(
            v,
            ',',
        ).len() && eq_ignore_case(trim(split_char(v, ',')[k]), encoding)) ==> accepts_spec(
            r,
            encoding,
        ),
        accepts_spec(r, encoding) ==> (header_value(r.headers, "accept-encoding"@) matches Some(v)
            && exists|i: int|
            0 <= i < split_char(v, ',').len() && #[trigger] eq_ignore_case(
                trim(split_char(v, ',')[i]),
                encoding,
            )),
{
    if let Some(v) = header_value(r.headers, "accept-encoding"@) {
        if 0 <= k < split_char(v, ',').len() && eq_ignore_case(
            trim(split_char(v, ',')[k]),
            encoding,
        ) {
            assert(lists_encoding(v, encoding));
        }
    }
}

} // verus!
