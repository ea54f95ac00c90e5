//! Character-sequence utilities shared by the request parser and the
//! response writer: Unicode whitespace, trimming, splitting, ASCII case
//! folding and UTF-8 lengths.

use vstd::prelude::*;
use vstd::utf8::*;

verus! {

broadcast use vstd::utf8::char_is_scalar;

// ---------------------------------------------------------------------------
// Specifications
// ---------------------------------------------------------------------------

/// `c` has the Unicode `White_Space` property (the characters that
/// `char::is_whitespace` accepts).
pub open spec fn is_ws(c: char) -> bool {
    let v = c as u32;
    ||| 0x09 <= v <= 0x0D
    ||| v == 0x20
    ||| v == 0x85
    ||| v == 0xA0
    ||| v == 0x1680
    ||| 0x2000 <= v <= 0x200A
    ||| v == 0x2028
    ||| v == 0x2029
    ||| v == 0x202F
    ||| v == 0x205F
    ||| v == 0x3000
}

/// `s` without its leading whitespace.
pub open spec fn trim_start(s: Seq<char>) -> Seq<char>
    decreases s.len(),
{
    if s.len() > 0 && is_ws(s[0]) {
        trim_start(s.drop_first())
    } else {
        s
    }
}

/// `s` without its trailing whitespace.
pub open spec fn trim_end(s: Seq<char>) -> Seq<char>
    decreases s.len(),
{
    if s.len() > 0 && is_ws(s.last()) {
        trim_end(s.drop_last())
    } else {
        s
    }
}

/// `s` without leading and trailing whitespace (`str::trim`).
pub open spec fn trim(s: Seq<char>) -> Seq<char> {
    trim_end(trim_start(s))
}

/// ASCII upper-case letters mapped to lower case, everything else unchanged.
pub open spec fn lower_char(c: char) -> char {
    if 'A' <= c && c <= 'Z' {
        ((c as u32) + 32) as char
    } else {
        c
    }
}

/// `s` with ASCII letters in lower case (`str::to_ascii_lowercase`).
pub open spec fn ascii_lower(s: Seq<char>) -> Seq<char> {
    Seq::new(s.len(), |i: int| lower_char(s[i]))
}

/// `a` and `b` are equal up to ASCII case (`str::eq_ignore_ascii_case`).
pub open spec fn eq_ignore_case(a: Seq<char>, b: Seq<char>) -> bool {
    ascii_lower(a) == ascii_lower(b)
}

/// The first index at or after `i` where `c` occurs in `s`.
pub open spec fn find_from(s: Seq<char>, c: char, i: int) -> Option<int>
    decreases s.len() - i,
{
    if i < 0 || i >= s.len() {
        None
    } else if s[i] == c {
        Some(i)
    } else {
        find_from(s, c, i + 1)
    }
}

/// The first index where `c` occurs in `s`.
pub open spec fn find_char(s: Seq<char>, c: char) -> Option<int> {
    find_from(s, c, 0)
}

/// The pieces of `s[start..]` separated by `c`, where the piece being
/// scanned began at `start` and the scan has reached `i` (`str::split`).
pub open spec fn split_from(s: Seq<char>, c: char, start: int, i: int) -> Seq<Seq<char>>
    decreases s.len() - i,
{
    if i >= s.len() {
        seq![s.subrange(start, s.len() as int)]
    } else if s[i] == c {
        seq![s.subrange(start, i)] + split_from(s, c, i + 1, i + 1)
    } else {
        split_from(s, c, start, i + 1)
    }
}

/// The pieces of `s` separated by `c` (`str::split` with a `char`).
pub open spec fn split_char(s: Seq<char>, c: char) -> Seq<Seq<char>> {
    split_from(s, c, 0, 0)
}

/// The lines of `s[start..]` separated by `"\r\n"`, where the current line
/// began at `start` and the scan has reached `i`.
pub open spec fn lines_from(s: Seq<char>, start: int, i: int) -> Seq<Seq<char>>
    decreases s.len() - i,
{
    if i + 1 >= s.len() {
        seq![s.subrange(start, s.len() as int)]
    } else if s[i] == '\r' && s[i + 1] == '\n' {
        seq![s.subrange(start, i)] + lines_from(s, i + 2, i + 2)
    } else {
        lines_from(s, start, i + 1)
    }
}

/// The pieces of `s` separated by `"\r\n"` (`str::split("\r\n")`).
pub open spec fn split_crlf(s: Seq<char>) -> Seq<Seq<char>> {
    lines_from(s, 0, 0)
}

/// The whitespace-separated words of `s[start..]`, where the current word
/// began at `start` and the scan has reached `i`.
pub open spec fn words_from(s: Seq<char>, start: int, i: int) -> Seq<Seq<char>>
    decreases s.len() - i,
{
    if i >= s.len() {
        if start < s.len() {
            seq![s.subrange(start, s.len() as int)]
        } else {
            seq![]
        }
    } else if is_ws(s[i]) {
        (if start < i {
            seq![s.subrange(start, i)]
        } else {
            seq![]
        }) + words_from(s, i + 1, i + 1)
    } else {
        words_from(s, start, i + 1)
    }
}

/// The whitespace-separated words of `s` (`str::split_whitespace`).
pub open spec fn words(s: Seq<char>) -> Seq<Seq<char>> {
    words_from(s, 0, 0)
}

/// The character contents of a vector of character vectors.
pub open spec fn char_views(v: Seq<Vec<char>>) -> Seq<Seq<char>> {
    v.map_values(|l: Vec<char>| l@)
}

/// Every character is printable ASCII (space to `~`).
pub open spec fn printable(s: Seq<char>) -> bool {
    forall|i: int| 0 <= i < s.len() ==> ' ' <= #[trigger] s[i] && s[i] <= '~'
}

/// The number of bytes `c` takes in UTF-8.
pub open spec fn char_width(c: char) -> nat {
    let v = c as u32;
    if v <= 0x7F {
        1
    } else if v <= 0x7FF {
        2
    } else if v <= 0xFFFF {
        3
    } else {
        4
    }
}

/// The number of bytes `s` takes in UTF-8 (`str::len`).
pub open spec fn utf8_len(s: Seq<char>) -> nat {
    encode_utf8(s).len()
}

// ---------------------------------------------------------------------------
// Lemmas
// ---------------------------------------------------------------------------

proof fn lemma_encode_scalar_len(c: char)
    ensures
        encode_scalar(c as u32).len() == char_width(c),
{
}

/// The UTF-8 length of a sequence is the sum of its characters' widths.
proof fn lemma_utf8_len_first(s: Seq<char>)
    requires
        s.len() > 0,
    ensures
        utf8_len(s) == char_width(s[0]) + utf8_len(s.drop_first()),
{
    lemma_encode_scalar_len(s[0]);
}

/// The UTF-8 length of a concatenation is the sum of the lengths.
proof fn lemma_utf8_len_add(a: Seq<char>, b: Seq<char>)
    ensures
        utf8_len(a + b) == utf8_len(a) + utf8_len(b),
    decreases a.len(),
{
    if a.len() == 0 {
        assert(a + b =~= b);
    } else {
        lemma_utf8_len_first(a + b);
        lemma_utf8_len_first(a);
        assert((a + b).drop_first() =~= a.drop_first() + b);
        lemma_utf8_len_add(a.drop_first(), b);
    }
}

proof fn lemma_utf8_len_push(a: Seq<char>, c: char)
    ensures
        utf8_len(a.push(c)) == utf8_len(a) + char_width(c),
{
    lemma_utf8_len_add(a, seq![c]);
    lemma_utf8_len_first(seq![c]);
    assert(seq![c].drop_first() =~= Seq::<char>::empty());
    assert(a + seq![c] =~= a.push(c));
}

/// What `find_from` finds: the first occurrence at or after `i`.
pub proof fn lemma_find_from(s: Seq<char>, c: char, i: int)
    ensures
        match find_from(s, c, i) {
            Some(k) => 0 <= i <= k < s.len() && s[k] == c && forall|j: int|
                i <= j < k ==> s[j] != c,
            None => forall|j: int| 0 <= i <= j < s.len() ==> s[j] != c,
        },
    decreases s.len() - i,
{
    if i < 0 || i >= s.len() {
    } else if s[i] == c {
    } else {
        lemma_find_from(s, c, i + 1);
    }
}

// ---------------------------------------------------------------------------
// Executable functions
// ---------------------------------------------------------------------------

/// Collects the characters of `s` into a vector.
pub fn str_to_chars(s: &str) -> (res: Vec<char>)
    ensures
        res@ == s@,
{
    let mut res: Vec<char> = Vec::new();
    for c in iter: s.chars()
        invariant
            res@ == iter.seq().take(iter.index()),
    {
        res.push(c);
    }
    assert(res@ == s@);
    res
}

/// Builds a `String` from characters, through `FromIterator<&char>` of
/// `String` in std, which appends the characters in order.
#[verifier::external_body]
pub(crate) fn string_from_chars(chars: &[char]) -> (res: String)
    ensures
        res@ == chars@,
{
    String::from_iter(chars.iter())
}

/// Decodes `bytes` as UTF-8 through `std::str::from_utf8`: `Some` exactly
/// when the bytes are valid UTF-8, holding the characters they encode.
#[verifier::external_body]
pub(crate) fn str_from_utf8(bytes: &[u8]) -> (res: Option<&str>)
    ensures
        res is Some <==> valid_utf8(bytes@),
        res matches Some(s) ==> s@ == decode_utf8(bytes@),
{
    std::str::from_utf8(bytes).ok()
}

/// Whether `c` is Unicode whitespace (`char::is_whitespace`).
pub fn is_whitespace(c: char) -> (res: bool)
    ensures
        res == is_ws(c),
{
    let v = c as u32;
    (0x09 <= v && v <= 0x0D) || v == 0x20 || v == 0x85 || v == 0xA0 || v == 0x1680 || (0x2000
        <= v && v <= 0x200A) || v == 0x2028 || v == 0x2029 || v == 0x202F || v == 0x205F || v
        == 0x3000
}

/// The bounds of `s[lo..hi]` once leading and trailing whitespace is removed.
pub fn trim_bounds(s: &[char], lo: usize, hi: usize) -> (res: (usize, usize))
    requires
        lo <= hi <= s@.len(),
    ensures
        lo <= res.0 <= res.1 <= hi,
        s@.subrange(res.0 as int, res.1 as int) == trim(s@.subrange(lo as int, hi as int)),
{
    let mut a = lo;
    while a < hi && is_whitespace(s[a])
        invariant
            lo <= a <= hi <= s@.len(),
            trim_start(s@.subrange(lo as int, hi as int)) == trim_start(
                s@.subrange(a as int, hi as int),
            ),
        decreases hi - a,
    {
        assert(s@.subrange(a as int, hi as int).drop_first() =~= s@.subrange(
            a + 1,
            hi as int,
        ));
        a = a + 1;
    }
    assert(trim_start(s@.subrange(a as int, hi as int)) == s@.subrange(a as int, hi as int));
    let mut b = hi;
    while b > a && is_whitespace(s[b - 1])
        invariant
            lo <= a <= b <= hi <= s@.len(),
            trim_start(s@.subrange(lo as int, hi as int)) == s@.subrange(a as int, hi as int),
            trim_end(s@.subrange(a as int, hi as int)) == trim_end(
                s@.subrange(a as int, b as int),
            ),
        decreases b - a,
    {
        assert(s@.subrange(a as int, b as int).drop_last() =~= s@.subrange(
            a as int,
            b - 1,
        ));
        b = b - 1;
    }
    (a, b)
}

/// A copy of `s[lo..hi]`.
pub fn copy_range(s: &[char], lo: usize, hi: usize) -> (res: Vec<char>)
    requires
        lo <= hi <= s@.len(),
    ensures
        res@ == s@.subrange(lo as int, hi as int),
{
    let mut res: Vec<char> = Vec::new();
    let mut i = lo;
    while i < hi
        invariant
            lo <= i <= hi <= s@.len(),
            res@ == s@.subrange(lo as int, i as int),
        decreases hi - i,
    {
        res.push(s[i]);
        i = i + 1;
    }
    res
}

/// `s` without leading and trailing whitespace.
pub fn trim_chars(s: &[char]) -> (res: Vec<char>)
    ensures
        res@ == trim(s@),
{
    let (a, b) = trim_bounds(s, 0, s.len());
    assert(s@.subrange(0, s@.len() as int) =~= s@);
    copy_range(s, a, b)
}

/// `c` with an ASCII upper-case letter mapped to lower case.
pub fn to_lower_char(c: char) -> (res: char)
    ensures
        res == lower_char(c),
{
    if 'A' <= c && c <= 'Z' {
        let v: u8 = c as u8;
        (v + 32) as char
    } else {
        c
    }
}

/// `s` with ASCII letters in lower case.
pub fn to_ascii_lower(s: &[char]) -> (res: Vec<char>)
    ensures
        res@ == ascii_lower(s@),
{
    let mut res: Vec<char> = Vec::new();
    let mut i: usize = 0;
    while i < s.len()
        invariant
            i <= s@.len(),
            res@ == ascii_lower(s@.subrange(0, i as int)),
        decreases s@.len() - i,
    {
        res.push(to_lower_char(s[i]));
        i = i + 1;
        assert(res@ =~= ascii_lower(s@.subrange(0, i as int)));
    }
    assert(s@.subrange(0, s@.len() as int) =~= s@);
    res
}

/// Whether `a` and `b` hold the same characters.
pub fn chars_eq(a: &[char], b: &[char]) -> (res: bool)
    ensures
        res == (a@ == b@),
{
    if a.len() != b.len() {
        return false;
    }
    let mut i: usize = 0;
    while i < a.len()
        invariant
            a@.len() == b@.len(),
            i <= a@.len(),
            forall|j: int| 0 <= j < i ==> a@[j] == b@[j],
        decreases a@.len() - i,
    {
        if a[i] != b[i] {
            return false;
        }
        i = i + 1;
    }
    assert(a@ =~= b@);
    true
}

/// Whether `a` and `b` are equal up to ASCII case.
pub fn eq_ignore_ascii_case(a: &[char], b: &[char]) -> (res: bool)
    ensures
        res == eq_ignore_case(a@, b@),
{
    if a.len() != b.len() {
        assert(ascii_lower(a@).len() != ascii_lower(b@).len());
        return false;
    }
    let mut i: usize = 0;
    while i < a.len()
        invariant
            a@.len() == b@.len(),
            i <= a@.len(),
            forall|j: int| 0 <= j < i ==> lower_char(a@[j]) == lower_char(b@[j]),
        decreases a@.len() - i,
    {
        if to_lower_char(a[i]) != to_lower_char(b[i]) {
            assert(ascii_lower(a@)[i as int] != ascii_lower(b@)[i as int]);
            return false;
        }
        i = i + 1;
    }
    assert(ascii_lower(a@) =~= ascii_lower(b@));
    true
}

/// The first index in `s[lo..hi]` where `c` occurs.
pub fn find_char_in(s: &[char], lo: usize, hi: usize, c: char) -> (res: Option<usize>)
    requires
        lo <= hi <= s@.len(),
    ensures
        match res {
            Some(k) => find_char(s@.subrange(lo as int, hi as int), c) == Some(k - lo),
            None => find_char(s@.subrange(lo as int, hi as int), c) is None,
        },
        res matches Some(k) ==> lo <= k < hi && s@[k as int] == c,
{
    let ghost t = s@.subrange(lo as int, hi as int);
    proof {
        lemma_find_from(t, c, 0);
    }
    let mut i = lo;
    while i < hi
        invariant
            lo <= i <= hi <= s@.len(),
            t == s@.subrange(lo as int, hi as int),
            find_char(t, c) == find_from(t, c, i - lo),
        decreases hi - i,
    {
        if s[i] == c {
            return Some(i);
        }
        i = i + 1;
    }
    None
}

/// The pieces of `s` separated by `"\r\n"`.
pub fn split_crlf_lines(s: &[char]) -> (res: Vec<Vec<char>>)
    ensures
        char_views(res@) == split_crlf(s@),
{
    let mut res: Vec<Vec<char>> = Vec::new();
    let mut start: usize = 0;
    let mut i: usize = 0;
    let ghost mut done: Seq<Seq<char>> = seq![];
    while s.len() - i >= 2
        invariant
            start <= i <= s@.len(),
            char_views(res@) == done,
            split_crlf(s@) == done + lines_from(s@, start as int, i as int),
        decreases s@.len() - i,
    {
        if s[i] == '\r' && s[i + 1] == '\n' {
            let line = copy_range(s, start, i);
            proof {
                assert(done + lines_from(s@, start as int, i as int) =~= done.push(line@)
                    + lines_from(s@, i + 2, i + 2));
                done = done.push(line@);
            }
            res.push(line);
            assert(char_views(res@) =~= done);
            i = i + 2;
            start = i;
        } else {
            i = i + 1;
        }
    }
    let last = copy_range(s, start, s.len());
    proof {
        assert(done + lines_from(s@, start as int, i as int) =~= done.push(last@));
        done = done.push(last@);
    }
    res.push(last);
    assert(char_views(res@) =~= done);
    res
}

/// The whitespace-separated words of `s`.
pub fn split_words(s: &[char]) -> (res: Vec<Vec<char>>)
    ensures
        char_views(res@) == words(s@),
{
    let mut res: Vec<Vec<char>> = Vec::new();
    let mut start: usize = 0;
    let mut i: usize = 0;
    let ghost mut done: Seq<Seq<char>> = seq![];
    while i < s.len()
        invariant
            start <= i <= s@.len(),
            char_views(res@) == done,
            words(s@) == done + words_from(s@, start as int, i as int),
        decreases s@.len() - i,
    {
        if is_whitespace(s[i]) {
            if start < i {
                let w = copy_range(s, start, i);
                proof {
                    assert(done + words_from(s@, start as int, i as int) =~= done.push(w@)
                        + words_from(s@, i + 1, i + 1));
                    done = done.push(w@);
                }
                res.push(w);
                assert(char_views(res@) =~= done);
            } else {
                assert(done + words_from(s@, start as int, i as int) =~= done + words_from(
                    s@,
                    i + 1,
                    i + 1,
                ));
            }
            i = i + 1;
            start = i;
        } else {
            i = i + 1;
        }
    }
    if start < s.len() {
        let w = copy_range(s, start, s.len());
        proof {
            assert(done + words_from(s@, start as int, i as int) =~= done.push(w@));
            done = done.push(w@);
        }
        res.push(w);
        assert(char_views(res@) =~= done);
    } else {
        assert(done + words_from(s@, start as int, i as int) =~= done);
    }
    assert(char_views(res@) =~= done);
    res
}

/// The pieces of `s` separated by `c`.
pub fn split_on_char(s: &[char], c: char) -> (res: Vec<Vec<char>>)
    ensures
        char_views(res@) == split_char(s@, c),
{
    let mut res: Vec<Vec<char>> = Vec::new();
    let mut start: usize = 0;
    let mut i: usize = 0;
    let ghost mut done: Seq<Seq<char>> = seq![];
    while i < s.len()
        invariant
            start <= i <= s@.len(),
            char_views(res@) == done,
            split_char(s@, c) == done + split_from(s@, c, start as int, i as int),
        decreases s@.len() - i,
    {
        if s[i] == c {
            let piece = copy_range(s, start, i);
            proof {
                assert(done + split_from(s@, c, start as int, i as int) =~= done.push(piece@)
                    + split_from(s@, c, i + 1, i + 1));
                done = done.push(piece@);
            }
            res.push(piece);
            assert(char_views(res@) =~= done);
            i = i + 1;
            start = i;
        } else {
            i = i + 1;
        }
    }
    let last = copy_range(s, start, s.len());
    proof {
        assert(done + split_from(s@, c, start as int, i as int) =~= done.push(last@));
        done = done.push(last@);
    }
    res.push(last);
    assert(char_views(res@) =~= done);
    res
}

/// The UTF-8 length of `c`.
pub fn char_utf8_width(c: char) -> (res: usize)
    ensures
        res == char_width(c),
{
    let v = c as u32;
    if v <= 0x7F {
        1
    } else if v <= 0x7FF {
        2
    } else if v <= 0xFFFF {
        3
    } else {
        4
    }
}

/// The UTF-8 length of `s`, or `cap + 1` when it is longer than `cap`.
pub fn utf8_len_capped(s: &[char], cap: usize) -> (res: usize)
    requires
        cap < usize::MAX - 4,
    ensures
        utf8_len(s@) <= cap ==> res == utf8_len(s@),
        utf8_len(s@) > cap ==> res == cap + 1,
{
    let mut total: usize = 0;
    let mut i: usize = 0;
    while i < s.len()
        invariant
            i <= s@.len(),
            cap < usize::MAX - 4,
            total <= cap,
            total == utf8_len(s@.subrange(0, i as int)),
        decreases s@.len() - i,
    {
        proof {
            lemma_utf8_len_push(s@.subrange(0, i as int), s@[i as int]);
            assert(s@.subrange(0, i as int).push(s@[i as int]) =~= s@.subrange(0, i + 1));
        }
        total = total + char_utf8_width(s[i]);
        i = i + 1;
        if total > cap {
            proof {
                lemma_utf8_len_add(s@.subrange(0, i as int), s@.subrange(i as int, s@.len() as int));
                assert(s@.subrange(0, i as int) + s@.subrange(i as int, s@.len() as int) =~= s@);
            }
            return cap + 1;
        }
    }
    assert(s@.subrange(0, s@.len() as int) =~= s@);
    total
}

} // verus!
