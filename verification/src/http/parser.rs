//! HTTP/1.1 request parsing: request line, headers and a body sized by
//! Content-Length.
use vstd::prelude::*;
use vstd::utf8::{valid_utf8, decode_utf8};
use vstd::string::{StringSliceAdditionalSpecFns, StringExecFns};
use bytes::{Bytes, BytesMut};
use crate::buf::{bytes_view, bytes_mut_view, bm_as_slice, b_copy_from_slice, b_new};
use crate::text::{str_from_utf8, str_to_lowercase, lower_text, chars_of, string_of, is_ws, is_whitespace,
    trim, trim_range};
use crate::http::h2::hpack::headers_view;

verus! {

/// Why a buffer does not (yet) hold a request.
#[derive(Debug)]
pub enum ParseError {
    /// More data is needed.
    Incomplete,
    /// The data is not an HTTP request.
    Invalid(String),
}

/// A parsed HTTP request.
#[derive(Debug, Clone)]
pub struct HttpRequest {
    pub method: String,
    pub path: String,
    pub version: String,
    /// Header names (lowercased) and values, in the order the names first appeared;
    /// a repeated name keeps its place and takes the later value.
    pub headers: Vec<(String, String)>,
    pub body: Bytes,
}

/// A request as the contracts see it.
pub struct RequestV {
    pub method: Seq<char>,
    pub path: Seq<char>,
    pub version: Seq<char>,
    pub headers: Seq<(Seq<char>, Seq<char>)>,
    pub body: Seq<u8>,
}

impl HttpRequest {
    /// The request, with strings and body taken by their contents.
    pub open spec fn view(&self) -> RequestV {
        RequestV {
            method: self.method@,
            path: self.path@,
            version: self.version@,
            headers: headers_view(self.headers@),
            body: bytes_view(self.body),
        }
    }
}

/// Whether `b` holds the blank line "\r\n\r\n" at `i`.
pub open spec fn blank_line_at(b: Seq<u8>, i: int) -> bool {
    0 <= i && i + 4 <= b.len() && b[i] == 13 && b[i + 1] == 10 && b[i + 2] == 13 && b[i + 3] == 10
}

/// The first blank line at or after `i`.
pub open spec fn find_blank_line_from(b: Seq<u8>, i: int) -> Option<int>
    decreases b.len() - i,
{
    if i < 0 || i + 4 > b.len() {
        None
    } else if blank_line_at(b, i) {
        Some(i)
    } else {
        find_blank_line_from(b, i + 1)
    }
}

/// Whether `h` holds "\r\n" at `i`.
pub open spec fn crlf_at(h: Seq<char>, i: int) -> bool {
    0 <= i && i + 2 <= h.len() && h[i] == '\r' && h[i + 1] == '\n'
}

/// The first "\r\n" at or after `i`.
pub open spec fn find_crlf_from(h: Seq<char>, i: int) -> Option<int>
    decreases h.len() - i,
{
    if i < 0 || i + 2 > h.len() {
        None
    } else if crlf_at(h, i) {
        Some(i)
    } else {
        find_crlf_from(h, i + 1)
    }
}

/// The first `c` at or after `i`.
pub open spec fn find_char_from(s: Seq<char>, c: char, i: int) -> Option<int>
    decreases s.len() - i,
{
    if i < 0 || i >= s.len() {
        None
    } else if s[i] == c {
        Some(i)
    } else {
        find_char_from(s, c, i + 1)
    }
}

/// The words of a text: its maximal runs of non-whitespace, in order (what
/// `str::split_whitespace` gives).
pub open spec fn words(s: Seq<char>) -> Seq<Seq<char>>
    decreases s.len(),
{
    if s.len() == 0 {
        Seq::empty()
    } else {
        let w = words(s.drop_last());
        let c = s.last();
        if is_ws(c) {
            w
        } else if s.len() >= 2 && !is_ws(s[s.len() - 2]) {
            w.update(w.len() - 1, w.last().push(c))
        } else {
            w.push(seq![c])
        }
    }
}

/// Splitting at '\n': the pieces before each '\n', and the piece after the last one.
pub open spec fn nl_pieces(s: Seq<char>) -> (Seq<Seq<char>>, Seq<char>)
    decreases s.len(),
{
    if s.len() == 0 {
        (Seq::empty(), Seq::empty())
    } else {
        let (d, cur) = nl_pieces(s.drop_last());
        if s.last() == '\n' {
            (d.push(cur), Seq::empty())
        } else {
            (d, cur.push(s.last()))
        }
    }
}

/// A line without the '\r' of its "\r\n" ending.
pub open spec fn strip_cr(l: Seq<char>) -> Seq<char> {
    if l.len() > 0 && l.last() == '\r' { l.drop_last() } else { l }
}

/// The lines of a text (what `str::lines` gives): split at "\n" or "\r\n"; a final
/// line ending is optional and adds no empty line.
pub open spec fn lines(s: Seq<char>) -> Seq<Seq<char>> {
    let (d, cur) = nl_pieces(s);
    let done = d.map_values(|l: Seq<char>| strip_cr(l));
    if cur.len() > 0 { done.push(cur) } else { done }
}

/// The index of the entry with this name, if any.
pub open spec fn find_key_from(m: Seq<(Seq<char>, Seq<char>)>, k: Seq<char>, i: int) -> Option<int>
    decreases m.len() - i,
{
    if i < 0 || i >= m.len() {
        None
    } else if m[i].0 == k {
        Some(i)
    } else {
        find_key_from(m, k, i + 1)
    }
}

/// Sets a header: an existing name takes the new value in place, a new name is appended.
pub open spec fn map_insert(m: Seq<(Seq<char>, Seq<char>)>, k: Seq<char>, v: Seq<char>) -> Seq<(Seq<char>, Seq<char>)> {
    match find_key_from(m, k, 0) {
        Some(i) => m.update(i, (k, v)),
        None => m.push((k, v)),
    }
}

/// One header line: a line with a ':' sets the lowercased, trimmed name before it
/// to the trimmed value after it; other lines are ignored.
pub open spec fn header_field(m: Seq<(Seq<char>, Seq<char>)>, line: Seq<char>) -> Seq<(Seq<char>, Seq<char>)> {
    match find_char_from(line, ':', 0) {
        Some(p) => map_insert(m, lower_text(trim(line.take(p))), trim(line.skip(p + 1))),
        None => m,
    }
}

/// The headers of a list of header lines.
pub open spec fn header_fields(ls: Seq<Seq<char>>) -> Seq<(Seq<char>, Seq<char>)>
    decreases ls.len(),
{
    if ls.len() == 0 {
        Seq::empty()
    } else {
        header_field(header_fields(ls.drop_last()), ls.last())
    }
}

/// The value of a string of decimal digits.
pub open spec fn digits_value(d: Seq<char>) -> nat
    decreases d.len(),
{
    if d.len() == 0 {
        0
    } else {
        digits_value(d.drop_last()) * 10 + digit_value(d.last())
    }
}

/// Whether a character is an ASCII digit.
pub open spec fn is_digit(c: char) -> bool {
    48 <= (c as u32) <= 57
}

/// The value of a digit character (0 for any other character).
pub open spec fn digit_value(c: char) -> nat {
    if is_digit(c) { ((c as u32) - 48) as nat } else { 0 }
}

/// Whether every character is an ASCII digit.
pub open spec fn all_digits(d: Seq<char>) -> bool {
    forall|i: int| 0 <= i < d.len() ==> is_digit(#[trigger] d[i])
}

/// The text without one leading '+', if it has one.
pub open spec fn strip_plus(s: Seq<char>) -> Seq<char> {
    if s.len() > 0 && s[0] == '+' { s.skip(1) } else { s }
}

/// What `str::parse::<usize>` gives: an optional '+', then one or more digits,
/// whose value fits in `usize`.
pub open spec fn parse_usize_spec(s: Seq<char>) -> Option<nat> {
    let d = strip_plus(s);
    if d.len() > 0 && all_digits(d) && digits_value(d) <= usize::MAX {
        Some(digits_value(d))
    } else {
        None
    }
}

/// The name of the header that sizes the body.
pub open spec fn content_length_name() -> Seq<char> {
    seq!['c', 'o', 'n', 't', 'e', 'n', 't', '-', 'l', 'e', 'n', 'g', 't', 'h']
}

/// The body length the headers announce: the "content-length" value when it
/// parses as a `usize`, else 0.
pub open spec fn content_length(hs: Seq<(Seq<char>, Seq<char>)>) -> nat {
    match find_key_from(hs, content_length_name(), 0) {
        Some(i) => match parse_usize_spec(hs[i].1) {
            Some(n) => n,
            None => 0,
        },
        None => 0,
    }
}

/// Outcome of parsing a buffer.
pub enum ParseV {
    /// A request, and the number of bytes it takes.
    Done { req: RequestV, consumed: nat },
    Incomplete,
    Invalid { msg: Seq<char> },
    /// The announced body does not fit in the address space.
    Overflow,
}

/// The message for a buffer that is not UTF-8.
pub open spec fn msg_bad_utf8() -> Seq<char> {
    seq!['I', 'n', 'v', 'a', 'l', 'i', 'd', ' ', 'U', 'T', 'F', '-', '8']
}

/// The message for a request line with fewer than three words.
pub open spec fn msg_bad_request_line() -> Seq<char> {
    seq!['I', 'n', 'v', 'a', 'l', 'i', 'd', ' ', 'r', 'e', 'q', 'u', 'e', 's', 't', ' ', 'l', 'i', 'n', 'e']
}

/// What the head of a buffer gives: an outcome that ends parsing there, or the
/// words of the request line, the headers and where the blank line starts.
pub enum HeadV {
    Stop { outcome: ParseV },
    Head { parts: Seq<Seq<char>>, headers: Seq<(Seq<char>, Seq<char>)>, header_end: int },
}

/// Parsing the head of a buffer.
///
/// The whole buffer must be UTF-8. The head ends at the first blank line; no
/// blank line yet is incomplete. The head's first line is the request line, which
/// needs at least three words (method, path, version); the lines after it are
/// header lines (none when the head is the request line alone).
pub open spec fn head_spec(b: Seq<u8>) -> HeadV {
    if !valid_utf8(b) {
        HeadV::Stop { outcome: ParseV::Invalid { msg: msg_bad_utf8() } }
    } else {
        match find_blank_line_from(b, 0) {
            None => HeadV::Stop { outcome: ParseV::Incomplete },
            Some(he) => {
                let h = decode_utf8(b.take(he));
                let (fle, headers) = match find_crlf_from(h, 0) {
                    None => (h.len() as int, Seq::empty()),
                    Some(k) => (k, header_fields(lines(h.skip(k + 2)))),
                };
                let parts = words(h.take(fle));
                if parts.len() < 3 {
                    HeadV::Stop { outcome: ParseV::Invalid { msg: msg_bad_request_line() } }
                } else {
                    HeadV::Head { parts, headers, header_end: he }
                }
            },
        }
    }
}

/// What parsing a buffer gives: after the head, the body is the Content-Length
/// bytes that follow the blank line, and the request is incomplete until they
/// have all arrived.
pub open spec fn parse_spec(b: Seq<u8>) -> ParseV {
    match head_spec(b) {
        HeadV::Stop { outcome } => outcome,
        HeadV::Head { parts, headers, header_end } => {
            let total = header_end + 4 + content_length(headers);
            if total > usize::MAX {
                ParseV::Overflow
            } else if b.len() < total {
                ParseV::Incomplete
            } else {
                ParseV::Done {
                    req: RequestV {
                        method: parts[0],
                        path: parts[1],
                        version: parts[2],
                        headers,
                        body: b.subrange(header_end + 4, total),
                    },
                    consumed: total as nat,
                }
            }
        },
    }
}

proof fn lemma_find_blank(b: Seq<u8>, i: int)
    requires
        0 <= i,
    ensures
        match find_blank_line_from(b, i) {
            Some(k) => i <= k && k + 4 <= b.len() && blank_line_at(b, k),
            None => true,
        },
    decreases b.len() - i,
{
    if i + 4 <= b.len() && !blank_line_at(b, i) {
        lemma_find_blank(b, i + 1);
    }
}

/// The first blank line ("\r\n\r\n") in `b`.
fn find_blank_line(b: &[u8]) -> (res: Option<usize>)
    ensures
        find_blank_line_from(b@, 0) is None <==> res is None,
        res matches Some(k) ==> find_blank_line_from(b@, 0) == Some(k as int),
{
    proof { lemma_find_blank(b@, 0); }
    let mut i: usize = 0;
    while i < b.len() && b.len() - i >= 4
        invariant
            i <= b@.len(),
            find_blank_line_from(b@, i as int) == find_blank_line_from(b@, 0),
        decreases b@.len() - i,
    {
        if b[i] == 13 && b[i + 1] == 10 && b[i + 2] == 13 && b[i + 3] == 10 {
            return Some(i);
        }
        i = i + 1;
    }
    None
}

/// The first "\r\n" in `h[..hi]`.
fn find_crlf(h: &[char], hi: usize) -> (res: Option<usize>)
    requires
        hi <= h@.len(),
    ensures
        find_crlf_from(h@.take(hi as int), 0) is None <==> res is None,
        res matches Some(k) ==> find_crlf_from(h@.take(hi as int), 0) == Some(k as int) && k + 2 <= hi,
{
    let ghost t = h@.take(hi as int);
    proof { lemma_find_crlf(t, 0); }
    let mut i: usize = 0;
    while i < hi && hi - i >= 2
        invariant
            i <= hi <= h@.len(),
            t == h@.take(hi as int),
            find_crlf_from(t, i as int) == find_crlf_from(t, 0),
        decreases hi - i,
    {
        if h[i] == '\r' && h[i + 1] == '\n' {
            return Some(i);
        }
        i = i + 1;
    }
    None
}

proof fn lemma_find_crlf(h: Seq<char>, i: int)
    requires
        0 <= i,
    ensures
        match find_crlf_from(h, i) {
            Some(k) => i <= k && k + 2 <= h.len(),
            None => true,
        },
    decreases h.len() - i,
{
    if i + 2 <= h.len() && !crlf_at(h, i) {
        lemma_find_crlf(h, i + 1);
    }
}

/// The first `c` in `v[lo..hi]`, as an index into `v`.
fn find_char(v: &[char], lo: usize, hi: usize, c: char) -> (res: Option<usize>)
    requires
        lo <= hi <= v@.len(),
    ensures
        find_char_from(v@.subrange(lo as int, hi as int), c, 0) is None <==> res is None,
        res matches Some(k) ==> lo <= k < hi
            && find_char_from(v@.subrange(lo as int, hi as int), c, 0) == Some(k - lo),
{
    let ghost t = v@.subrange(lo as int, hi as int);
    let mut i: usize = lo;
    while i < hi
        invariant
            lo <= i <= hi <= v@.len(),
            t == v@.subrange(lo as int, hi as int),
            find_char_from(t, c, i - lo) == find_char_from(t, c, 0),
        decreases hi - i,
    {
        if v[i] == c {
            return Some(i);
        }
        i = i + 1;
    }
    None
}

/// The bounds, within `v`, of the words of `v[..hi]`.
fn word_ranges(v: &[char], hi: usize) -> (res: Vec<(usize, usize)>)
    requires
        hi <= v@.len(),
    ensures
        res@.len() == words(v@.take(hi as int)).len(),
        forall|k: int| #![trigger res@[k]] 0 <= k < res@.len() ==> res@[k].0 <= res@[k].1 && res@[k].1 <= hi,
        forall|k: int| 0 <= k < res@.len() ==>
            v@.subrange(res@[k].0 as int, res@[k].1 as int) == #[trigger] words(v@.take(hi as int))[k],
{
    let mut r: Vec<(usize, usize)> = Vec::new();
    let mut i: usize = 0;
    assert(v@.take(0) =~= Seq::<char>::empty());
    while i < hi
        invariant
            i <= hi <= v@.len(),
            r@.len() == words(v@.take(i as int)).len(),
            forall|k: int| #![trigger r@[k]] 0 <= k < r@.len() ==> r@[k].0 <= r@[k].1 && r@[k].1 <= i,
            forall|k: int| 0 <= k < r@.len() ==>
                v@.subrange(r@[k].0 as int, r@[k].1 as int) == #[trigger] words(v@.take(i as int))[k],
            i > 0 && !is_ws(v@[i - 1]) ==> r@.len() > 0 && r@.last().1 == i,
        decreases hi - i,
    {
        let ghost s1 = v@.take(i + 1);
        let ghost w = words(v@.take(i as int));
        let ghost r0 = r@;
        assert(s1.drop_last() =~= v@.take(i as int));
        assert(s1.last() == v@[i as int]);
        let c = v[i];
        if is_whitespace(c) {
        } else if i > 0 && !is_whitespace(v[i - 1]) {
            assert(s1[s1.len() - 2] == v@[i - 1]);
            let last = r.len() - 1;
            let (a, _) = r[last];
            assert(r@[last as int].0 <= r@[last as int].1);
            assert(v@.subrange(a as int, i as int) == w[last as int]);
            r.set(last, (a, i + 1));
            proof {
                assert(v@.subrange(a as int, i + 1) =~= v@.subrange(a as int, i as int).push(c));
                assert forall|k: int| 0 <= k < r@.len() implies
                    v@.subrange(r@[k].0 as int, r@[k].1 as int) == #[trigger] words(s1)[k] by {
                    if k != last {
                        assert(words(s1)[k] == w[k]);
                    }
                }
            }
        } else {
            assert(i > 0 ==> s1[s1.len() - 2] == v@[i - 1]);
            r.push((i, i + 1));
            proof {
                assert(v@.subrange(i as int, i + 1) =~= seq![c]);
                assert forall|k: int| 0 <= k < r@.len() implies
                    v@.subrange(r@[k].0 as int, r@[k].1 as int) == #[trigger] words(s1)[k] by {
                    if k < r@.len() - 1 {
                        assert(words(s1)[k] == w[k]);
                    }
                }
            }
        }
        assert forall|k: int| #![trigger r@[k]] 0 <= k < r@.len() implies r@[k].0 <= r@[k].1 && r@[k].1 <= i + 1 by {
            if k < r0.len() && r@[k] == r0[k] {
                assert(r0[k].0 <= r0[k].1 <= i);
            }
        }
        i = i + 1;
    }
    r
}

proof fn lemma_find_key(m: Seq<(Seq<char>, Seq<char>)>, k: Seq<char>, i: int)
    requires
        0 <= i,
    ensures
        match find_key_from(m, k, i) {
            Some(j) => i <= j < m.len() && m[j].0 == k,
            None => true,
        },
    decreases m.len() - i,
{
    if i < m.len() && m[i].0 != k {
        lemma_find_key(m, k, i + 1);
    }
}

/// Index of the header with this name, if any.
fn find_header(m: &Vec<(String, String)>, k: &String) -> (res: Option<usize>)
    ensures
        find_key_from(headers_view(m@), k@, 0) is None <==> res is None,
        res matches Some(j) ==> find_key_from(headers_view(m@), k@, 0) == Some(j as int) && j < m@.len(),
{
    let ghost hv = headers_view(m@);
    proof { lemma_find_key(hv, k@, 0); }
    let mut i: usize = 0;
    while i < m.len()
        invariant
            i <= m@.len(),
            hv == headers_view(m@),
            find_key_from(hv, k@, i as int) == find_key_from(hv, k@, 0),
        decreases m@.len() - i,
    {
        assert(hv[i as int] == (m@[i as int].0@, m@[i as int].1@));
        if m[i].0 == *k {
            return Some(i);
        }
        i = i + 1;
    }
    None
}

/// Sets header `k` to `v` (see `map_insert`).
pub(crate) fn header_insert(m: &mut Vec<(String, String)>, k: String, v: String)
    ensures
        headers_view(final(m)@) == map_insert(headers_view(old(m)@), k@, v@),
{
    let ghost before = m@;
    match find_header(m, &k) {
        Some(i) => {
            m.set(i, (k, v));
            assert(headers_view(m@) =~= headers_view(before).update(i as int, (k@, v@)));
        },
        None => {
            m.push((k, v));
            assert(headers_view(m@) =~= headers_view(before).push((k@, v@)));
        },
    }
}

/// Applies the header line `h[lo..hi]` (see `header_field`).
fn apply_header_line(h: &[char], lo: usize, hi: usize, m: &mut Vec<(String, String)>)
    requires
        lo <= hi <= h@.len(),
    ensures
        headers_view(final(m)@) == header_field(headers_view(old(m)@), h@.subrange(lo as int, hi as int)),
{
    let ghost line = h@.subrange(lo as int, hi as int);
    if let Some(p) = find_char(h, lo, hi, ':') {
        let (a, b) = trim_range(h, lo, p);
        let name = string_of(h, a, b);
        let key = str_to_lowercase(name.as_str());
        let (c, d) = trim_range(h, p + 1, hi);
        let value = string_of(h, c, d);
        assert(line.take(p - lo) =~= h@.subrange(lo as int, p as int));
        assert(line.skip(p - lo + 1) =~= h@.subrange(p + 1, hi as int));
        header_insert(m, key, value);
    }
}

/// The headers of the lines of `h[start..]` (see `lines` and `header_fields`).
fn parse_headers(h: &[char], start: usize) -> (res: Vec<(String, String)>)
    requires
        start <= h@.len(),
    ensures
        headers_view(res@) == header_fields(lines(h@.skip(start as int))),
{
    let mut m: Vec<(String, String)> = Vec::new();
    let mut line_start = start;
    let mut j = start;
    assert(h@.subrange(start as int, start as int) =~= Seq::<char>::empty());
    assert(headers_view(m@) =~= Seq::<(Seq<char>, Seq<char>)>::empty());
    assert(nl_pieces(Seq::<char>::empty()).0.map_values(|l: Seq<char>| strip_cr(l)) =~= Seq::<Seq<char>>::empty());
    while j < h.len()
        invariant
            start <= line_start <= j <= h@.len(),
            headers_view(m@) == header_fields(nl_pieces(h@.subrange(start as int, j as int)).0.map_values(
                |l: Seq<char>| strip_cr(l),
            )),
            nl_pieces(h@.subrange(start as int, j as int)).1 == h@.subrange(line_start as int, j as int),
        decreases h@.len() - j,
    {
        let ghost t1 = h@.subrange(start as int, j + 1);
        let ghost t0 = h@.subrange(start as int, j as int);
        assert(t1.drop_last() =~= t0);
        assert(t1.last() == h@[j as int]);
        if h[j] == '\n' {
            let ghost cur = h@.subrange(line_start as int, j as int);
            let end = if j > line_start && h[j - 1] == '\r' { j - 1 } else { j };
            assert(h@.subrange(line_start as int, end as int) =~= strip_cr(cur));
            let ghost d0 = nl_pieces(t0).0.map_values(|l: Seq<char>| strip_cr(l));
            apply_header_line(h, line_start, end, &mut m);
            proof {
                let d1 = nl_pieces(t1).0.map_values(|l: Seq<char>| strip_cr(l));
                assert(d1 =~= d0.push(strip_cr(cur)));
                assert(d1.drop_last() =~= d0);
            }
            line_start = j + 1;
            assert(h@.subrange(line_start as int, j + 1) =~= Seq::<char>::empty());
        } else {
            proof {
                assert(nl_pieces(t1).0.map_values(|l: Seq<char>| strip_cr(l))
                    =~= nl_pieces(t0).0.map_values(|l: Seq<char>| strip_cr(l)));
                assert(h@.subrange(line_start as int, j + 1) =~= h@.subrange(line_start as int, j as int).push(h@[j as int]));
            }
        }
        j = j + 1;
    }
    let ghost t = h@.subrange(start as int, j as int);
    assert(t =~= h@.skip(start as int));
    let ghost d = nl_pieces(t).0.map_values(|l: Seq<char>| strip_cr(l));
    if line_start < j {
        apply_header_line(h, line_start, j, &mut m);
        proof {
            let ls = lines(t);
            assert(ls =~= d.push(h@.subrange(line_start as int, j as int)));
            assert(ls.drop_last() =~= d);
        }
    } else {
        assert(lines(t) =~= d);
    }
    m
}

proof fn lemma_digits_prefix(d: Seq<char>, k: int)
    requires
        0 <= k <= d.len(),
    ensures
        digits_value(d.take(k)) <= digits_value(d),
    decreases d.len() - k,
{
    if k < d.len() {
        lemma_digits_prefix(d, k + 1);
        let t = d.take(k + 1);
        assert(t.drop_last() =~= d.take(k));
    } else {
        assert(d.take(k) =~= d);
    }
}

/// `str::parse::<usize>` on the characters `v` (see `parse_usize_spec`).
fn parse_usize(v: &[char]) -> (res: Option<usize>)
    ensures
        parse_usize_spec(v@) is None <==> res is None,
        res matches Some(n) ==> parse_usize_spec(v@) == Some(n as nat),
{
    let start: usize = if v.len() > 0 && v[0] == '+' { 1 } else { 0 };
    let ghost d = strip_plus(v@);
    assert(d =~= v@.skip(start as int));
    if start == v.len() {
        return None;
    }
    let mut i: usize = start;
    while i < v.len()
        invariant
            start <= i <= v@.len(),
            d =~= v@.skip(start as int),
            d == strip_plus(v@),
            forall|j: int| 0 <= j < i - start ==> is_digit(#[trigger] d[j]),
        decreases v@.len() - i,
    {
        let u = v[i] as u32;
        assert(d[i - start] == v@[i as int]);
        if u < 48 || u > 57 {
            assert(!is_digit(d[i - start]));
            assert(!all_digits(d));
            return None;
        }
        i = i + 1;
    }
    let mut value: usize = 0;
    i = start;
    assert(d.take(0) =~= Seq::<char>::empty());
    while i < v.len()
        invariant
            start <= i <= v@.len(),
            d =~= v@.skip(start as int),
            d == strip_plus(v@),
            all_digits(d),
            value == digits_value(d.take(i - start)),
        decreases v@.len() - i,
    {
        let ghost t = d.take(i - start + 1);
        assert(t.drop_last() =~= d.take(i - start));
        assert(t.last() == v@[i as int]);
        assert(is_digit(d[i - start]));
        assert(all_digits(d));
        let dig = (v[i] as u32 - 48) as usize;
        let next = match value.checked_mul(10) {
            Some(x) => x.checked_add(dig),
            None => None,
        };
        match next {
            Some(y) => value = y,
            None => {
                proof { lemma_digits_prefix(d, i - start + 1); }
                return None;
            },
        }
        i = i + 1;
    }
    assert(d.take(i - start) =~= d);
    Some(value)
}

/// The body length the headers announce (see `content_length`).
fn content_length_of(m: &Vec<(String, String)>) -> (n: usize)
    ensures
        n == content_length(headers_view(m@)),
{
    let name = String::from_str("content-length");
    proof {
        reveal_strlit("content-length");
        assert(name@ =~= content_length_name());
    }
    match find_header(m, &name) {
        Some(i) => {
            assert(headers_view(m@)[i as int] == (m@[i as int].0@, m@[i as int].1@));
            let cs = chars_of(m[i].1.as_str());
            match parse_usize(cs.as_slice()) {
                Some(n) => n,
                None => 0,
            }
        },
        None => 0,
    }
}

/// The head of a request: request line words, headers, where the blank line
/// starts and the body length announced.
struct Head {
    method: String,
    path: String,
    version: String,
    headers: Vec<(String, String)>,
    header_end: usize,
    content_length: usize,
}

/// Whether a result is the one a parse outcome describes.
pub open spec fn parse_result_matches(res: Result<(HttpRequest, usize), ParseError>, p: ParseV) -> bool {
    match p {
        ParseV::Done { req, consumed } => res matches Ok((r, n)) && r@ == req && n == consumed,
        ParseV::Incomplete => res matches Err(ParseError::Incomplete),
        ParseV::Invalid { msg } => res matches Err(ParseError::Invalid(e)) && e@ == msg,
        ParseV::Overflow => false,
    }
}

/// HTTP/1.1 request parser.
pub struct HttpParser {
    min_bytes: usize,
}

impl HttpParser {
    /// The number of bytes the parser wants before it tries a parse.
    pub closed spec fn wanted(&self) -> nat {
        self.min_bytes as nat
    }

    /// A parser.
    pub fn new() -> (p: Self)
        ensures
            p.wanted() == 16,
    {
        HttpParser { min_bytes: 16 }
    }

    /// Parses the head of the buffer (see `head_spec`).
    fn scan(buf: &BytesMut) -> (res: Result<Head, ParseError>)
        ensures
            match head_spec(bytes_mut_view(*buf)) {
                HeadV::Stop { outcome } => parse_result_matches(
                    match res { Ok(_) => Err(ParseError::Incomplete), Err(e) => Err(e) },
                    outcome,
                ) && res is Err,
                HeadV::Head { parts, headers, header_end } => res matches Ok(hd)
                    && hd.method@ == parts[0] && hd.path@ == parts[1] && hd.version@ == parts[2]
                    && headers_view(hd.headers@) == headers && hd.header_end == header_end
                    && hd.content_length == content_length(headers)
                    && header_end + 4 <= bytes_mut_view(*buf).len() <= usize::MAX,
            },
    {
        let bytes = bm_as_slice(buf);
        let ghost b = bytes@;
        let data = match str_from_utf8(bytes) {
            Some(d) => d,
            None => {
                let msg = String::from_str("Invalid UTF-8");
                proof {
                    reveal_strlit("Invalid UTF-8");
                    assert(msg@ =~= msg_bad_utf8());
                }
                return Err(ParseError::Invalid(msg));
            },
        };
        let he = match find_blank_line(bytes) {
            Some(k) => k,
            None => return Err(ParseError::Incomplete),
        };
        proof {
            lemma_find_blank(b, 0);
            vstd::utf8::is_char_boundary_iff_not_is_continuation_byte(b, he as int);
        }
        let (hd, _) = data.split_at(he);
        proof {
            vstd::utf8::encode_utf8_decode_utf8(hd@);
            assert(hd.spec_bytes() =~= b.take(he as int));
        }
        let h = chars_of(hd);
        assert(h@ == decode_utf8(b.take(he as int)));
        assert(h@.take(h@.len() as int) =~= h@);
        let found = find_crlf(h.as_slice(), h.len());
        let fle = match found {
            Some(k) => k,
            None => h.len(),
        };
        let ranges = word_ranges(h.as_slice(), fle);
        if ranges.len() < 3 {
            let msg = String::from_str("Invalid request line");
            proof {
                reveal_strlit("Invalid request line");
                assert(msg@ =~= msg_bad_request_line());
            }
            return Err(ParseError::Invalid(msg));
        }
        assert(ranges@[0].0 <= ranges@[0].1 <= fle);
        assert(ranges@[1].0 <= ranges@[1].1 <= fle);
        assert(ranges@[2].0 <= ranges@[2].1 <= fle);
        let method = string_of(h.as_slice(), ranges[0].0, ranges[0].1);
        let path = string_of(h.as_slice(), ranges[1].0, ranges[1].1);
        let version = string_of(h.as_slice(), ranges[2].0, ranges[2].1);
        let headers = match found {
            Some(_) => parse_headers(h.as_slice(), fle + 2),
            None => Vec::new(),
        };
        let content_length = content_length_of(&headers);
        proof {
            lemma_find_crlf(h@, 0);
            assert(find_blank_line_from(b, 0) == Some(he as int));
            assert(words(h@.take(fle as int)).len() >= 3);
            if found is Some {
                assert(find_crlf_from(h@, 0) == Some(fle as int));
                assert(head_spec(b) == HeadV::Head {
                    parts: words(h@.take(fle as int)),
                    headers: header_fields(lines(h@.skip(fle + 2))),
                    header_end: he as int,
                });
            } else {
                assert(find_crlf_from(h@, 0) is None);
                assert(headers_view(headers@) =~= Seq::empty());
                assert(head_spec(b) == HeadV::Head {
                    parts: words(h@.take(fle as int)),
                    headers: Seq::empty(),
                    header_end: he as int,
                });
            }
            assert(method@ == words(h@.take(fle as int))[0]);
            assert(path@ == words(h@.take(fle as int))[1]);
            assert(version@ == words(h@.take(fle as int))[2]);
            assert(he + 4 <= b.len());
        }
        assert(b.len() <= usize::MAX) by {
            assert(bytes@.len() == bytes.len());
        }
        Ok(Head { method, path, version, headers, header_end: he, content_length })
    }

    /// Parses a request from the front of the buffer (see `parse_spec`): the request
    /// and the number of bytes it takes, `Incomplete` while more data is needed, or
    /// `Invalid` with a message.
    pub fn parse(&mut self, buf: &BytesMut) -> (res: Result<(HttpRequest, usize), ParseError>)
        requires
            !(parse_spec(bytes_mut_view(*buf)) is Overflow),
        ensures
            parse_result_matches(res, parse_spec(bytes_mut_view(*buf))),
    {
        let head = match Self::scan(buf) {
            Ok(hd) => hd,
            Err(e) => return Err(e),
        };
        let body_start = head.header_end + 4;
        let total = body_start + head.content_length;
        let bytes = bm_as_slice(buf);
        if bytes.len() < total {
            return Err(ParseError::Incomplete);
        }
        let body = if head.content_length > 0 {
            b_copy_from_slice(vstd::slice::slice_subrange(bytes, body_start, total))
        } else {
            let e = b_new();
            assert(bytes_view(e) =~= bytes@.subrange(body_start as int, total as int));
            e
        };
        let req = HttpRequest {
            method: head.method,
            path: head.path,
            version: head.version,
            headers: head.headers,
            body,
        };
        Ok((req, total))
    }

    /// Parses like `parse`, but first checks that the announced body ends within
    /// `usize`: `None` when it does not, where `parse` has no answer.
    pub fn parse_checked(&mut self, buf: &BytesMut) -> (res: Option<Result<(HttpRequest, usize), ParseError>>)
        ensures
            res is None <==> parse_spec(bytes_mut_view(*buf)) is Overflow,
            res matches Some(r) ==> parse_result_matches(r, parse_spec(bytes_mut_view(*buf))),
    {
        if let Ok(head) = Self::scan(buf) {
            if head.content_length > usize::MAX - (head.header_end + 4) {
                return None;
            }
        }
        Some(self.parse(buf))
    }
}

impl Default for HttpParser {
    /// A parser.
    fn default() -> (p: Self)
        ensures
            p.wanted() == 16,
    {
        HttpParser::new()
    }
}

} // verus!
