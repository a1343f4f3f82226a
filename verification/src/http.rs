//! HTTP/1.1 response parsing: status line, headers and body out of the raw
//! text of a response.

use vstd::prelude::*;

use crate::chars::{
    chars_to_string, find_char, find_char_vec, split_char, split_char_vec, str_to_chars, sub_vec,
};
use crate::error::Error;

verus! {

/// Unicode whitespace, as `char::is_whitespace` has it: the characters with
/// the White_Space property.
pub open spec fn is_ws(c: char) -> bool {
    ||| c == '\u{9}'
    ||| c == '\u{a}'
    ||| c == '\u{b}'
    ||| c == '\u{c}'
    ||| c == '\u{d}'
    ||| c == ' '
    ||| c == '\u{85}'
    ||| c == '\u{a0}'
    ||| c == '\u{1680}'
    ||| ('\u{2000}' <= c && c <= '\u{200a}')
    ||| c == '\u{2028}'
    ||| c == '\u{2029}'
    ||| c == '\u{202f}'
    ||| c == '\u{205f}'
    ||| c == '\u{3000}'
}

fn is_ws_c(c: char) -> (r: bool)
    ensures
        r == is_ws(c),
{
    c == '\u{9}' || c == '\u{a}' || c == '\u{b}' || c == '\u{c}' || c == '\u{d}' || c == ' ' || c
        == '\u{85}' || c == '\u{a0}' || c == '\u{1680}' || ('\u{2000}' <= c && c <= '\u{200a}')
        || c == '\u{2028}' || c == '\u{2029}' || c == '\u{202f}' || c == '\u{205f}' || c
        == '\u{3000}'
}

/// `s` without its leading whitespace.
pub open spec fn trim_start_spec(s: Seq<char>) -> Seq<char>
    decreases s.len(),
{
    if s.len() > 0 && is_ws(s[0]) {
        trim_start_spec(s.drop_first())
    } else {
        s
    }
}

/// `s` without its trailing whitespace.
pub open spec fn trim_end_spec(s: Seq<char>) -> Seq<char>
    decreases s.len(),
{
    if s.len() > 0 && is_ws(s.last()) {
        trim_end_spec(s.drop_last())
    } else {
        s
    }
}

/// `s` without leading and trailing whitespace.
pub open spec fn trim_spec(s: Seq<char>) -> Seq<char> {
    trim_end_spec(trim_start_spec(s))
}

/// `s` with every `\r\n` pair replaced by one `\n`, scanning from the left.
pub open spec fn replace_crlf(s: Seq<char>) -> Seq<char>
    decreases s.len(),
{
    if s.len() >= 2 && s[0] == '\r' && s[1] == '\n' {
        seq!['\n'] + replace_crlf(s.skip(2))
    } else if s.len() > 0 {
        seq![s[0]] + replace_crlf(s.skip(1))
    } else {
        s
    }
}

/// Index of the first `\n\n` pair in `s`, if any.
pub open spec fn find_nn(s: Seq<char>) -> Option<int>
    decreases s.len(),
{
    if s.len() < 2 {
        None
    } else if s[0] == '\n' && s[1] == '\n' {
        Some(0int)
    } else {
        match find_nn(s.drop_first()) {
            Some(i) => Some(i + 1),
            None => None,
        }
    }
}

/// `find_nn` returns the first index starting a `\n\n` pair, or reports
/// that none does.
proof fn lemma_find_nn(s: Seq<char>)
    ensures
        match find_nn(s) {
            Some(i) => 0 <= i && i + 1 < s.len() && s[i] == '\n' && s[i + 1] == '\n' && (forall|
                j: int,
            |
                0 <= j < i ==> !(#[trigger] s[j] == '\n' && s[j + 1] == '\n')),
            None => forall|j: int|
                0 <= j && j + 1 < s.len() ==> !(#[trigger] s[j] == '\n' && s[j + 1] == '\n'),
        },
    decreases s.len(),
{
    if s.len() >= 2 && !(s[0] == '\n' && s[1] == '\n') {
        let d = s.drop_first();
        lemma_find_nn(d);
        match find_nn(d) {
            Some(i) => {
                assert(s[i + 1] == d[i] && s[i + 2] == d[i + 1]);
                assert forall|j: int| 0 <= j < i + 1 implies !(#[trigger] s[j] == '\n' && s[j + 1]
                    == '\n') by {
                    if j > 0 {
                        assert(s[j] == d[j - 1] && s[j + 1] == d[j]);
                    }
                }
            },
            None => {
                assert forall|j: int| 0 <= j && j + 1 < s.len() implies !(#[trigger] s[j] == '\n'
                    && s[j + 1] == '\n') by {
                    if j > 0 {
                        assert(s[j] == d[j - 1] && s[j + 1] == d[j]);
                    }
                }
            },
        }
    }
}

/// First index starting a `\n\n` pair in `v`, if any.
fn find_nn_vec(v: &Vec<char>) -> (r: Option<usize>)
    ensures
        match r {
            Some(i) => i + 1 < v.len() && find_nn(v@) == Some(i as int),
            None => find_nn(v@) is None,
        },
{
    if v.len() < 2 {
        proof {
            lemma_find_nn(v@);
        }
        return None;
    }
    let mut i: usize = 0;
    while i + 1 < v.len()
        invariant
            i + 1 <= v.len(),
            forall|j: int| 0 <= j < i ==> !(#[trigger] v@[j] == '\n' && v@[j + 1] == '\n'),
        decreases v.len() - i,
    {
        if v[i] == '\n' && v[i + 1] == '\n' {
            proof {
                lemma_find_nn(v@);
                match find_nn(v@) {
                    Some(k) => {
                        assert(!(k < i) && !(i < k));
                    },
                    None => {
                        assert(false);
                    },
                }
            }
            return Some(i);
        }
        i = i + 1;
    }
    proof {
        lemma_find_nn(v@);
    }
    None
}

/// `v` without its leading whitespace.
fn trim_start_vec(v: &Vec<char>) -> (r: Vec<char>)
    ensures
        r@ == trim_start_spec(v@),
{
    let mut i: usize = 0;
    proof {
        assert(v@.skip(0) =~= v@);
    }
    while i < v.len() && is_ws_c(v[i])
        invariant
            i <= v.len(),
            trim_start_spec(v@) == trim_start_spec(v@.skip(i as int)),
        decreases v.len() - i,
    {
        proof {
            assert(v@.skip(i as int).drop_first() =~= v@.skip(i + 1));
        }
        i = i + 1;
    }
    proof {
        assert(v@.subrange(i as int, v@.len() as int) =~= v@.skip(i as int));
    }
    sub_vec(v, i, v.len())
}

/// `v` without leading and trailing whitespace.
fn trim_vec(v: &Vec<char>) -> (r: Vec<char>)
    ensures
        r@ == trim_spec(v@),
{
    let mut i: usize = 0;
    proof {
        assert(v@.skip(0) =~= v@);
    }
    while i < v.len() && is_ws_c(v[i])
        invariant
            i <= v.len(),
            trim_start_spec(v@) == trim_start_spec(v@.skip(i as int)),
        decreases v.len() - i,
    {
        proof {
            assert(v@.skip(i as int).drop_first() =~= v@.skip(i + 1));
        }
        i = i + 1;
    }
    let ghost t = trim_start_spec(v@);
    proof {
        assert(t == v@.skip(i as int));
    }
    let mut j: usize = v.len();
    while j > i && is_ws_c(v[j - 1])
        invariant
            i <= j <= v.len(),
            t == trim_start_spec(v@),
            i <= v@.len(),
            v@.skip(i as int) == trim_start_spec(v@),
            trim_end_spec(t) == trim_end_spec(v@.subrange(i as int, j as int)),
            j == v@.len() || trim_end_spec(t) == trim_end_spec(
                v@.subrange(i as int, j as int),
            ),
        decreases j,
    {
        proof {
            let cur = v@.subrange(i as int, j as int);
            assert(cur.last() == v@[j - 1]);
            assert(cur.drop_last() =~= v@.subrange(i as int, j - 1));
        }
        j = j - 1;
    }
    proof {
        let cur = v@.subrange(i as int, j as int);
        if j > i {
            assert(cur.last() == v@[j - 1]);
            assert(!is_ws(cur.last()));
        }
        assert(trim_end_spec(cur) == cur);
    }
    sub_vec(v, i, j)
}

/// `v` with every `\r\n` pair replaced by one `\n`.
fn replace_crlf_vec(v: &Vec<char>) -> (r: Vec<char>)
    ensures
        r@ == replace_crlf(v@),
{
    let mut out: Vec<char> = Vec::new();
    let mut i: usize = 0;
    proof {
        assert(v@.skip(0) =~= v@);
        assert(Seq::<char>::empty() + replace_crlf(v@) =~= replace_crlf(v@));
    }
    while i < v.len()
        invariant
            i <= v.len(),
            replace_crlf(v@) == out@ + replace_crlf(v@.skip(i as int)),
        decreases v.len() - i,
    {
        let ghost rest = v@.skip(i as int);
        let ghost out0 = out@;
        if v[i] == '\r' && i + 1 < v.len() && v[i + 1] == '\n' {
            out.push('\n');
            proof {
                assert(rest[0] == v@[i as int] && rest[1] == v@[i + 1]);
                assert(rest.skip(2) =~= v@.skip(i + 2));
                assert(out0 + (seq!['\n'] + replace_crlf(v@.skip(i + 2))) =~= out@ + replace_crlf(
                    v@.skip(i + 2),
                ));
            }
            i = i + 2;
        } else {
            out.push(v[i]);
            proof {
                assert(rest[0] == v@[i as int]);
                assert(rest.skip(1) =~= v@.skip(i + 1));
                if rest.len() >= 2 && rest[0] == '\r' && rest[1] == '\n' {
                    assert(v@[i + 1] == '\n' && i + 1 < v@.len());
                    assert(false);
                }
                assert(out0 + (seq![rest[0]] + replace_crlf(v@.skip(i + 1))) =~= out@
                    + replace_crlf(v@.skip(i + 1)));
            }
            i = i + 1;
        }
    }
    proof {
        assert(out@ + replace_crlf(v@.skip(v@.len() as int)) =~= out@);
    }
    out
}

/// One decimal digit.
pub open spec fn is_digit(c: char) -> bool {
    '0' <= c && c <= '9'
}

/// Every character of `s` is a decimal digit.
pub open spec fn all_digits(s: Seq<char>) -> bool {
    forall|i: int| 0 <= i < s.len() ==> is_digit(#[trigger] s[i])
}

/// The number the digit string `s` denotes.
pub open spec fn digits_val(s: Seq<char>) -> int
    decreases s.len(),
{
    if s.len() == 0 {
        0
    } else {
        digits_val(s.drop_last()) * 10 + (s.last() as int - 48)
    }
}

proof fn lemma_digits_val_nonneg(s: Seq<char>)
    requires
        all_digits(s),
    ensures
        digits_val(s) >= 0,
    decreases s.len(),
{
    if s.len() > 0 {
        assert(all_digits(s.drop_last())) by {
            assert(forall|i: int| 0 <= i < s.len() - 1 ==> s.drop_last()[i] == s[i]);
        }
        lemma_digits_val_nonneg(s.drop_last());
    }
}

/// What `str::parse::<u32>` accepts: an optional `+`, then one or more
/// digits denoting a value that fits; and the value it then yields.
pub open spec fn parse_u32_spec(s: Seq<char>) -> Option<u32> {
    let t = if s.len() > 0 && s[0] == '+' {
        s.drop_first()
    } else {
        s
    };
    if t.len() > 0 && all_digits(t) && digits_val(t) <= u32::MAX {
        Some(digits_val(t) as u32)
    } else {
        None
    }
}

/// Parses a decimal `u32` as `str::parse` does: an optional leading `+`,
/// then digits; empty, stray characters and overflow all fail.
fn parse_u32(v: &Vec<char>) -> (r: Option<u32>)
    ensures
        r == parse_u32_spec(v@),
{
    let start: usize = if v.len() > 0 && v[0] == '+' {
        1
    } else {
        0
    };
    let ghost t = if v@.len() > 0 && v@[0] == '+' {
        v@.drop_first()
    } else {
        v@
    };
    proof {
        assert(t =~= v@.skip(start as int));
    }
    if v.len() == start {
        return None;
    }
    let mut acc: u64 = 0;
    let mut overflow = false;
    let mut i: usize = start;
    while i < v.len()
        invariant
            start <= i <= v.len(),
            t == v@.skip(start as int),
            t == (if v@.len() > 0 && v@[0] == '+' {
                v@.drop_first()
            } else {
                v@
            }),
            t.len() > 0,
            start <= v@.len(),
            all_digits(t.take(i - start)),
            !overflow ==> acc == digits_val(t.take(i - start)) && acc <= u32::MAX,
            overflow ==> digits_val(t.take(i - start)) > u32::MAX,
        decreases v.len() - i,
    {
        let c = v[i];
        if !('0' <= c && c <= '9') {
            proof {
                assert(t[i - start] == c);
                assert(!all_digits(t));
            }
            return None;
        }
        let d = (c as u8) - 48;
        let ghost k = i - start;
        proof {
            assert(t.take(k + 1).drop_last() =~= t.take(k));
            assert(t.take(k + 1).last() == t[k] == c);
            assert(digits_val(t.take(k + 1)) == digits_val(t.take(k)) * 10 + (c as int - 48));
            assert(all_digits(t.take(k + 1))) by {
                assert(forall|x: int| 0 <= x < k ==> t.take(k + 1)[x] == t.take(k)[x]);
            }
            if overflow {
                lemma_digits_val_nonneg(t.take(k));
            }
        }
        if overflow {
        } else {
            let next = acc * 10 + (d as u64);
            if next > 0xffff_ffff {
                overflow = true;
            } else {
                acc = next;
            }
        }
        i = i + 1;
    }
    proof {
        assert(t.take(v@.len() - start) =~= t);
    }
    if overflow {
        None
    } else {
        Some(acc as u32)
    }
}

/// Mathematical image of a [`Header`].
pub struct HeaderModel {
    pub name: Seq<char>,
    pub value: Seq<char>,
}

/// One response header: a name and a value.
#[derive(Debug, Clone)]
pub struct Header {
    name: String,
    value: String,
}

impl View for Header {
    type V = HeaderModel;

    closed spec fn view(&self) -> HeaderModel {
        HeaderModel { name: self.name@, value: self.value@ }
    }
}

impl DeepView for Header {
    type V = HeaderModel;

    open spec fn deep_view(&self) -> HeaderModel {
        self.view()
    }
}

impl Header {
    /// A header with the given name and value.
    pub fn new(name: String, value: String) -> (r: Self)
        ensures
            r@ == (HeaderModel { name: name@, value: value@ }),
    {
        Self { name, value }
    }
}

/// The header a line yields: the text before its first `:` names it, the
/// text after, trimmed, is its value; a line without `:` yields none.
pub open spec fn header_of_line(line: Seq<char>) -> Option<HeaderModel> {
    match find_char(line, ':') {
        Some(i) => Some(HeaderModel { name: line.take(i), value: trim_spec(line.skip(i + 1)) }),
        None => None,
    }
}

/// The headers a sequence of lines yields, in order, colon-less lines
/// skipped.
pub open spec fn headers_of_lines(lines: Seq<Seq<char>>) -> Seq<HeaderModel>
    decreases lines.len(),
{
    if lines.len() == 0 {
        Seq::empty()
    } else {
        (match header_of_line(lines[0]) {
            Some(h) => seq![h],
            None => Seq::<HeaderModel>::empty(),
        }) + headers_of_lines(lines.drop_first())
    }
}

proof fn lemma_headers_of_lines_concat(a: Seq<Seq<char>>, b: Seq<Seq<char>>)
    ensures
        headers_of_lines(a + b) == headers_of_lines(a) + headers_of_lines(b),
    decreases a.len(),
{
    if a.len() == 0 {
        assert(a + b =~= b);
        assert(headers_of_lines(a) + headers_of_lines(b) =~= headers_of_lines(b));
    } else {
        assert((a + b).drop_first() =~= a.drop_first() + b);
        assert((a + b)[0] == a[0]);
        lemma_headers_of_lines_concat(a.drop_first(), b);
        assert(headers_of_lines(a + b) =~= headers_of_lines(a) + headers_of_lines(b));
    }
}

/// The headers the header section yields: its lines, split at `\n`, parsed
/// in order.
pub open spec fn headers_of(h: Seq<char>) -> Seq<HeaderModel> {
    headers_of_lines(split_char(h, '\n'))
}

/// Parses the header section: one line per `\n`, a header per line with a
/// `:`.
fn parse_headers(hsec: &Vec<char>) -> (r: Vec<Header>)
    ensures
        r.deep_view() == headers_of(hsec@),
{
    let lines = split_char_vec(hsec, '\n');
    let ghost l = lines.deep_view();
    let mut out: Vec<Header> = Vec::new();
    let mut k: usize = 0;
    proof {
        assert(out.deep_view() =~= headers_of_lines(l.take(0)));
    }
    while k < lines.len()
        invariant
            k <= lines.len(),
            l == lines.deep_view(),
            l == split_char(hsec@, '\n'),
            l.len() == lines@.len(),
            out.deep_view() == headers_of_lines(l.take(k as int)),
        decreases lines.len() - k,
    {
        let ghost out0 = out.deep_view();
        let line = &lines[k];
        proof {
            assert(line@ =~= l[k as int]);
        }
        match find_char_vec(line, ':', 0) {
            Some(ci) => {
                proof {
                    assert(line@.skip(0) =~= line@);
                    assert(line@.subrange(0, ci as int) =~= line@.take(ci as int));
                    assert(line@.subrange(ci + 1, line@.len() as int) =~= line@.skip(ci + 1));
                }
                let name = chars_to_string(&sub_vec(line, 0, ci));
                let value_chars = sub_vec(line, ci + 1, line.len());
                let trimmed = trim_vec(&value_chars);
                let value = chars_to_string(&trimmed);
                out.push(Header { name, value });
                proof {
                    assert(out.deep_view() =~~= out0 + seq![
                        HeaderModel {
                            name: l[k as int].take(ci as int),
                            value: trim_spec(l[k as int].skip(ci + 1)),
                        },
                    ]);
                }
            },
            None => {
                proof {
                    assert(line@.skip(0) =~= line@);
                }
            },
        }
        proof {
            assert(l.take(k + 1) =~= l.take(k as int) + seq![l[k as int]]);
            lemma_headers_of_lines_concat(l.take(k as int), seq![l[k as int]]);
            assert(seq![l[k as int]].drop_first() =~= Seq::<Seq<char>>::empty());
            assert(headers_of_lines(Seq::<Seq<char>>::empty()) =~= Seq::<HeaderModel>::empty());
            match header_of_line(l[k as int]) {
                Some(h) => {
                    assert(headers_of_lines(seq![l[k as int]]) =~= seq![h]);
                    assert(out.deep_view() =~= headers_of_lines(l.take(k + 1)));
                },
                None => {
                    assert(headers_of_lines(seq![l[k as int]]) =~= Seq::<HeaderModel>::empty());
                    assert(out.deep_view() =~= headers_of_lines(l.take(k + 1)));
                },
            }
        }
        k = k + 1;
    }
    proof {
        assert(l.take(l.len() as int) =~= l);
    }
    out
}

/// The first header of that name, if one is there.
pub open spec fn header_lookup(headers: Seq<HeaderModel>, name: Seq<char>) -> Option<Seq<char>>
    decreases headers.len(),
{
    if headers.len() == 0 {
        None
    } else if headers[0].name == name {
        Some(headers[0].value)
    } else {
        header_lookup(headers.drop_first(), name)
    }
}

/// Mathematical image of an [`HttpResponse`].
pub struct HttpResponseModel {
    pub version: Seq<char>,
    pub status_code: u32,
    pub reason: Seq<char>,
    pub headers: Seq<HeaderModel>,
    pub body: Seq<char>,
}

/// What parsing a raw response yields, if anything: the raw text is
/// trimmed of leading whitespace and its `\r\n` pairs become `\n`; the
/// first line must hold at least three space-separated words (version,
/// status code, reason) or parsing fails; headers run to the first blank
/// line and the body, trimmed, follows it; a status code that is no `u32`
/// falls back to 404.
pub open spec fn response_of(raw: Seq<char>) -> Option<HttpResponseModel> {
    let p = replace_crlf(trim_start_spec(raw));
    match find_char(p, '\n') {
        None => None,
        Some(i) => {
            let status_line = p.take(i);
            let remaining = p.skip(i + 1);
            let headers = match find_nn(remaining) {
                Some(j) => headers_of(remaining.take(j)),
                None => Seq::<HeaderModel>::empty(),
            };
            let body = match find_nn(remaining) {
                Some(j) => remaining.skip(j + 2),
                None => remaining,
            };
            let statuses = split_char(status_line, ' ');
            if statuses.len() < 3 {
                None
            } else {
                Some(
                    HttpResponseModel {
                        version: statuses[0],
                        status_code: match parse_u32_spec(statuses[1]) {
                            Some(v) => v,
                            None => 404u32,
                        },
                        reason: statuses[2],
                        headers,
                        body: trim_spec(body),
                    },
                )
            }
        },
    }
}

/// A parsed HTTP response.
#[derive(Debug, Clone)]
pub struct HttpResponse {
    version: String,
    status_code: u32,
    reason: String,
    headers: Vec<Header>,
    body: String,
}

impl View for HttpResponse {
    type V = HttpResponseModel;

    closed spec fn view(&self) -> HttpResponseModel {
        HttpResponseModel {
            version: self.version@,
            status_code: self.status_code,
            reason: self.reason@,
            headers: self.headers.deep_view(),
            body: self.body@,
        }
    }
}

impl HttpResponse {
    /// Parses a raw response as [`response_of`] states; a response without
    /// a status line (or with fewer than three words in it) is rejected as
    /// unexpected.
    pub fn new(raw_response: String) -> (r: Result<Self, Error>)
        ensures
            match r {
                Ok(resp) => response_of(raw_response@) == Some(resp@),
                Err(e) => response_of(raw_response@) is None && (e matches
                    Error::UnexpectedResponse(m) && m@ == "Invalid HTTP response: "@
                    + raw_response@),
            },
    {
        let chars = str_to_chars(raw_response.as_str());
        let pre = trim_start_vec(&chars);
        let p = replace_crlf_vec(&pre);
        let ghost ps = p@;
        let nl = find_char_vec(&p, '\n', 0);
        proof {
            assert(ps.skip(0) =~= ps);
        }
        let i = match nl {
            None => {
                let msg = String::from_str("Invalid HTTP response: ").concat(
                    raw_response.as_str(),
                );
                return Err(Error::UnexpectedResponse(msg));
            },
            Some(i) => i,
        };
        proof {
            assert(ps.subrange(0, i as int) =~= ps.take(i as int));
            assert(ps.subrange(i + 1, ps.len() as int) =~= ps.skip(i + 1));
        }
        let status_line = sub_vec(&p, 0, i);
        let remaining = sub_vec(&p, i + 1, p.len());
        let nn = find_nn_vec(&remaining);
        let headers = match nn {
            Some(j) => {
                proof {
                    assert(remaining@.subrange(0, j as int) =~= remaining@.take(j as int));
                }
                let hsec = sub_vec(&remaining, 0, j);
                parse_headers(&hsec)
            },
            None => {
                let hs: Vec<Header> = Vec::new();
                proof {
                    assert(hs.deep_view() =~= Seq::<HeaderModel>::empty());
                }
                hs
            },
        };
        let body_chars = match nn {
            Some(j) => {
                proof {
                    assert(remaining@.subrange(j + 2, remaining@.len() as int) =~= remaining@.skip(
                        j + 2,
                    ));
                }
                sub_vec(&remaining, j + 2, remaining.len())
            },
            None => {
                proof {
                    assert(remaining@.subrange(0, remaining@.len() as int) =~= remaining@);
                }
                sub_vec(&remaining, 0, remaining.len())
            },
        };
        let statuses = split_char_vec(&status_line, ' ');
        if statuses.len() < 3 {
            let msg = String::from_str("Invalid HTTP response: ").concat(raw_response.as_str());
            return Err(Error::UnexpectedResponse(msg));
        }
        proof {
            assert(statuses@[0].deep_view() =~= statuses@[0]@);
            assert(statuses@[1].deep_view() =~= statuses@[1]@);
            assert(statuses@[2].deep_view() =~= statuses@[2]@);
        }
        let version = chars_to_string(&statuses[0]);
        let status_code = match parse_u32(&statuses[1]) {
            Some(v) => v,
            None => 404,
        };
        let reason = chars_to_string(&statuses[2]);
        let trimmed_body = trim_vec(&body_chars);
        let body = chars_to_string(&trimmed_body);
        Ok(HttpResponse { version, status_code, reason, headers, body })
    }

    /// The protocol version word of the status line.
    pub fn version(&self) -> (r: String)
        ensures
            r@ == self@.version,
    {
        self.version.clone()
    }

    /// The numeric status code, 404 when it was unreadable.
    pub fn status_code(&self) -> (r: u32)
        ensures
            r == self@.status_code,
    {
        self.status_code
    }

    /// The reason word of the status line.
    pub fn reason(&self) -> (r: String)
        ensures
            r@ == self@.reason,
    {
        self.reason.clone()
    }

    /// A copy of the headers, in the order the response carried them.
    pub fn headers(&self) -> (r: Vec<Header>)
        ensures
            r.deep_view() == self@.headers,
    {
        let mut r: Vec<Header> = Vec::new();
        let mut i: usize = 0;
        proof {
            assert(r.deep_view() =~= self@.headers.take(0));
        }
        while i < self.headers.len()
            invariant
                i <= self.headers.len(),
                self.headers.deep_view() == self@.headers,
                r.deep_view() == self@.headers.take(i as int),
            decreases self.headers.len() - i,
        {
            let ghost r0 = r.deep_view();
            let h = &self.headers[i];
            r.push(Header { name: h.name.clone(), value: h.value.clone() });
            proof {
                assert(r.deep_view() =~~= r0.push(self@.headers[i as int]));
                assert(self@.headers.take(i as int).push(self@.headers[i as int])
                    =~= self@.headers.take(i + 1));
            }
            i = i + 1;
        }
        proof {
            assert(self@.headers.take(self@.headers.len() as int) =~= self@.headers);
        }
        r
    }

    /// The body, already trimmed.
    pub fn body(&self) -> (r: String)
        ensures
            r@ == self@.body,
    {
        self.body.clone()
    }

    /// The value of the first header of that name; a not-found error names
    /// the header that is missing.
    pub fn header_value(&self, name: &str) -> (r: Result<String, String>)
        ensures
            match r {
                Ok(v) => header_lookup(self@.headers, name@) == Some(v@),
                Err(e) => header_lookup(self@.headers, name@) is None && e@ == "Header "@ + name@
                    + " not found"@,
            },
    {
        let n = name.to_owned();
        let mut i: usize = 0;
        proof {
            assert(self@.headers.skip(0) =~= self@.headers);
        }
        while i < self.headers.len()
            invariant
                i <= self.headers.len(),
                self.headers.deep_view() == self@.headers,
                n@ == name@,
                header_lookup(self@.headers, name@) == header_lookup(
                    self@.headers.skip(i as int),
                    name@,
                ),
            decreases self.headers.len() - i,
        {
            let h = &self.headers[i];
            proof {
                assert(self@.headers.skip(i as int)[0] == self@.headers[i as int]);
                assert(self@.headers.skip(i as int).drop_first() =~= self@.headers.skip(i + 1));
            }
            if h.name == n {
                return Ok(h.value.clone());
            }
            i = i + 1;
        }
        let msg = String::from_str("Header ").concat(name).concat(" not found");
        Err(msg)
    }
}

} // verus!
