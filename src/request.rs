use vstd::prelude::*;
use vstd::utf8::valid_utf8;
use crate::bytes::{
    bytes_eq, copy_range, crlf, find_byte, find_colon_space, first_colon_space, first_index, is_utf8,
    lemma_first_colon_space_bounds, lemma_first_index_at, lemma_first_index_bounds, strip_crlf, CR, LF, SPACE,
};

verus! {

/// One `Name: Value` header line, as received.
pub struct Header {
    pub name: Vec<u8>,
    pub value: Vec<u8>,
}

/// A parsed request. Every text field holds the bytes that were received.
pub struct Request {
    pub method: Vec<u8>,
    pub path: Vec<u8>,
    pub version: Vec<u8>,
    /// In arrival order; duplicates are kept.
    pub headers: Vec<Header>,
    pub body: Vec<u8>,
}

/// Why a request could not be read.
#[derive(PartialEq, Eq, Structural, Debug, Clone, Copy)]
pub enum ParseError {
    /// A line is not well-formed UTF-8.
    InvalidUtf8Line,
    /// A line does not end in `"\r\n"`.
    MissingLineEnd,
    /// The request line does not hold exactly three space-separated tokens.
    BadRequestLine,
    /// The body is not well-formed UTF-8.
    InvalidUtf8Body,
}

pub open spec fn headers_view(h: Seq<Header>) -> Seq<(Seq<u8>, Seq<u8>)> {
    h.map_values(|x: Header| (x.name@, x.value@))
}

/// The value of the first header in `h` named `key`.
pub open spec fn first_header(h: Seq<(Seq<u8>, Seq<u8>)>, key: Seq<u8>) -> Option<Seq<u8>>
    decreases h.len(),
{
    if h.len() == 0 {
        None
    } else if h[0].0 == key {
        Some(h[0].1)
    } else {
        first_header(h.drop_first(), key)
    }
}

/// `"Content-Length"`
pub open spec fn content_length_name() -> Seq<u8> {
    seq![67u8, 111, 110, 116, 101, 110, 116, 45, 76, 101, 110, 103, 116, 104]
}

pub fn content_length_name_bytes() -> (r: Vec<u8>)
    ensures
        r@ == content_length_name(),
{
    vec![67u8, 111, 110, 116, 101, 110, 116, 45, 76, 101, 110, 103, 116, 104]
}

/// The three tokens of a request line (without its line end), when it has
/// exactly two single spaces.
pub open spec fn request_line_tokens(l: Seq<u8>) -> Option<(Seq<u8>, Seq<u8>, Seq<u8>)> {
    let i = first_index(l, SPACE) as int;
    let rest = l.skip(i + 1);
    let j = first_index(rest, SPACE) as int;
    let last = rest.skip(j + 1);
    if i == l.len() || j == rest.len() || first_index(last, SPACE) < last.len() {
        None
    } else {
        Some((l.take(i), rest.take(j), last))
    }
}

/// Name and value of a header line (without its line end), split at the
/// first `": "`; `None` when there is none.
pub open spec fn header_parts(l: Seq<u8>) -> Option<(Seq<u8>, Seq<u8>)> {
    let i = first_colon_space(l) as int;
    if i == l.len() {
        None
    } else {
        Some((l.take(i), l.skip(i + 2)))
    }
}

impl Request {
    pub open spec fn headers_view(&self) -> Seq<(Seq<u8>, Seq<u8>)> {
        headers_view(self.headers@)
    }

    /// A request with every field empty.
    pub fn empty() -> (r: Request)
        ensures
            r.method@ == Seq::<u8>::empty(),
            r.path@ == Seq::<u8>::empty(),
            r.version@ == Seq::<u8>::empty(),
            r.headers@.len() == 0,
            r.body@ == Seq::<u8>::empty(),
    {
        Request {
            method: Vec::new(),
            path: Vec::new(),
            version: Vec::new(),
            headers: Vec::new(),
            body: Vec::new(),
        }
    }

    /// The value of the first header whose name is exactly `key`.
    pub fn get_header(&self, key: &[u8]) -> (r: Option<Vec<u8>>)
        ensures
            r matches Some(v) ==> first_header(self.headers_view(), key@) == Some(v@),
            r is None ==> first_header(self.headers_view(), key@) is None,
    {
        let ghost h = self.headers_view();
        let mut i: usize = 0;
        assert(h.skip(0) == h);
        while i < self.headers.len()
            invariant
                i <= self.headers@.len(),
                h == self.headers_view(),
                first_header(h, key@) == first_header(h.skip(i as int), key@),
            decreases self.headers@.len() - i,
        {
            let hd = &self.headers[i];
            if bytes_eq(hd.name.as_slice(), key) {
                assert(h.skip(i as int)[0] == h[i as int]);
                return Some(hd.value.clone());
            }
            assert(h.skip(i as int).drop_first() == h.skip(i + 1));
            i = i + 1;
        }
        None
    }
}

/// Whether the first header named `key` in `h` is the `i`-th: it is exactly
/// when no earlier header has that name.
pub proof fn lemma_first_header_is_first(h: Seq<(Seq<u8>, Seq<u8>)>, key: Seq<u8>, i: int)
    requires
        0 <= i < h.len(),
        h[i].0 == key,
        forall|k: int| 0 <= k < i ==> h[k].0 != key,
    ensures
        first_header(h, key) == Some(h[i].1),
    decreases h.len(),
{
    if i > 0 {
        assert forall|k: int| 0 <= k < i - 1 implies h.drop_first()[k].0 != key by {
            assert(h.drop_first()[k] == h[k + 1]);
        }
        lemma_first_header_is_first(h.drop_first(), key, i - 1);
    }
}

/// A lookup finds nothing exactly when no header has the name.
pub proof fn lemma_first_header_none(h: Seq<(Seq<u8>, Seq<u8>)>, key: Seq<u8>)
    ensures
        first_header(h, key) is None <==> forall|k: int| 0 <= k < h.len() ==> h[k].0 != key,
    decreases h.len(),
{
    if h.len() > 0 {
        lemma_first_header_none(h.drop_first(), key);
        if h[0].0 != key {
            assert forall|k: int| 0 <= k < h.len() && h[k].0 == key implies k > 0 && h.drop_first()[k - 1].0 == key by {}
        }
    }
}

proof fn lemma_first_header_push(h: Seq<(Seq<u8>, Seq<u8>)>, x: (Seq<u8>, Seq<u8>), key: Seq<u8>)
    ensures
        first_header(h.push(x), key) is Some <==> (first_header(h, key) is Some || x.0 == key),
    decreases h.len(),
{
    assert(h.push(x).len() > 0);
    if h.len() == 0 {
        assert(h.push(x)[0] == x);
        assert(h.push(x).drop_first() == Seq::<(Seq<u8>, Seq<u8>)>::empty());
        assert(first_header(Seq::<(Seq<u8>, Seq<u8>)>::empty(), key) is None);
        assert(first_header(h, key) is None);
    } else {
        assert(h.push(x)[0] == h[0]);
        assert(h.push(x).drop_first() == h.drop_first().push(x));
        lemma_first_header_push(h.drop_first(), x, key);
    }
}

/// Splits a request line (without its line end) into its three tokens.
pub fn parse_request_line(c: &[u8]) -> (r: Option<(Vec<u8>, Vec<u8>, Vec<u8>)>)
    ensures
        match request_line_tokens(c@) {
            None => r is None,
            Some((m, p, v)) => r matches Some((rm, rp, rv)) && rm@ == m && rp@ == p && rv@ == v,
        },
{
    let len = c.len();
    let i = find_byte(c, 0, SPACE);
    assert(c@.skip(0) == c@);
    proof { lemma_first_index_bounds(c@, SPACE); }
    if i == len {
        return None;
    }
    let j = find_byte(c, i + 1, SPACE);
    proof { lemma_first_index_bounds(c@.skip(i + 1), SPACE); }
    if j == len {
        return None;
    }
    let k = find_byte(c, j + 1, SPACE);
    proof { lemma_first_index_bounds(c@.skip(j + 1), SPACE); }
    assert(c@.skip(i + 1).skip(j - i) == c@.skip(j + 1));
    if k < len {
        return None;
    }
    let m = copy_range(c, 0, i);
    let p = copy_range(c, i + 1, j);
    let v = copy_range(c, j + 1, len);
    assert(c@.take(i as int) == c@.subrange(0, i as int));
    assert(c@.skip(i + 1).take(j - i - 1) == c@.subrange(i + 1, j as int));
    assert(c@.skip(j + 1) == c@.subrange(j + 1, len as int));
    Some((m, p, v))
}

/// Splits a header line (without its line end) at its first `": "`.
pub fn parse_header_line(c: &[u8]) -> (r: Option<Header>)
    ensures
        match header_parts(c@) {
            None => r is None,
            Some((n, v)) => r matches Some(h) && h.name@ == n && h.value@ == v,
        },
{
    let len = c.len();
    let k = find_colon_space(c);
    proof { lemma_first_colon_space_bounds(c@); }
    if k == len {
        return None;
    }
    let name = copy_range(c, 0, k);
    let value = copy_range(c, k + 2, len);
    assert(name@ == c@.take(k as int));
    assert(value@ == c@.skip(k + 2));
    Some(Header { name, value })
}

proof fn lemma_no_space(s: Seq<u8>)
    requires
        forall|k: int| 0 <= k < s.len() ==> s[k] != SPACE,
    ensures
        first_index(s, SPACE) == s.len(),
{
    lemma_first_index_bounds(s, SPACE);
}

/// A request line `METHOD SP PATH SP VERSION CRLF` whose tokens hold no
/// space gives back exactly those three tokens.
pub proof fn lemma_request_line_round_trip(m: Seq<u8>, p: Seq<u8>, v: Seq<u8>)
    requires
        forall|k: int| 0 <= k < m.len() ==> m[k] != SPACE,
        forall|k: int| 0 <= k < p.len() ==> p[k] != SPACE,
        forall|k: int| 0 <= k < v.len() ==> v[k] != SPACE,
    ensures
        !ends_head(m + seq![SPACE] + p + seq![SPACE] + v + crlf()),
        strip_crlf(m + seq![SPACE] + p + seq![SPACE] + v + crlf()) == Some(m + seq![SPACE] + p + seq![SPACE] + v),
        request_line_tokens(m + seq![SPACE] + p + seq![SPACE] + v) == Some((m, p, v)),
{
    let l = m + seq![SPACE] + p + seq![SPACE] + v;
    let line = l + crlf();
    assert(line.len() == l.len() + 2);
    assert(line.take(l.len() as int) == l);
    assert(line[line.len() - 2] == CR && line[line.len() - 1] == LF);
    assert forall|k: int| 0 <= k < m.len() implies l[k] != SPACE by {
        assert(l[k] == m[k]);
    }
    assert(l[m.len() as int] == SPACE);
    lemma_first_index_at(l, SPACE, m.len() as int);
    let rest = l.skip(m.len() + 1int);
    assert(rest == p + seq![SPACE] + v);
    assert forall|k: int| 0 <= k < p.len() implies rest[k] != SPACE by {
        assert(rest[k] == p[k]);
    }
    assert(rest[p.len() as int] == SPACE);
    lemma_first_index_at(rest, SPACE, p.len() as int);
    assert(rest.skip(p.len() + 1int) == v);
    lemma_no_space(v);
    assert(l.take(m.len() as int) == m);
    assert(rest.take(p.len() as int) == p);
}

/// What the reader asks for after a line.
#[derive(PartialEq, Eq, Structural, Debug, Clone, Copy)]
pub enum Feed {
    /// Another line is wanted.
    Continue,
    /// The header block is over.
    HeadEnd,
}

/// True when `line`, as read up to and including `'\n'`, ends the header
/// block: nothing was left to read, or it is exactly `"\r\n"`.
pub open spec fn ends_head(line: Seq<u8>) -> bool {
    line.len() == 0 || (valid_utf8(line) && line == crlf())
}

/// Reads a request one line at a time: the caller hands it each line as
/// read up to `'\n'` (an empty one when the stream has ended), and then the
/// body when `wants_body` says that one follows.
pub struct RequestReader {
    pub request: Request,
    pub first_line: bool,
    pub has_body: bool,
}

impl RequestReader {
    pub open spec fn wf(&self) -> bool {
        self.has_body == first_header(self.request.headers_view(), content_length_name()) is Some
    }

    pub fn new() -> (r: RequestReader)
        ensures
            r.wf(),
            r.first_line,
            r.request.method@ == Seq::<u8>::empty(),
            r.request.path@ == Seq::<u8>::empty(),
            r.request.version@ == Seq::<u8>::empty(),
            r.request.headers@.len() == 0,
    {
        RequestReader { request: Request::empty(), first_line: true, has_body: false }
    }

    /// Takes one line. The first line with content is the request line; each
    /// later one with a `": "` adds a header, and one without is passed over.
    pub fn feed_line(&mut self, line: &[u8]) -> (r: Result<Feed, ParseError>)
        requires
            old(self).wf(),
        ensures
            final(self).wf(),
            ends_head(line@) ==> r == Ok::<Feed, ParseError>(Feed::HeadEnd) && *final(self) == *old(self),
            line@.len() > 0 && !valid_utf8(line@) ==> r == Err::<Feed, ParseError>(ParseError::InvalidUtf8Line),
            !ends_head(line@) && valid_utf8(line@) && strip_crlf(line@) is None
                ==> r == Err::<Feed, ParseError>(ParseError::MissingLineEnd),
            !ends_head(line@) && valid_utf8(line@) && old(self).first_line && strip_crlf(line@) is Some
                ==> match request_line_tokens(strip_crlf(line@)->0) {
                    None => r == Err::<Feed, ParseError>(ParseError::BadRequestLine),
                    Some((m, p, v)) => {
                        &&& r == Ok::<Feed, ParseError>(Feed::Continue)
                        &&& !final(self).first_line
                        &&& final(self).request.method@ == m
                        &&& final(self).request.path@ == p
                        &&& final(self).request.version@ == v
                        &&& final(self).request.headers_view() == old(self).request.headers_view()
                    },
                },
            !ends_head(line@) && valid_utf8(line@) && !old(self).first_line && strip_crlf(line@) is Some
                ==> {
                    &&& r == Ok::<Feed, ParseError>(Feed::Continue)
                    &&& !final(self).first_line
                    &&& final(self).request.method@ == old(self).request.method@
                    &&& final(self).request.path@ == old(self).request.path@
                    &&& final(self).request.version@ == old(self).request.version@
                    &&& match header_parts(strip_crlf(line@)->0) {
                        None => final(self).request.headers_view() == old(self).request.headers_view(),
                        Some(nv) => final(self).request.headers_view() == old(self).request.headers_view().push(nv),
                    }
                },
    {
        let n = line.len();
        if n == 0 {
            return Ok(Feed::HeadEnd);
        }
        if !is_utf8(line) {
            return Err(ParseError::InvalidUtf8Line);
        }
        if n == 2 && line[0] == CR && line[1] == LF {
            assert(line@ == crlf());
            return Ok(Feed::HeadEnd);
        }
        assert(line@ != crlf());
        if !(n >= 2 && line[n - 2] == CR && line[n - 1] == LF) {
            return Err(ParseError::MissingLineEnd);
        }
        let content = copy_range(line, 0, n - 2);
        assert(content@ == line@.take(n - 2));
        let c = content.as_slice();
        if self.first_line {
            match parse_request_line(c) {
                None => {
                    return Err(ParseError::BadRequestLine);
                },
                Some((m, p, v)) => {
                    self.request.method = m;
                    self.request.path = p;
                    self.request.version = v;
                    self.first_line = false;
                    return Ok(Feed::Continue);
                },
            }
        }
        match parse_header_line(c) {
            None => Ok(Feed::Continue),
            Some(hd) => {
                let is_length = bytes_eq(hd.name.as_slice(), content_length_name_bytes().as_slice());
                let ghost before = self.request.headers_view();
                let ghost nv = (hd.name@, hd.value@);
                proof { lemma_first_header_push(before, nv, content_length_name()); }
                self.request.headers.push(hd);
                assert(self.request.headers_view() == before.push(nv));
                if is_length {
                    self.has_body = true;
                }
                Ok(Feed::Continue)
            },
        }
    }

    /// True exactly when a header named `Content-Length` was seen, that is,
    /// when a body follows the header block.
    pub fn wants_body(&self) -> (r: bool)
        requires
            self.wf(),
        ensures
            r == first_header(self.request.headers_view(), content_length_name()) is Some,
    {
        self.has_body
    }

    /// The request, with `body` as its body when one was announced; without
    /// a `Content-Length` header `body` is not looked at.
    pub fn finish(self, body: Vec<u8>) -> (r: Result<Request, ParseError>)
        requires
            self.wf(),
        ensures
            self.has_body && !valid_utf8(body@) ==> r == Err::<Request, ParseError>(ParseError::InvalidUtf8Body),
            !self.has_body || valid_utf8(body@) ==> (r matches Ok(q) && {
                &&& q.method@ == self.request.method@
                &&& q.path@ == self.request.path@
                &&& q.version@ == self.request.version@
                &&& q.headers_view() == self.request.headers_view()
                &&& q.body@ == if self.has_body { body@ } else { Seq::<u8>::empty() }
            }),
    {
        let mut request = self.request;
        if self.has_body {
            if !is_utf8(body.as_slice()) {
                return Err(ParseError::InvalidUtf8Body);
            }
            request.body = body;
        } else {
            request.body = Vec::new();
        }
        Ok(request)
    }
}

} // verus!
