use vstd::prelude::*;
use crate::bytes::{append_bytes, crlf, CR, LF};

verus! {

#[derive(PartialEq, Eq, Structural, Debug, Clone, Copy)]
pub enum Status {
    /// 200
    OK,
    /// 201
    Created,
    /// 404
    NotFound,
    /// 500
    InternalServerError,
}

/// A response. The serializer writes a `Content-Type` and a
/// `Content-Length` header only when both a body and a content type are set.
pub struct Response {
    pub status: Status,
    pub body: Option<Vec<u8>>,
    pub content_type: Option<Vec<u8>>,
}

/// What a response holds, as plain values.
pub struct ResponseView {
    pub status: Status,
    pub body: Option<Seq<u8>>,
    pub content_type: Option<Seq<u8>>,
}

impl View for Response {
    type V = ResponseView;

    open spec fn view(&self) -> ResponseView {
        ResponseView { status: self.status, body: self.body_view(), content_type: self.content_type_view() }
    }
}

impl Response {
    pub open spec fn body_view(&self) -> Option<Seq<u8>> {
        match self.body {
            Some(b) => Some(b@),
            None => None,
        }
    }

    pub open spec fn content_type_view(&self) -> Option<Seq<u8>> {
        match self.content_type {
            Some(t) => Some(t@),
            None => None,
        }
    }
}

/// Code and reason phrase of each status, as written on the status line.
pub open spec fn status_text(s: Status) -> Seq<u8> {
    match s {
        // "200 OK"
        Status::OK => seq![50u8, 48, 48, 32, 79, 75],
        // "201 Created"
        Status::Created => seq![50u8, 48, 49, 32, 67, 114, 101, 97, 116, 101, 100],
        // "404 Not Found"
        Status::NotFound => seq![52u8, 48, 52, 32, 78, 111, 116, 32, 70, 111, 117, 110, 100],
        // "500 Internal Server Error"
        Status::InternalServerError => seq![
            53u8, 48, 48, 32, 73, 110, 116, 101, 114, 110, 97, 108, 32, 83, 101, 114, 118, 101, 114, 32, 69,
            114, 114, 111, 114,
        ],
    }
}

pub fn status_text_bytes(s: Status) -> (r: Vec<u8>)
    ensures
        r@ == status_text(s),
{
    match s {
        Status::OK => vec![50u8, 48, 48, 32, 79, 75],
        Status::Created => vec![50u8, 48, 49, 32, 67, 114, 101, 97, 116, 101, 100],
        Status::NotFound => vec![52u8, 48, 52, 32, 78, 111, 116, 32, 70, 111, 117, 110, 100],
        Status::InternalServerError => vec![
            53u8, 48, 48, 32, 73, 110, 116, 101, 114, 110, 97, 108, 32, 83, 101, 114, 118, 101, 114, 32, 69,
            114, 114, 111, 114,
        ],
    }
}

/// `"HTTP/1.1 "`
pub open spec fn status_line_prefix() -> Seq<u8> {
    seq![72u8, 84, 84, 80, 47, 49, 46, 49, 32]
}

/// `"Content-Type: "`
pub open spec fn content_type_prefix() -> Seq<u8> {
    seq![67u8, 111, 110, 116, 101, 110, 116, 45, 84, 121, 112, 101, 58, 32]
}

/// `"Content-Length: "`
pub open spec fn content_length_prefix() -> Seq<u8> {
    seq![67u8, 111, 110, 116, 101, 110, 116, 45, 76, 101, 110, 103, 116, 104, 58, 32]
}

/// The decimal digits of `n`, most significant first, without leading zeros.
pub open spec fn decimal(n: nat) -> Seq<u8>
    decreases n,
{
    if n < 10 {
        seq![(48 + n) as u8]
    } else {
        decimal(n / 10).push((48 + n % 10) as u8)
    }
}

/// The bytes written for `r`: the status line; when it has both a body and
/// a content type, the two headers, each ended by a bare `"\n"`; the blank
/// line `"\r\n"`; then the body, if any.
pub open spec fn response_bytes(r: Response) -> Seq<u8> {
    let head = status_line_prefix() + status_text(r.status) + crlf();
    let headers = match (r.body_view(), r.content_type_view()) {
        (Some(b), Some(t)) => content_type_prefix() + t + seq![LF] + content_length_prefix() + decimal(
            b.len(),
        ) + seq![LF],
        _ => Seq::<u8>::empty(),
    };
    let body = match r.body_view() {
        Some(b) => b,
        None => Seq::<u8>::empty(),
    };
    head + headers + crlf() + body
}

/// Appends the decimal digits of `n` to `out`.
pub fn push_decimal(out: &mut Vec<u8>, n: usize)
    ensures
        final(out)@ == old(out)@ + decimal(n as nat),
    decreases n,
{
    if n < 10 {
        out.push((48 + n) as u8);
    } else {
        push_decimal(out, n / 10);
        out.push((48 + n % 10) as u8);
    }
}

/// The bytes of a response, ready to be written to the connection.
pub fn serialize_response(r: &Response) -> (out: Vec<u8>)
    ensures
        out@ == response_bytes(*r),
{
    let mut out: Vec<u8> = vec![72u8, 84, 84, 80, 47, 49, 46, 49, 32];
    append_bytes(&mut out, status_text_bytes(r.status).as_slice());
    out.push(CR);
    out.push(LF);
    let ghost head = out@;
    assert(head == status_line_prefix() + status_text(r.status) + crlf());
    match (&r.body, &r.content_type) {
        (Some(body), Some(content_type)) => {
            let v: Vec<u8> = vec![67u8, 111, 110, 116, 101, 110, 116, 45, 84, 121, 112, 101, 58, 32];
            append_bytes(&mut out, v.as_slice());
            append_bytes(&mut out, content_type.as_slice());
            out.push(LF);
            let v: Vec<u8> = vec![67u8, 111, 110, 116, 101, 110, 116, 45, 76, 101, 110, 103, 116, 104, 58, 32];
            append_bytes(&mut out, v.as_slice());
            push_decimal(&mut out, body.len());
            out.push(LF);
            assert(out@ == head + (content_type_prefix() + content_type@ + seq![LF] + content_length_prefix()
                + decimal(body@.len()) + seq![LF]));
        },
        _ => {
            assert(out@ == head + Seq::<u8>::empty());
        },
    }
    let ghost with_headers = out@;
    out.push(CR);
    out.push(LF);
    assert(out@ == with_headers + crlf());
    if let Some(body) = &r.body {
        append_bytes(&mut out, body.as_slice());
    } else {
        assert(out@ == out@ + Seq::<u8>::empty());
    }
    out
}

} // verus!
