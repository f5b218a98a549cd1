use vstd::prelude::*;
use crate::bytes::{
    bytes_eq, copy_range, find_byte, first_index, has_prefix, lemma_first_index_at, lemma_first_index_bounds,
    starts_with, SLASH,
};
use crate::request::{first_header, Request};
use crate::response::{Response, ResponseView, Status};

verus! {

/// `"GET"`
pub open spec fn get_method() -> Seq<u8> {
    seq![71u8, 69, 84]
}

/// `"POST"`
pub open spec fn post_method() -> Seq<u8> {
    seq![80u8, 79, 83, 84]
}

/// `"/"`
pub open spec fn root_path() -> Seq<u8> {
    seq![47u8]
}

/// `"/echo/"`
pub open spec fn echo_prefix() -> Seq<u8> {
    seq![47u8, 101, 99, 104, 111, 47]
}

/// `"/user-agent"`
pub open spec fn user_agent_path() -> Seq<u8> {
    seq![47u8, 117, 115, 101, 114, 45, 97, 103, 101, 110, 116]
}

/// `"/files/"`
pub open spec fn files_prefix() -> Seq<u8> {
    seq![47u8, 102, 105, 108, 101, 115, 47]
}

/// `"User-Agent"`
pub open spec fn user_agent_name() -> Seq<u8> {
    seq![85u8, 115, 101, 114, 45, 65, 103, 101, 110, 116]
}

/// `"text/plain"`
pub open spec fn text_plain() -> Seq<u8> {
    seq![116u8, 101, 120, 116, 47, 112, 108, 97, 105, 110]
}

/// `"application/octet-stream"`
pub open spec fn octet_stream() -> Seq<u8> {
    seq![97u8, 112, 112, 108, 105, 99, 97, 116, 105, 111, 110, 47, 111, 99, 116, 101, 116, 45, 115, 116, 114, 101, 97, 109]
}

fn text_plain_bytes() -> (r: Vec<u8>)
    ensures
        r@ == text_plain(),
{
    vec![116u8, 101, 120, 116, 47, 112, 108, 97, 105, 110]
}

fn octet_stream_bytes() -> (r: Vec<u8>)
    ensures
        r@ == octet_stream(),
{
    vec![97u8, 112, 112, 108, 105, 99, 97, 116, 105, 111, 110, 47, 111, 99, 116, 101, 116, 45, 115, 116, 114, 101, 97, 109]
}

/// The handler that a request goes to.
#[derive(PartialEq, Eq, Structural, Debug, Clone, Copy)]
pub enum Route {
    Root,
    Echo,
    UserAgent,
    GetFile,
    PostFile,
    Unmatched,
}

/// The first rule that matches, in order.
pub open spec fn route_of(method: Seq<u8>, path: Seq<u8>) -> Route {
    if method == get_method() && path == root_path() {
        Route::Root
    } else if method == get_method() && has_prefix(path, echo_prefix()) {
        Route::Echo
    } else if method == get_method() && path == user_agent_path() {
        Route::UserAgent
    } else if method == get_method() && has_prefix(path, files_prefix()) {
        Route::GetFile
    } else if method == post_method() && has_prefix(path, files_prefix()) {
        Route::PostFile
    } else {
        Route::Unmatched
    }
}

pub fn route(method: &[u8], path: &[u8]) -> (r: Route)
    ensures
        r == route_of(method@, path@),
{
    let get: Vec<u8> = vec![71u8, 69, 84];
    let post: Vec<u8> = vec![80u8, 79, 83, 84];
    let root: Vec<u8> = vec![47u8];
    let echo: Vec<u8> = vec![47u8, 101, 99, 104, 111, 47];
    let user_agent: Vec<u8> = vec![47u8, 117, 115, 101, 114, 45, 97, 103, 101, 110, 116];
    let files: Vec<u8> = vec![47u8, 102, 105, 108, 101, 115, 47];
    assert(get@ == get_method() && post@ == post_method() && root@ == root_path());
    assert(echo@ == echo_prefix() && user_agent@ == user_agent_path() && files@ == files_prefix());
    let is_get = bytes_eq(method, get.as_slice());
    if is_get && bytes_eq(path, root.as_slice()) {
        Route::Root
    } else if is_get && starts_with(path, echo.as_slice()) {
        Route::Echo
    } else if is_get && bytes_eq(path, user_agent.as_slice()) {
        Route::UserAgent
    } else if is_get && starts_with(path, files.as_slice()) {
        Route::GetFile
    } else if bytes_eq(method, post.as_slice()) && starts_with(path, files.as_slice()) {
        Route::PostFile
    } else {
        Route::Unmatched
    }
}

/// What follows the second `'/'` of `path`: the segments after the first
/// named one, joined by `'/'` as they stood. Empty when `path` holds fewer
/// than two `'/'`.
pub open spec fn path_remainder(path: Seq<u8>) -> Seq<u8> {
    let i = first_index(path, SLASH) as int;
    let rest = path.skip(i + 1);
    let j = first_index(rest, SLASH) as int;
    if i == path.len() || j == rest.len() {
        Seq::empty()
    } else {
        rest.skip(j + 1)
    }
}

/// The first segment of the path remainder: the name of a file route.
pub open spec fn file_name_of(path: Seq<u8>) -> Seq<u8> {
    let rem = path_remainder(path);
    rem.take(first_index(rem, SLASH) as int)
}

pub fn path_remainder_bytes(path: &[u8]) -> (r: Vec<u8>)
    ensures
        r@ == path_remainder(path@),
{
    let len = path.len();
    let i = find_byte(path, 0, SLASH);
    assert(path@.skip(0) == path@);
    proof { lemma_first_index_bounds(path@, SLASH); }
    if i == len {
        return Vec::new();
    }
    let j = find_byte(path, i + 1, SLASH);
    proof { lemma_first_index_bounds(path@.skip(i + 1), SLASH); }
    if j == len {
        return Vec::new();
    }
    assert(path@.skip(i + 1).skip(j - i) == path@.subrange(j + 1, len as int));
    copy_range(path, j + 1, len)
}

/// The file name that a `/files/` route names.
pub fn file_name(path: &[u8]) -> (r: Vec<u8>)
    ensures
        r@ == file_name_of(path@),
{
    let rem = path_remainder_bytes(path);
    let k = find_byte(rem.as_slice(), 0, SLASH);
    assert(rem@.skip(0) == rem@);
    proof { lemma_first_index_bounds(rem@, SLASH); }
    let r = copy_range(rem.as_slice(), 0, k);
    assert(r@ == rem@.take(k as int));
    r
}

/// Behind a prefix `"/x.../"` that holds no other `'/'`, the remainder is
/// all that follows the prefix.
pub proof fn lemma_remainder_after_prefix(path: Seq<u8>, prefix: Seq<u8>)
    requires
        has_prefix(path, prefix),
        prefix.len() >= 2,
        prefix[0] == SLASH,
        prefix[prefix.len() - 1] == SLASH,
        forall|k: int| 0 < k < prefix.len() - 1 ==> prefix[k] != SLASH,
    ensures
        path_remainder(path) == path.skip(prefix.len() as int),
{
    assert(path[0] == prefix[0]);
    lemma_first_index_at(path, SLASH, 0);
    let rest = path.skip(1);
    let n = prefix.len() - 2;
    assert(rest[n] == prefix[prefix.len() - 1]);
    assert forall|k: int| 0 <= k < n implies rest[k] != SLASH by {
        assert(rest[k] == prefix[k + 1]);
    }
    lemma_first_index_at(rest, SLASH, n);
    assert(rest.skip(n + 1) == path.skip(prefix.len() as int));
}

/// Behind `/echo/` the remainder is the rest of the path, byte for byte.
pub proof fn lemma_echo_remainder(path: Seq<u8>)
    requires
        has_prefix(path, echo_prefix()),
    ensures
        path_remainder(path) == path.skip(6),
{
    lemma_remainder_after_prefix(path, echo_prefix());
}

/// What a response holds when it has neither body nor content type.
pub open spec fn bare(s: Status) -> ResponseView {
    ResponseView { status: s, body: None, content_type: None }
}

/// A 200 response with a `text/plain` body.
pub open spec fn plain_text(body: Seq<u8>) -> ResponseView {
    ResponseView { status: Status::OK, body: Some(body), content_type: Some(text_plain()) }
}

/// A 200 response carrying the bytes of a file.
pub open spec fn file_found(contents: Seq<u8>) -> ResponseView {
    ResponseView { status: Status::OK, body: Some(contents), content_type: Some(octet_stream()) }
}

/// The 201 response to a file written.
pub open spec fn file_created() -> ResponseView {
    ResponseView { status: Status::Created, body: None, content_type: Some(octet_stream()) }
}

/// The value of the first `User-Agent` header, or nothing.
pub open spec fn user_agent_of(req: Request) -> Seq<u8> {
    match first_header(req.headers_view(), user_agent_name()) {
        Some(v) => v,
        None => Seq::empty(),
    }
}

pub fn handle_get_root(_req: &Request) -> (r: Response)
    ensures
        r@ == bare(Status::OK),
{
    Response { status: Status::OK, body: None, content_type: None }
}

pub fn handle_get_echo(req: &Request) -> (r: Response)
    ensures
        r@ == plain_text(path_remainder(req.path@)),
{
    let param = path_remainder_bytes(req.path.as_slice());
    Response { status: Status::OK, body: Some(param), content_type: Some(text_plain_bytes()) }
}

pub fn handle_get_user_agent(req: &Request) -> (r: Response)
    ensures
        r@ == plain_text(user_agent_of(*req)),
{
    let name: Vec<u8> = vec![85u8, 115, 101, 114, 45, 65, 103, 101, 110, 116];
    let agent = match req.get_header(name.as_slice()) {
        Some(v) => v,
        None => Vec::new(),
    };
    Response { status: Status::OK, body: Some(agent), content_type: Some(text_plain_bytes()) }
}

/// How reading a file turned out.
pub enum FileRead {
    Contents(Vec<u8>),
    NotFound,
    /// Any other I/O error.
    Failed,
}

/// The response to a file read: its bytes, 404 when it does not exist, 500
/// on any other error.
pub fn handle_get_file_result(outcome: FileRead) -> (r: Response)
    ensures
        match outcome {
            FileRead::Contents(b) => r@ == file_found(b@),
            FileRead::NotFound => r@ == bare(Status::NotFound),
            FileRead::Failed => r@ == bare(Status::InternalServerError),
        },
{
    match outcome {
        FileRead::Contents(b) => Response {
            status: Status::OK,
            body: Some(b),
            content_type: Some(octet_stream_bytes()),
        },
        FileRead::NotFound => Response { status: Status::NotFound, body: None, content_type: None },
        FileRead::Failed => Response { status: Status::InternalServerError, body: None, content_type: None },
    }
}

/// The response to a file write: 201 when it was written, else 500.
pub fn handle_post_file_result(written: bool) -> (r: Response)
    ensures
        r@ == if written { file_created() } else { bare(Status::InternalServerError) },
{
    if written {
        Response { status: Status::Created, body: None, content_type: Some(octet_stream_bytes()) }
    } else {
        Response { status: Status::InternalServerError, body: None, content_type: None }
    }
}

} // verus!
