use vstd::prelude::*;
use crate::request::Request;
use crate::response::{Response, ResponseView, Status};
use crate::router::{
    bare, file_created, file_found, file_name, file_name_of, files_prefix, get_method, handle_get_echo,
    handle_get_root, handle_get_user_agent, path_remainder, plain_text, post_method, route, route_of,
    user_agent_of, Route,
};
use crate::bytes::has_prefix;

verus! {

/// What serving a request asks of the caller: send a response, or first
/// read or write a file under the configured directory.
pub enum Action {
    Respond(Response),
    /// Read the named file and answer with `handle_get_file_result`.
    ReadFile(Vec<u8>),
    /// Write the body to the named file and answer with
    /// `handle_post_file_result`.
    WriteFile(Vec<u8>, Vec<u8>),
}

pub enum ActionView {
    Respond(ResponseView),
    ReadFile(Seq<u8>),
    WriteFile(Seq<u8>, Seq<u8>),
}

impl View for Action {
    type V = ActionView;

    open spec fn view(&self) -> ActionView {
        match self {
            Action::Respond(r) => ActionView::Respond(r@),
            Action::ReadFile(n) => ActionView::ReadFile(n@),
            Action::WriteFile(n, b) => ActionView::WriteFile(n@, b@),
        }
    }
}

/// What a request asks for, given whether a base directory is configured.
/// A file route without one is answered with 500.
pub open spec fn action_of(req: Request, has_dir: bool) -> ActionView {
    match route_of(req.method@, req.path@) {
        Route::Root => ActionView::Respond(bare(Status::OK)),
        Route::Echo => ActionView::Respond(plain_text(path_remainder(req.path@))),
        Route::UserAgent => ActionView::Respond(plain_text(user_agent_of(req))),
        Route::GetFile => if has_dir {
            ActionView::ReadFile(file_name_of(req.path@))
        } else {
            ActionView::Respond(bare(Status::InternalServerError))
        },
        Route::PostFile => if has_dir {
            ActionView::WriteFile(file_name_of(req.path@), req.body@)
        } else {
            ActionView::Respond(bare(Status::InternalServerError))
        },
        Route::Unmatched => ActionView::Respond(bare(Status::NotFound)),
    }
}

/// Routes a request and runs its handler as far as it goes without the
/// file system.
pub fn handle_request(req: &Request, has_dir: bool) -> (r: Action)
    ensures
        r@ == action_of(*req, has_dir),
{
    match route(req.method.as_slice(), req.path.as_slice()) {
        Route::Root => Action::Respond(handle_get_root(req)),
        Route::Echo => Action::Respond(handle_get_echo(req)),
        Route::UserAgent => Action::Respond(handle_get_user_agent(req)),
        Route::GetFile => if has_dir {
            Action::ReadFile(file_name(req.path.as_slice()))
        } else {
            Action::Respond(Response { status: Status::InternalServerError, body: None, content_type: None })
        },
        Route::PostFile => if has_dir {
            Action::WriteFile(file_name(req.path.as_slice()), req.body.clone())
        } else {
            Action::Respond(Response { status: Status::InternalServerError, body: None, content_type: None })
        },
        Route::Unmatched => Action::Respond(Response { status: Status::NotFound, body: None, content_type: None }),
    }
}

/// Carries out an action against a file store that keeps what is written
/// to it, and gives the response with the store afterwards.
pub open spec fn perform(a: ActionView, store: Map<Seq<u8>, Seq<u8>>) -> (ResponseView, Map<Seq<u8>, Seq<u8>>) {
    match a {
        ActionView::Respond(r) => (r, store),
        ActionView::ReadFile(n) => if store.contains_key(n) {
            (file_found(store[n]), store)
        } else {
            (bare(Status::NotFound), store)
        },
        ActionView::WriteFile(n, b) => (file_created(), store.insert(n, b)),
    }
}

/// A file written by `POST /files/<name>` is read back by
/// `GET /files/<name>` byte for byte, with status 200 and content type
/// `application/octet-stream`, from a store that keeps what is written.
pub proof fn lemma_post_then_get(post: Request, get: Request, name: Seq<u8>, store: Map<Seq<u8>, Seq<u8>>)
    requires
        post.method@ == post_method(),
        get.method@ == get_method(),
        post.path@ == files_prefix() + name,
        get.path@ == post.path@,
    ensures
        action_of(post, true) == ActionView::WriteFile(file_name_of(post.path@), post.body@),
        perform(action_of(get, true), perform(action_of(post, true), store).1).0 == file_found(post.body@),
{
    let path = post.path@;
    assert(path.take(7) == files_prefix());
    assert(has_prefix(path, files_prefix()));
    assert(path[1] == path.take(7)[1]);
    assert(path[1] == 102u8);
    assert(path != seq![47u8]);
    assert(path.len() >= 7);
    assert(route_of(get.method@, path) == Route::GetFile);
    assert(route_of(post.method@, path) == Route::PostFile);
}

/// A method and path that no rule matches are answered with 404 and no body.
pub proof fn lemma_unmatched_not_found(req: Request, has_dir: bool)
    requires
        route_of(req.method@, req.path@) == Route::Unmatched,
    ensures
        action_of(req, has_dir) == ActionView::Respond(bare(Status::NotFound)),
{
}

} // verus!
