//! The resolver: turning a short code into a redirection to its target.
//!
//! It serves anyone, and it only ever reads from the key-value service.

use vstd::prelude::*;
use crate::directory::{get, get_outcome};
use crate::link::Link;
use crate::store::{
    answers, Contents, DirectoryError, StoreCommand, StoreCommandView, StoreReply, StoreReplyView,
};
use crate::text::same_text;
use crate::transport::{
    bare, redirection, text_view, Action, ActionView, Method, Response, Status,
};

verus! {

/// A request to the resolver.
#[derive(Debug, PartialEq, Eq)]
pub struct RedirectRequest {
    pub method: Method,
    /// The query of the request target, if it has one: a short code.
    pub query: Option<String>,
    /// The path of the request target.
    pub path: String,
}

/// Where the handling of a request stands.
#[derive(Debug, Clone, Copy, PartialEq, Eq, Structural)]
pub enum RedirectState {
    /// Nothing has happened yet.
    Start,
    /// The record of a short code has been asked for.
    Resolving,
    /// The request is dealt with.
    Done,
}

/// What happened.
#[derive(Debug, PartialEq, Eq)]
pub enum RedirectEvent {
    /// A request came in.
    Request(RedirectRequest),
    /// The key-value service replied to the last command.
    Reply(StoreReply),
}

/// The mathematical value of a [`RedirectRequest`].
pub struct RedirectRequestView {
    pub method: Method,
    pub query: Option<Seq<char>>,
    pub path: Seq<char>,
}

/// The mathematical value of a [`RedirectEvent`].
pub enum RedirectEventView {
    Request(RedirectRequestView),
    Reply(StoreReplyView),
}

impl View for RedirectRequest {
    type V = RedirectRequestView;

    open spec fn view(&self) -> RedirectRequestView {
        RedirectRequestView {
            method: self.method,
            query: text_view(self.query),
            path: self.path@,
        }
    }
}

impl View for RedirectEvent {
    type V = RedirectEventView;

    open spec fn view(&self) -> RedirectEventView {
        match self {
            RedirectEvent::Request(request) => RedirectEventView::Request(request@),
            RedirectEvent::Reply(reply) => RedirectEventView::Reply(reply@),
        }
    }
}

/// The path under which browsers look for an icon.
pub open spec fn favicon_path() -> Seq<char> {
    "/favicon.ico"@
}

/// The path of the management pages, to which a request without a short
/// code is sent.
pub open spec fn admin_path() -> Seq<char> {
    "/admin/"@
}

/// The state and the action with which the resolver meets an event.
pub open spec fn redirect_step(state: RedirectState, event: RedirectEventView) -> (
    RedirectState,
    ActionView,
) {
    match (state, event) {
        (RedirectState::Start, RedirectEventView::Request(request)) => match request.method {
            Method::Get => match request.query {
                Some(code) => (
                    RedirectState::Resolving,
                    ActionView::Ask(StoreCommandView::ReadRecord(code)),
                ),
                None => if request.path == favicon_path() {
                    (RedirectState::Done, ActionView::Respond(bare(Status::NotFound)))
                } else {
                    (RedirectState::Done, ActionView::Respond(redirection(admin_path())))
                },
            },
            _ => (RedirectState::Done, ActionView::Respond(bare(Status::MethodNotAllowed))),
        },
        (RedirectState::Resolving, RedirectEventView::Reply(reply)) => match get_outcome(reply) {
            Ok(link) => (RedirectState::Done, ActionView::Respond(redirection(link.url))),
            Err(DirectoryError::NotFound) => (
                RedirectState::Done,
                ActionView::Respond(bare(Status::NotFound)),
            ),
            Err(e) => (RedirectState::Done, ActionView::Fail(e)),
        },
        _ => (RedirectState::Done, ActionView::Fail(DirectoryError::StoreUnavailable)),
    }
}

/// Handles one event of the resolver: takes the state the handling is in and
/// what happened, and gives the state it is in now and what is to be done
/// next. Whatever it asks of the key-value service is the reading of a
/// record; it refuses nobody and reads no body.
pub fn handle_redirect(state: RedirectState, event: RedirectEvent) -> (r: (RedirectState, Action))
    ensures
        (r.0, r.1@) == redirect_step(state, event@),
        r.1@ matches ActionView::Ask(command) ==> command is ReadRecord,
        !(r.1@ is Deny),
        !(r.1@ is ReadBody),
{
    match (state, event) {
        (RedirectState::Start, RedirectEvent::Request(request)) => match request.method {
            Method::Get => match request.query {
                Some(code) => (RedirectState::Resolving, Action::Ask(StoreCommand::ReadRecord(code))),
                None => if same_text(request.path.as_str(), "/favicon.ico") {
                    (RedirectState::Done, Action::Respond(Response::bare(Status::NotFound)))
                } else {
                    (
                        RedirectState::Done,
                        Action::Respond(Response::redirection(String::from_str("/admin/"))),
                    )
                },
            },
            _ => (RedirectState::Done, Action::Respond(Response::bare(Status::MethodNotAllowed))),
        },
        (RedirectState::Resolving, RedirectEvent::Reply(reply)) => match get(reply) {
            Ok(link) => (RedirectState::Done, Action::Respond(Response::redirection(link.url))),
            Err(DirectoryError::NotFound) => (
                RedirectState::Done,
                Action::Respond(Response::bare(Status::NotFound)),
            ),
            Err(e) => (RedirectState::Done, Action::Fail(e)),
        },
        _ => (RedirectState::Done, Action::Fail(DirectoryError::StoreUnavailable)),
    }
}

/// A short code under which the service holds nothing resolves to 404, with
/// no location.
pub proof fn lemma_unknown_code_resolves_to_not_found(
    contents: Contents,
    code: Seq<char>,
    reply: StoreReplyView,
)
    requires
        !contents.contains_key(code),
        answers(contents, StoreCommandView::ReadRecord(code), reply),
    ensures
        redirect_step(RedirectState::Resolving, RedirectEventView::Reply(reply)) == (
            RedirectState::Done,
            ActionView::Respond(bare(Status::NotFound)),
        ),
        bare(Status::NotFound).location is None,
{
}

} // verus!
