//! The plain values in which requests and responses reach and leave the
//! handlers.

use vstd::prelude::*;
use crate::auth::AuthError;
use crate::link::{Link, LinkView};
use crate::store::{records, DirectoryError, StoreCommand, StoreCommandView};

verus! {

/// The method of a request, as far as the handlers tell methods apart.
#[derive(Debug, Clone, Copy, PartialEq, Eq, Structural)]
pub enum Method {
    Get,
    Post,
    Delete,
    /// Any other method.
    Other,
}

/// The status of a response.
#[derive(Debug, Clone, Copy, PartialEq, Eq, Structural)]
pub enum Status {
    Success,
    Created,
    TemporaryRedirect,
    BadRequest,
    Unauthorized,
    NotFound,
    MethodNotAllowed,
}

/// The number that stands for a status on the wire.
pub open spec fn status_code(status: Status) -> u16 {
    match status {
        Status::Success => 200,
        Status::Created => 201,
        Status::TemporaryRedirect => 307,
        Status::BadRequest => 400,
        Status::Unauthorized => 401,
        Status::NotFound => 404,
        Status::MethodNotAllowed => 405,
    }
}

impl Status {
    /// The number that stands for this status on the wire.
    pub fn code(self) -> (n: u16)
        ensures
            n == status_code(self),
    {
        match self {
            Status::Success => 200,
            Status::Created => 201,
            Status::TemporaryRedirect => 307,
            Status::BadRequest => 400,
            Status::Unauthorized => 401,
            Status::NotFound => 404,
            Status::MethodNotAllowed => 405,
        }
    }
}

/// What a response carries.
#[derive(Debug, PartialEq, Eq)]
pub enum Body {
    /// Nothing.
    Empty,
    /// One record.
    Record(Link),
    /// A listing of records, in the order in which they are to appear.
    Listing(Vec<Link>),
}

/// A response, before it is put on the wire.
#[derive(Debug, PartialEq, Eq)]
pub struct Response {
    pub status: Status,
    /// The value of the `WWW-Authenticate` header, if the response has one.
    pub authenticate: Option<String>,
    /// The value of the `Location` header, if the response has one.
    pub location: Option<String>,
    pub body: Body,
}

/// What a handler wants done next.
#[derive(Debug, PartialEq, Eq)]
pub enum Action {
    /// Carry this command to the key-value service and come back with its
    /// reply.
    Ask(StoreCommand),
    /// Read the record that the body of the request holds and come back with
    /// it, or with nothing where the body holds no record.
    ReadBody,
    /// Send this response; the request is dealt with.
    Respond(Response),
    /// Send this response to a request that was not let through; the reason
    /// is for the log and no part of the response.
    Deny(AuthError, Response),
    /// Give up on the request: the failure goes to whoever serves it.
    Fail(DirectoryError),
}

/// The mathematical value of a [`Body`].
pub enum BodyView {
    Empty,
    Record(LinkView),
    Listing(Seq<LinkView>),
}

/// The mathematical value of a [`Response`].
pub struct ResponseView {
    pub status: Status,
    pub authenticate: Option<Seq<char>>,
    pub location: Option<Seq<char>>,
    pub body: BodyView,
}

/// The mathematical value of an [`Action`].
pub enum ActionView {
    Ask(StoreCommandView),
    ReadBody,
    Respond(ResponseView),
    Deny(AuthError, ResponseView),
    Fail(DirectoryError),
}

/// The text of an optional string.
pub open spec fn text_view(text: Option<String>) -> Option<Seq<char>> {
    match text {
        Some(t) => Some(t@),
        None => None,
    }
}

impl View for Body {
    type V = BodyView;

    open spec fn view(&self) -> BodyView {
        match self {
            Body::Empty => BodyView::Empty,
            Body::Record(link) => BodyView::Record(link@),
            Body::Listing(links) => BodyView::Listing(records(links@)),
        }
    }
}

impl View for Response {
    type V = ResponseView;

    open spec fn view(&self) -> ResponseView {
        ResponseView {
            status: self.status,
            authenticate: text_view(self.authenticate),
            location: text_view(self.location),
            body: self.body@,
        }
    }
}

impl View for Action {
    type V = ActionView;

    open spec fn view(&self) -> ActionView {
        match self {
            Action::Ask(command) => ActionView::Ask(command@),
            Action::ReadBody => ActionView::ReadBody,
            Action::Respond(response) => ActionView::Respond(response@),
            Action::Deny(reason, response) => ActionView::Deny(*reason, response@),
            Action::Fail(error) => ActionView::Fail(*error),
        }
    }
}

/// The challenge sent with every refusal.
pub open spec fn challenge() -> Seq<char> {
    "Basic realm=\"admin\", charset=\"UTF-8\""@
}

/// A response of nothing but a status.
pub open spec fn bare(status: Status) -> ResponseView {
    ResponseView { status, authenticate: None, location: None, body: BodyView::Empty }
}

/// A response that carries records.
pub open spec fn carrying(status: Status, body: BodyView) -> ResponseView {
    ResponseView { status, authenticate: None, location: None, body }
}

/// The refusal: 401 with the challenge, and nothing else.
pub open spec fn refusal() -> ResponseView {
    ResponseView {
        status: Status::Unauthorized,
        authenticate: Some(challenge()),
        location: None,
        body: BodyView::Empty,
    }
}

/// The redirection to a target.
pub open spec fn redirection(target: Seq<char>) -> ResponseView {
    ResponseView {
        status: Status::TemporaryRedirect,
        authenticate: None,
        location: Some(target),
        body: BodyView::Empty,
    }
}

impl Response {
    /// A response of nothing but a status.
    pub fn bare(status: Status) -> (r: Response)
        ensures
            r@ == bare(status),
    {
        Response { status, authenticate: None, location: None, body: Body::Empty }
    }

    /// A response that carries one record or a listing.
    pub fn carrying(status: Status, body: Body) -> (r: Response)
        ensures
            r@ == carrying(status, body@),
    {
        Response { status, authenticate: None, location: None, body }
    }

    /// The refusal: 401 with the challenge for Basic credentials.
    pub fn refusal() -> (r: Response)
        ensures
            r@ == refusal(),
    {
        Response {
            status: Status::Unauthorized,
            authenticate: Some(String::from_str("Basic realm=\"admin\", charset=\"UTF-8\"")),
            location: None,
            body: Body::Empty,
        }
    }

    /// The temporary redirection to a target.
    pub fn redirection(target: String) -> (r: Response)
        ensures
            r@ == redirection(target@),
    {
        Response {
            status: Status::TemporaryRedirect,
            authenticate: None,
            location: Some(target),
            body: Body::Empty,
        }
    }
}

} // verus!
