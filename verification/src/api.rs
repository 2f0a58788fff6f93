//! The management interface: creating, reading, listing and removing links,
//! for requests that carry the admin credential.
//!
//! The handler is a state machine. It is started with the request, hands out
//! one command for the key-value service at a time, and is resumed with each
//! reply until it hands out a response.

use vstd::prelude::*;
use vstd::utf8::*;
use crate::auth::{
    authorization, authorization_name, authorize, first_field, get_credentials, header_fields,
    is_fresh_credential, AuthError, CredentialStep,
};
use crate::directory::{
    create, credentials_key, delete, delete_outcome, get, get_outcome, is_listing_of,
    is_reserved, is_stored_form, lemma_listed_keys, lemma_listed_without_repetition, link_keys,
    list, listed,
};
use crate::link::{Link, LinkView};
use crate::store::{
    answers, leaves, records, texts, Contents, DirectoryError, StoreCommand, StoreCommandView,
    StoreReply, StoreReplyView,
};
use crate::transport::{
    bare, carrying, refusal, text_view, Action, ActionView, Body, BodyView, Method, Response,
    Status,
};

verus! {

/// A request to the management interface.
#[derive(Debug, PartialEq, Eq)]
pub struct ApiRequest {
    pub method: Method,
    /// The query of the request target, if it has one: a short code.
    pub query: Option<String>,
    pub headers: http::HeaderMap<http::HeaderValue>,
}

/// Where the handling of a request stands.
#[derive(Debug, PartialEq, Eq)]
pub enum ApiState {
    /// Nothing has happened yet.
    Start,
    /// The credential has been asked for.
    Credential(ApiRequest),
    /// A generated credential is being stored.
    Bootstrap(ApiRequest, String),
    /// The body of the request is being read.
    Reading,
    /// A record is being stored.
    Creating(Link),
    /// One record has been asked for.
    Fetching,
    /// The keys have been asked for.
    Listing,
    /// The records of a listing are being read, one after the other: `found`
    /// holds those read so far, `pending` the keys still to be asked for once
    /// the reply to the current one is in. A key that holds no record, or
    /// that is gone by the time it is read, adds nothing to `found` and does
    /// not end the listing.
    Collecting { pending: Vec<String>, found: Vec<Link> },
    /// A key is being removed.
    Removing,
    /// The request is dealt with.
    Done,
}

/// What happened.
#[derive(Debug, PartialEq, Eq)]
pub enum ApiEvent {
    /// A request came in.
    Request(ApiRequest),
    /// The body of the request was read: it holds this record, or none.
    Body(Option<Link>),
    /// The key-value service replied to the last command.
    Reply(StoreReply),
}

/// The mathematical value of an [`ApiRequest`].
pub struct ApiRequestView {
    pub method: Method,
    pub query: Option<Seq<char>>,
    pub headers: http::HeaderMap<http::HeaderValue>,
}

/// The mathematical value of an [`ApiState`].
pub enum ApiStateView {
    Start,
    Credential(ApiRequestView),
    Bootstrap(ApiRequestView, Seq<char>),
    Reading,
    Creating(LinkView),
    Fetching,
    Listing,
    Collecting { pending: Seq<Seq<char>>, found: Seq<LinkView> },
    Removing,
    Done,
}

/// The mathematical value of an [`ApiEvent`].
pub enum ApiEventView {
    Request(ApiRequestView),
    Body(Option<LinkView>),
    Reply(StoreReplyView),
}

impl View for ApiRequest {
    type V = ApiRequestView;

    open spec fn view(&self) -> ApiRequestView {
        ApiRequestView {
            method: self.method,
            query: text_view(self.query),
            headers: self.headers,
        }
    }
}

impl View for ApiState {
    type V = ApiStateView;

    open spec fn view(&self) -> ApiStateView {
        match self {
            ApiState::Start => ApiStateView::Start,
            ApiState::Credential(request) => ApiStateView::Credential(request@),
            ApiState::Bootstrap(request, credential) => ApiStateView::Bootstrap(
                request@,
                credential@,
            ),
            ApiState::Reading => ApiStateView::Reading,
            ApiState::Creating(link) => ApiStateView::Creating(link@),
            ApiState::Fetching => ApiStateView::Fetching,
            ApiState::Listing => ApiStateView::Listing,
            ApiState::Collecting { pending, found } => ApiStateView::Collecting {
                pending: texts(pending@),
                found: records(found@),
            },
            ApiState::Removing => ApiStateView::Removing,
            ApiState::Done => ApiStateView::Done,
        }
    }
}

impl View for ApiEvent {
    type V = ApiEventView;

    open spec fn view(&self) -> ApiEventView {
        match self {
            ApiEvent::Request(request) => ApiEventView::Request(request@),
            ApiEvent::Body(input) => ApiEventView::Body(
                match input {
                    Some(link) => Some(link@),
                    None => None,
                },
            ),
            ApiEvent::Reply(reply) => ApiEventView::Reply(reply@),
        }
    }
}

/// The handling ends by giving up on the service.
pub open spec fn gives_up(next: ApiStateView, action: ActionView) -> bool {
    next == ApiStateView::Done && action == ActionView::Fail(DirectoryError::StoreUnavailable)
}

/// The handling ends with a response.
pub open spec fn responds(next: ApiStateView, action: ActionView, response: crate::transport::ResponseView) -> bool {
    next == ApiStateView::Done && action == ActionView::Respond(response)
}

/// What an admitted request leads to, by its method and query. The body of
/// a request is asked for here and no earlier: only that of a request that
/// was let through is ever read.
pub open spec fn routed(request: ApiRequestView, next: ApiStateView, action: ActionView) -> bool {
    match request.method {
        Method::Post => next == ApiStateView::Reading && action == ActionView::ReadBody,
        Method::Get => match request.query {
            Some(code) => next == ApiStateView::Fetching && action == ActionView::Ask(
                StoreCommandView::ReadRecord(code),
            ),
            None => next == ApiStateView::Listing && action == ActionView::Ask(
                StoreCommandView::ListKeys,
            ),
        },
        Method::Delete => match request.query {
            Some(code) => next == ApiStateView::Removing && action == ActionView::Ask(
                StoreCommandView::Delete(code),
            ),
            None => responds(next, action, bare(Status::NotFound)),
        },
        Method::Other => responds(next, action, bare(Status::MethodNotAllowed)),
    }
}

/// What a request leads to once the credential in force is known: the
/// refusal unless the request carries that credential, else what its method
/// and query call for.
pub open spec fn gated(
    request: ApiRequestView,
    credential: Seq<char>,
    next: ApiStateView,
    action: ActionView,
) -> bool {
    match authorization(
        first_field(header_fields(request.headers), authorization_name()),
        credential,
    ) {
        Err(reason) => next == ApiStateView::Done && action == ActionView::Deny(reason, refusal()),
        Ok(_) => routed(request, next, action),
    }
}

/// How a listing goes on: with the next key while one is pending, and with
/// the response once none is. The response holds the listing of the records
/// found; keys that held no record have left no trace in it.
pub open spec fn collected(
    pending: Seq<Seq<char>>,
    found: Seq<LinkView>,
    next: ApiStateView,
    action: ActionView,
) -> bool {
    if pending.len() > 0 {
        &&& next == ApiStateView::Collecting { pending: pending.drop_first(), found }
        &&& action == ActionView::Ask(StoreCommandView::ReadRecord(pending[0]))
    } else {
        &&& next == ApiStateView::Done
        &&& action matches ActionView::Respond(response)
        &&& response.status == Status::Success
        &&& response.authenticate is None
        &&& response.location is None
        &&& response.body matches BodyView::Listing(listing)
        &&& is_listing_of(found, listing)
    }
}

/// The transitions of the management interface: whether, in `state`, the
/// event may be met by going to `next` and handing out `action`.
///
/// Everything is fixed by the state and the event but the short codes that
/// are generated: those of a new credential, and that of a record created
/// without one.
pub open spec fn api_transition(
    state: ApiStateView,
    event: ApiEventView,
    next: ApiStateView,
    action: ActionView,
) -> bool {
    match (state, event) {
        (ApiStateView::Start, ApiEventView::Request(request)) => {
            &&& next == ApiStateView::Credential(request)
            &&& action == ActionView::Ask(StoreCommandView::ReadText(credentials_key()))
        },
        (ApiStateView::Credential(request), ApiEventView::Reply(reply)) => match reply {
            StoreReplyView::Text(bytes) => if valid_utf8(bytes) {
                gated(request, decode_utf8(bytes), next, action)
            } else {
                next == ApiStateView::Done && action == ActionView::Fail(
                    DirectoryError::SerializationError,
                )
            },
            StoreReplyView::NoSuchKey => {
                &&& next matches ApiStateView::Bootstrap(kept, credential)
                &&& kept == request
                &&& is_fresh_credential(credential)
                &&& action == ActionView::Ask(
                    StoreCommandView::WriteText(credentials_key(), credential),
                )
            },
            _ => gives_up(next, action),
        },
        (ApiStateView::Bootstrap(request, credential), ApiEventView::Reply(reply)) => match reply {
            StoreReplyView::Done => gated(request, credential, next, action),
            _ => gives_up(next, action),
        },
        (ApiStateView::Reading, ApiEventView::Body(input)) => match input {
            None => responds(next, action, bare(Status::BadRequest)),
            Some(link) => {
                &&& next matches ApiStateView::Creating(stored)
                &&& is_stored_form(link, stored)
                &&& action == ActionView::Ask(StoreCommandView::WriteRecord(stored))
            },
        },
        (ApiStateView::Creating(link), ApiEventView::Reply(reply)) => match reply {
            StoreReplyView::Done => responds(
                next,
                action,
                carrying(Status::Created, BodyView::Record(link)),
            ),
            _ => gives_up(next, action),
        },
        (ApiStateView::Fetching, ApiEventView::Reply(reply)) => match get_outcome(reply) {
            Ok(link) => responds(next, action, carrying(Status::Success, BodyView::Record(link))),
            Err(DirectoryError::NotFound) => responds(next, action, bare(Status::NotFound)),
            Err(e) => next == ApiStateView::Done && action == ActionView::Fail(e),
        },
        (ApiStateView::Listing, ApiEventView::Reply(reply)) => match reply {
            StoreReplyView::Keys(keys) => collected(
                listed(keys),
                Seq::<LinkView>::empty(),
                next,
                action,
            ),
            _ => gives_up(next, action),
        },
        (ApiStateView::Collecting { pending, found }, ApiEventView::Reply(reply)) => match reply {
            StoreReplyView::Record(link) => collected(pending, found.push(link), next, action),
            // What is no record, or is gone, is passed over.
            StoreReplyView::Undecodable => collected(pending, found, next, action),
            StoreReplyView::NoSuchKey => collected(pending, found, next, action),
            _ => gives_up(next, action),
        },
        (ApiStateView::Removing, ApiEventView::Reply(reply)) => match delete_outcome(reply) {
            Ok(_) => responds(next, action, bare(Status::Success)),
            Err(DirectoryError::NotFound) => responds(next, action, bare(Status::NotFound)),
            Err(e) => next == ApiStateView::Done && action == ActionView::Fail(e),
        },
        _ => gives_up(next, action),
    }
}

/// Ends the handling by giving up on the service.
fn give_up() -> (r: (ApiState, Action))
    ensures
        gives_up(r.0@, r.1@),
{
    (ApiState::Done, Action::Fail(DirectoryError::StoreUnavailable))
}

/// Ends the handling with a response.
fn respond(response: Response) -> (r: (ApiState, Action))
    ensures
        responds(r.0@, r.1@, response@),
{
    (ApiState::Done, Action::Respond(response))
}

/// Starts what an admitted request asks for.
fn route(request: ApiRequest) -> (r: (ApiState, Action))
    ensures
        routed(request@, r.0@, r.1@),
{
    match request.method {
        Method::Post => (ApiState::Reading, Action::ReadBody),
        Method::Get => match request.query {
            Some(code) => (ApiState::Fetching, Action::Ask(StoreCommand::ReadRecord(code))),
            None => (ApiState::Listing, Action::Ask(StoreCommand::ListKeys)),
        },
        Method::Delete => match request.query {
            Some(code) => (ApiState::Removing, Action::Ask(StoreCommand::Delete(code))),
            None => respond(Response::bare(Status::NotFound)),
        },
        Method::Other => respond(Response::bare(Status::MethodNotAllowed)),
    }
}

/// Holds a request against the credential in force.
fn gate(request: ApiRequest, credential: String) -> (r: (ApiState, Action))
    ensures
        gated(request@, credential@, r.0@, r.1@),
{
    match authorize(&request.headers, credential) {
        Err(reason) => (ApiState::Done, Action::Deny(reason, Response::refusal())),
        Ok(_) => route(request),
    }
}

/// Goes on with a listing.
fn collect(pending: Vec<String>, found: Vec<Link>) -> (r: (ApiState, Action))
    ensures
        collected(texts(pending@), records(found@), r.0@, r.1@),
{
    let mut pending = pending;
    if pending.len() > 0 {
        let ghost before = texts(pending@);
        let key = pending.remove(0);
        assert(texts(pending@) =~= before.drop_first());
        (ApiState::Collecting { pending, found }, Action::Ask(StoreCommand::ReadRecord(key)))
    } else {
        let listing = list(found);
        respond(Response::carrying(Status::Success, Body::Listing(listing)))
    }
}

/// Handles one event of the management interface: takes the state the
/// handling is in and what happened, and gives the state it is in now and
/// what is to be done next.
pub fn handle_redirect(state: ApiState, event: ApiEvent) -> (r: (ApiState, Action))
    ensures
        api_transition(state@, event@, r.0@, r.1@),
{
    match (state, event) {
        (ApiState::Start, ApiEvent::Request(request)) => {
            let key = String::from_str("credentials");
            (ApiState::Credential(request), Action::Ask(StoreCommand::ReadText(key)))
        },
        (ApiState::Credential(request), ApiEvent::Reply(reply)) => match get_credentials(reply) {
            CredentialStep::Ready(credential) => gate(request, credential),
            CredentialStep::Generated(credential) => {
                let key = String::from_str("credentials");
                let copy = credential.clone();
                (
                    ApiState::Bootstrap(request, credential),
                    Action::Ask(StoreCommand::WriteText(key, copy)),
                )
            },
            CredentialStep::Failed(e) => (ApiState::Done, Action::Fail(e)),
        },
        (ApiState::Bootstrap(request, credential), ApiEvent::Reply(reply)) => match reply {
            StoreReply::Done => gate(request, credential),
            _ => give_up(),
        },
        (ApiState::Reading, ApiEvent::Body(input)) => match create(input) {
            Ok(stored) => {
                let copy = stored.clone();
                (ApiState::Creating(stored), Action::Ask(StoreCommand::WriteRecord(copy)))
            },
            Err(_) => respond(Response::bare(Status::BadRequest)),
        },
        (ApiState::Creating(link), ApiEvent::Reply(reply)) => match reply {
            StoreReply::Done => respond(Response::carrying(Status::Created, Body::Record(link))),
            _ => give_up(),
        },
        (ApiState::Fetching, ApiEvent::Reply(reply)) => match get(reply) {
            Ok(link) => respond(Response::carrying(Status::Success, Body::Record(link))),
            Err(DirectoryError::NotFound) => respond(Response::bare(Status::NotFound)),
            Err(e) => (ApiState::Done, Action::Fail(e)),
        },
        (ApiState::Listing, ApiEvent::Reply(reply)) => match reply {
            StoreReply::Keys(keys) => {
                let kept = link_keys(&keys);
                let found: Vec<Link> = Vec::new();
                assert(records(found@) =~= Seq::<LinkView>::empty());
                collect(kept, found)
            },
            _ => give_up(),
        },
        (ApiState::Collecting { pending, found }, ApiEvent::Reply(reply)) => match reply {
            StoreReply::Record(link) => {
                let mut found = found;
                let ghost before = records(found@);
                let ghost entry = link@;
                found.push(link);
                assert(records(found@) =~= before.push(entry));
                collect(pending, found)
            },
            StoreReply::Undecodable => collect(pending, found),
            StoreReply::NoSuchKey => collect(pending, found),
            _ => give_up(),
        },
        (ApiState::Removing, ApiEvent::Reply(reply)) => match delete(reply) {
            Ok(_) => respond(Response::bare(Status::Success)),
            Err(DirectoryError::NotFound) => respond(Response::bare(Status::NotFound)),
            Err(e) => (ApiState::Done, Action::Fail(e)),
        },
        _ => give_up(),
    }
}

/// The keys that a state still has to ask for hold no reserved key.
pub open spec fn pending_unreserved(state: ApiStateView) -> bool {
    state matches ApiStateView::Collecting { pending, found } ==> forall|i: int|
        0 <= i < pending.len() ==> !is_reserved(#[trigger] pending[i])
}

/// A listing never reads a reserved key: from the reply with the keys on,
/// every record it asks for is under a key that is not reserved, and the
/// keys it still has to ask for stay free of reserved ones.
pub proof fn lemma_listing_skips_reserved(
    state: ApiStateView,
    event: ApiEventView,
    next: ApiStateView,
    action: ActionView,
)
    requires
        state is Listing || state is Collecting,
        pending_unreserved(state),
        api_transition(state, event, next, action),
    ensures
        pending_unreserved(next),
        action matches ActionView::Ask(command) ==> command matches StoreCommandView::ReadRecord(
            key,
        ) && !is_reserved(key),
{
    match (state, event) {
        (ApiStateView::Listing, ApiEventView::Reply(StoreReplyView::Keys(keys))) => {
            let wanted = |key: Seq<char>| !is_reserved(key);
            let kept = listed(keys);
            assert forall|i: int| 0 <= i < kept.len() implies !is_reserved(#[trigger] kept[i]) by {
                keys.lemma_filter_pred(wanted, i);
            }
            if kept.len() > 0 {
                assert forall|i: int| 0 <= i < kept.drop_first().len() implies !is_reserved(
                    #[trigger] kept.drop_first()[i],
                ) by {
                    assert(kept.drop_first()[i] == kept[i + 1]);
                }
            }
        },
        (ApiStateView::Collecting { pending, found }, ApiEventView::Reply(reply)) => {
            if pending.len() > 0 {
                assert forall|i: int| 0 <= i < pending.drop_first().len() implies !is_reserved(
                    #[trigger] pending.drop_first()[i],
                ) by {
                    assert(pending.drop_first()[i] == pending[i + 1]);
                }
            }
        },
        _ => {},
    }
}

/// Nothing is served to a request that does not carry the credential in
/// force: once that credential is known, whether it was read from the store
/// or generated and stored just now, such a request is met with the refusal
/// and its handling is over.
pub proof fn lemma_refused_without_credential(
    state: ApiStateView,
    event: ApiEventView,
    next: ApiStateView,
    action: ActionView,
    request: ApiRequestView,
    credential: Seq<char>,
)
    requires
        (state == ApiStateView::Credential(request) && event == ApiEventView::Reply(
            StoreReplyView::Text(encode_utf8(credential)),
        )) || (state == ApiStateView::Bootstrap(request, credential) && event
            == ApiEventView::Reply(StoreReplyView::Done)),
        api_transition(state, event, next, action),
        authorization(
            first_field(header_fields(request.headers), authorization_name()),
            credential,
        ) is Err,
    ensures
        next == ApiStateView::Done,
        authorization(
            first_field(header_fields(request.headers), authorization_name()),
            credential,
        ) matches Err(reason) ==> action == ActionView::Deny(reason, refusal()),
{
    encode_utf8_valid_utf8(credential);
    encode_utf8_decode_utf8(credential);
}

/// A request for a short code under which the service holds nothing is
/// answered with 404; so is one for a short code that has just been removed.
pub proof fn lemma_fetch_of_absent_code(
    contents: Contents,
    code: Seq<char>,
    reply: StoreReplyView,
    next: ApiStateView,
    action: ActionView,
)
    requires
        !contents.contains_key(code) || exists|before: Contents|
            leaves(before, StoreCommandView::Delete(code), contents),
        answers(contents, StoreCommandView::ReadRecord(code), reply),
        api_transition(ApiStateView::Fetching, ApiEventView::Reply(reply), next, action),
    ensures
        next == ApiStateView::Done,
        action == ActionView::Respond(bare(Status::NotFound)),
{
}

/// What is found once one more reply to a read is in: a record is added,
/// and a reply that is no record adds nothing.
pub open spec fn taken(found: Seq<LinkView>, reply: StoreReplyView) -> Seq<LinkView> {
    match reply {
        StoreReplyView::Record(link) => found.push(link),
        _ => found,
    }
}

/// The records among the replies to a row of reads, in the order of the
/// replies.
pub open spec fn gathered(replies: Seq<StoreReplyView>) -> Seq<LinkView>
    decreases replies.len(),
{
    if replies.len() == 0 {
        Seq::empty()
    } else {
        taken(gathered(replies.drop_last()), replies.last())
    }
}

/// A run of the handler on replies of the store: from each state the next
/// reply leads to the next state and hands out the next action.
pub open spec fn is_run(
    states: Seq<ApiStateView>,
    replies: Seq<StoreReplyView>,
    actions: Seq<ActionView>,
) -> bool {
    &&& states.len() == replies.len() + 1
    &&& actions.len() == replies.len()
    &&& forall|i: int|
        0 <= i < replies.len() ==> api_transition(
            states[i],
            ApiEventView::Reply(#[trigger] replies[i]),
            states[i + 1],
            actions[i],
        )
}

/// The replies of a run are those of a service that holds `contents` and
/// that nobody else writes to: the first answers `first`, each later one
/// the command that was asked just before it, and the run goes on until an
/// action asks nothing more of the service.
pub open spec fn is_served(
    contents: Contents,
    first: StoreCommandView,
    replies: Seq<StoreReplyView>,
    actions: Seq<ActionView>,
) -> bool {
    &&& replies.len() > 0
    &&& actions.len() == replies.len()
    &&& answers(contents, first, replies[0])
    &&& forall|i: int|
        1 <= i < replies.len() ==> (actions[i - 1] matches ActionView::Ask(command) && answers(
            contents,
            command,
            #[trigger] replies[i],
        ))
    &&& !(actions.last() is Ask)
}

/// The reply with the keys starts the reading of the listed keys.
proof fn lemma_listing_starts(keys: Seq<Seq<char>>, next: ApiStateView, action: ActionView)
    requires
        api_transition(
            ApiStateView::Listing,
            ApiEventView::Reply(StoreReplyView::Keys(keys)),
            next,
            action,
        ),
    ensures
        collected(listed(keys), Seq::<LinkView>::empty(), next, action),
{
}

/// The reply to the read of a key that is there takes the listing one step on.
proof fn lemma_listing_takes(
    contents: Contents,
    key: Seq<char>,
    pending: Seq<Seq<char>>,
    found: Seq<LinkView>,
    reply: StoreReplyView,
    next: ApiStateView,
    action: ActionView,
)
    requires
        contents.contains_key(key),
        answers(contents, StoreCommandView::ReadRecord(key), reply),
        api_transition(
            ApiStateView::Collecting { pending, found },
            ApiEventView::Reply(reply),
            next,
            action,
        ),
    ensures
        collected(pending, taken(found, reply), next, action),
{
}

/// Where a listing stands once the reply to its `n`-th read is in; the
/// reply with the keys counts as the reply to the read before the first.
proof fn lemma_listing_goes_on(
    contents: Contents,
    keys: Seq<Seq<char>>,
    states: Seq<ApiStateView>,
    replies: Seq<StoreReplyView>,
    actions: Seq<ActionView>,
    n: int,
)
    requires
        states.len() > 0,
        states[0] == ApiStateView::Listing,
        is_run(states, replies, actions),
        is_served(contents, StoreCommandView::ListKeys, replies, actions),
        replies[0] == StoreReplyView::Keys(keys),
        0 <= n <= listed(keys).len(),
    ensures
        n < replies.len(),
        collected(
            listed(keys).skip(n),
            gathered(replies.subrange(1, n + 1)),
            states[n + 1],
            actions[n],
        ),
    decreases n,
{
    let wanted = listed(keys);
    if n == 0 {
        assert(api_transition(
            states[0],
            ApiEventView::Reply(replies[0]),
            states[1],
            actions[0],
        ));
        lemma_listing_starts(keys, states[1], actions[0]);
        assert(replies.subrange(1, 1) =~= Seq::<StoreReplyView>::empty());
        assert(wanted.skip(0) =~= wanted);
    } else {
        lemma_listing_goes_on(contents, keys, states, replies, actions, n - 1);
        let pending = wanted.skip(n - 1);
        let found = gathered(replies.subrange(1, n));
        assert(pending.len() > 0);
        assert(pending[0] == wanted[n - 1]);
        assert(actions[n - 1] is Ask);
        if replies.len() == n {
            assert(actions.last() == actions[n - 1]);
        }
        assert(api_transition(
            states[n],
            ApiEventView::Reply(replies[n]),
            states[n + 1],
            actions[n],
        ));
        assert(answers(contents, StoreCommandView::ReadRecord(wanted[n - 1]), replies[n]));
        lemma_listed_keys(contents, keys);
        assert(wanted.contains(wanted[n - 1]));
        lemma_listing_takes(
            contents,
            wanted[n - 1],
            pending.drop_first(),
            found,
            replies[n],
            states[n + 1],
            actions[n],
        );
        assert(pending.drop_first() =~= wanted.skip(n));
        let now = replies.subrange(1, n + 1);
        assert(now.drop_last() =~= replies.subrange(1, n));
        assert(now.last() == replies[n]);
    }
}

/// A whole listing, served by a store that holds `contents`: the handler
/// reads exactly the keys that the store holds and that are not reserved,
/// each once, in the order in which the store gave them, and then responds
/// with the listing of the records that these reads yielded.
pub proof fn lemma_whole_listing(
    contents: Contents,
    states: Seq<ApiStateView>,
    replies: Seq<StoreReplyView>,
    actions: Seq<ActionView>,
)
    requires
        states.len() > 0,
        states[0] == ApiStateView::Listing,
        is_run(states, replies, actions),
        is_served(contents, StoreCommandView::ListKeys, replies, actions),
    ensures
        replies[0] matches StoreReplyView::Keys(keys) && {
            let wanted = listed(keys);
            &&& wanted.no_duplicates()
            &&& forall|key: Seq<char>|
                wanted.contains(key) <==> contents.contains_key(key) && !is_reserved(key)
            &&& replies.len() == wanted.len() + 1
            &&& forall|n: int|
                0 <= n < wanted.len() ==> #[trigger] actions[n] == ActionView::Ask(
                    StoreCommandView::ReadRecord(wanted[n]),
                )
            &&& states.last() == ApiStateView::Done
            &&& actions.last() matches ActionView::Respond(response)
            &&& response.status == Status::Success
            &&& response.body matches BodyView::Listing(listing)
            &&& is_listing_of(gathered(replies.subrange(1, replies.len() as int)), listing)
        },
{
    let keys = replies[0]->Keys_0;
    let wanted = listed(keys);
    let m = wanted.len() as int;
    lemma_listed_keys(contents, keys);
    lemma_listed_without_repetition(keys);
    assert forall|n: int| 0 <= n < m implies #[trigger] actions[n] == ActionView::Ask(
        StoreCommandView::ReadRecord(wanted[n]),
    ) by {
        lemma_listing_goes_on(contents, keys, states, replies, actions, n);
        assert(wanted.skip(n)[0] == wanted[n]);
    }
    lemma_listing_goes_on(contents, keys, states, replies, actions, m);
    assert(wanted.skip(m).len() == 0);
    assert(!(actions[m] is Ask));
    if replies.len() > m + 1 {
        let i = m + 1;
        let after = replies[i];
        assert(actions[i - 1] is Ask);
    }
}

} // verus!
