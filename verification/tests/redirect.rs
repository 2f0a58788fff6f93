use shortlinks::link::Link;
use shortlinks::redirect::{handle_redirect, RedirectEvent, RedirectRequest, RedirectState};
use shortlinks::store::{DirectoryError, StoreCommand, StoreReply};
use shortlinks::transport::{Action, Body, Method, Response, Status};

fn incoming(method: Method, query: Option<&str>, path: &str) -> RedirectEvent {
    RedirectEvent::Request(RedirectRequest {
        method,
        query: query.map(|q| q.to_string()),
        path: path.to_string(),
    })
}

fn bare(status: Status) -> Action {
    Action::Respond(Response { status, authenticate: None, location: None, body: Body::Empty })
}

fn redirect_to(target: &str) -> Action {
    Action::Respond(Response {
        status: Status::TemporaryRedirect,
        authenticate: None,
        location: Some(target.to_string()),
        body: Body::Empty,
    })
}

#[test]
fn a_code_is_looked_up() {
    let (state, action) =
        handle_redirect(RedirectState::Start, incoming(Method::Get, Some("abc"), "/"));
    assert_eq!(state, RedirectState::Resolving);
    assert_eq!(action, Action::Ask(StoreCommand::ReadRecord("abc".to_string())));
}

#[test]
fn a_known_code_redirects_to_its_target() {
    let record = Link {
        name: "Example".to_string(),
        short_url: "abc".to_string(),
        url: "https://example.com/a?b=c".to_string(),
    };
    let (state, action) =
        handle_redirect(RedirectState::Resolving, RedirectEvent::Reply(StoreReply::Record(record)));
    assert_eq!(state, RedirectState::Done);
    assert_eq!(action, redirect_to("https://example.com/a?b=c"));
    assert_eq!(Status::TemporaryRedirect.code(), 307);
}

#[test]
fn an_unknown_code_is_not_found() {
    let (state, action) =
        handle_redirect(RedirectState::Resolving, RedirectEvent::Reply(StoreReply::NoSuchKey));
    assert_eq!(state, RedirectState::Done);
    assert_eq!(action, bare(Status::NotFound));
}

#[test]
fn the_favicon_is_not_found() {
    let (state, action) =
        handle_redirect(RedirectState::Start, incoming(Method::Get, None, "/favicon.ico"));
    assert_eq!(state, RedirectState::Done);
    assert_eq!(action, bare(Status::NotFound));
}

#[test]
fn the_favicon_path_with_a_code_is_looked_up() {
    let (state, action) =
        handle_redirect(RedirectState::Start, incoming(Method::Get, Some("x"), "/favicon.ico"));
    assert_eq!(state, RedirectState::Resolving);
    assert_eq!(action, Action::Ask(StoreCommand::ReadRecord("x".to_string())));
}

#[test]
fn no_code_redirects_to_the_admin_pages() {
    for path in ["/", "", "/anything", "/favicon.ico/", "/FAVICON.ICO"] {
        let (state, action) =
            handle_redirect(RedirectState::Start, incoming(Method::Get, None, path));
        assert_eq!(state, RedirectState::Done);
        assert_eq!(action, redirect_to("/admin/"));
    }
}

#[test]
fn only_reading_is_allowed() {
    for method in [Method::Post, Method::Delete, Method::Other] {
        for query in [None, Some("abc")] {
            let (state, action) =
                handle_redirect(RedirectState::Start, incoming(method, query, "/"));
            assert_eq!(state, RedirectState::Done);
            assert_eq!(action, bare(Status::MethodNotAllowed));
        }
    }
}

#[test]
fn a_record_that_cannot_be_read_fails() {
    let (state, action) =
        handle_redirect(RedirectState::Resolving, RedirectEvent::Reply(StoreReply::Undecodable));
    assert_eq!(state, RedirectState::Done);
    assert_eq!(action, Action::Fail(DirectoryError::SerializationError));
}

#[test]
fn a_failing_store_fails_the_resolution() {
    for reply in [StoreReply::Failed, StoreReply::Done, StoreReply::Keys(Vec::new())] {
        let (state, action) =
            handle_redirect(RedirectState::Resolving, RedirectEvent::Reply(reply));
        assert_eq!(state, RedirectState::Done);
        assert_eq!(action, Action::Fail(DirectoryError::StoreUnavailable));
    }
}

#[test]
fn resolver_events_out_of_turn_end_the_handling() {
    let (state, action) =
        handle_redirect(RedirectState::Start, RedirectEvent::Reply(StoreReply::NoSuchKey));
    assert_eq!(state, RedirectState::Done);
    assert_eq!(action, Action::Fail(DirectoryError::StoreUnavailable));
    let (state, action) =
        handle_redirect(RedirectState::Resolving, incoming(Method::Get, Some("abc"), "/"));
    assert_eq!(state, RedirectState::Done);
    assert_eq!(action, Action::Fail(DirectoryError::StoreUnavailable));
    let (state, action) =
        handle_redirect(RedirectState::Done, incoming(Method::Get, Some("abc"), "/"));
    assert_eq!(state, RedirectState::Done);
    assert_eq!(action, Action::Fail(DirectoryError::StoreUnavailable));
}

#[test]
fn the_resolver_never_writes() {
    let events = [
        (RedirectState::Start, incoming(Method::Get, Some("abc"), "/")),
        (RedirectState::Start, incoming(Method::Get, Some("credentials"), "/")),
        (RedirectState::Start, incoming(Method::Post, Some("abc"), "/")),
        (RedirectState::Start, incoming(Method::Delete, Some("abc"), "/")),
        (RedirectState::Resolving, RedirectEvent::Reply(StoreReply::NoSuchKey)),
    ];
    for (state, event) in events {
        match handle_redirect(state, event).1 {
            Action::Ask(StoreCommand::ReadRecord(_)) => {}
            Action::Ask(other) => panic!("the resolver asked for {:?}", other),
            Action::ReadBody => panic!("the resolver asked for the body"),
            Action::Deny(reason, _) => panic!("the resolver refused: {:?}", reason),
            _ => {}
        }
    }
}
