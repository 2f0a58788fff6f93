//! The credential gate: reading the `Authorization` header of a request and
//! holding its Basic payload against the stored credential.

use vstd::prelude::*;
use vstd::utf8::*;
use crate::link::{is_short_code, rand_string};
use crate::store::{
    answers, leaves, Contents, DirectoryError, StoreCommandView, StoreReply, StoreReplyView,
};
use crate::text::string_from_utf8;

verus! {

/// `http::HeaderMap`, carried through as the transport delivers it.
#[verifier::external_type_specification]
#[verifier::external_body]
#[verifier::reject_recursive_types(T)]
pub struct ExHeaderMap<T>(http::HeaderMap<T>);

/// `http::HeaderValue`, the element type of the header map.
#[verifier::external_type_specification]
#[verifier::external_body]
pub struct ExHeaderValue(http::HeaderValue);

/// `base64::DecodeError`; carried through, never inspected.
#[verifier::external_type_specification]
#[verifier::external_body]
pub struct ExDecodeError(base64::DecodeError);

/// What a header map holds: under each header name, written in lower case,
/// the values sent under that name, in the order in which they arrived.
pub uninterp spec fn header_fields(headers: http::HeaderMap<http::HeaderValue>) -> Map<
    Seq<char>,
    Seq<Seq<u8>>,
>;

/// What the standard, padded base64 engine of the `base64` crate decodes a
/// text to, or `None` where it rejects the text.
pub uninterp spec fn base64_decoded(text: Seq<u8>) -> Option<Seq<u8>>;

/// Why a request was not let through.
#[derive(Debug, Clone, Copy, PartialEq, Eq, Structural)]
pub enum AuthError {
    /// The request carries no `Authorization` header.
    MissingHeader,
    /// The header is not `<scheme> <payload>` in visible ASCII, or the payload
    /// is not base64 of UTF-8 text.
    MalformedHeader,
    /// The scheme is not `Basic`.
    UnsupportedScheme,
    /// The payload decodes to something other than the stored credential.
    InvalidCredential,
}

/// The name under which the credential travels, as header maps spell it.
pub open spec fn authorization_name() -> Seq<char> {
    seq!['a', 'u', 't', 'h', 'o', 'r', 'i', 'z', 'a', 't', 'i', 'o', 'n']
}

/// A header name that is its own normal form: 1 to 64 characters out of
/// lower-case letters, digits and the hyphen.
pub open spec fn is_plain_name(name: Seq<char>) -> bool {
    &&& 1 <= name.len() <= 64
    &&& forall|i: int|
        0 <= i < name.len() ==> {
            let c = #[trigger] name[i];
            ('a' <= c <= 'z') || ('0' <= c <= '9') || c == '-'
        }
}

/// The first value under a name, if the name is there at all.
pub open spec fn first_field(fields: Map<Seq<char>, Seq<Seq<u8>>>, name: Seq<char>) -> Option<
    Seq<u8>,
> {
    if fields.dom().contains(name) && fields[name].len() > 0 {
        Some(fields[name][0])
    } else {
        None
    }
}

/// The view of an optional byte vector.
pub open spec fn bytes_view(bytes: Option<Vec<u8>>) -> Option<Seq<u8>> {
    match bytes {
        Some(b) => Some(b@),
        None => None,
    }
}

/// A byte that `http::HeaderValue::to_str` accepts: visible ASCII or a tab.
pub open spec fn is_visible(b: u8) -> bool {
    (32 <= b < 127) || b == 9
}

/// A header value that reads as text.
pub open spec fn is_visible_text(value: Seq<u8>) -> bool {
    forall|i: int| 0 <= i < value.len() ==> is_visible(#[trigger] value[i])
}

/// The ASCII space that parts scheme and payload.
pub const SPACE: u8 = 0x20;

/// `at` is the place of the one and only space of `value`.
pub open spec fn parts_at(value: Seq<u8>, at: int) -> bool {
    &&& 0 <= at < value.len()
    &&& value[at] == SPACE
    &&& forall|j: int| 0 <= j < value.len() && j != at ==> #[trigger] value[j] != SPACE
}

/// The lower-case form of an ASCII byte.
pub open spec fn ascii_lower(b: u8) -> u8 {
    if 0x41 <= b <= 0x5a {
        (b + 32) as u8
    } else {
        b
    }
}

/// The scheme this gate accepts, in lower case.
pub open spec fn basic_scheme() -> Seq<u8> {
    seq![0x62u8, 0x61u8, 0x73u8, 0x69u8, 0x63u8]
}

/// A scheme that spells `basic` in any mix of cases.
pub open spec fn is_basic(scheme: Seq<u8>) -> bool {
    scheme.map_values(|b: u8| ascii_lower(b)) == basic_scheme()
}

/// The payload of a Basic header value, or the reason there is none: the
/// value must be visible ASCII made of two parts with one space between them,
/// and the first part must spell `basic`.
pub open spec fn basic_payload(value: Seq<u8>) -> Result<Seq<u8>, AuthError> {
    if !is_visible_text(value) {
        Err(AuthError::MalformedHeader)
    } else if !(exists|at: int| parts_at(value, at)) {
        Err(AuthError::MalformedHeader)
    } else {
        let at = choose|at: int| parts_at(value, at);
        if !is_basic(value.subrange(0, at)) {
            Err(AuthError::UnsupportedScheme)
        } else {
            Ok(value.subrange(at + 1, value.len() as int))
        }
    }
}

/// The verdict on a decoded payload: it must be UTF-8 and spell the
/// expected credential, character for character.
pub open spec fn credential_verdict(decoded: Option<Seq<u8>>, expected: Seq<char>) -> Result<
    (),
    AuthError,
> {
    match decoded {
        None => Err(AuthError::MalformedHeader),
        Some(bytes) => if !valid_utf8(bytes) {
            Err(AuthError::MalformedHeader)
        } else if decode_utf8(bytes) != expected {
            Err(AuthError::InvalidCredential)
        } else {
            Ok(())
        },
    }
}

/// The verdict on a request, from the value of its `Authorization` header.
pub open spec fn authorization(header: Option<Seq<u8>>, expected: Seq<char>) -> Result<
    (),
    AuthError,
> {
    match header {
        None => Err(AuthError::MissingHeader),
        Some(value) => match basic_payload(value) {
            Err(e) => Err(e),
            Ok(payload) => credential_verdict(base64_decoded(payload), expected),
        },
    }
}

/// The view of a parsing result.
pub open spec fn payload_view(r: Result<Vec<u8>, AuthError>) -> Result<Seq<u8>, AuthError> {
    match r {
        Ok(p) => Ok(p@),
        Err(e) => Err(e),
    }
}

/// `http::HeaderMap::get` with a text for the name, the value handed out as
/// its bytes (`http::HeaderValue::as_bytes`). For a name in its normal form
/// the result is the first value held under that name, and `None` if the map
/// holds none. Of other names nothing is claimed.
#[verifier::external_body]
fn first_value(headers: &http::HeaderMap<http::HeaderValue>, name: &str) -> (value: Option<Vec<u8>>)
    ensures
        is_plain_name(name@) ==> bytes_view(value) == first_field(header_fields(*headers), name@),
{
    match headers.get(name) {
        Some(v) => Some(v.as_bytes().to_vec()),
        None => None,
    }
}

/// `base64::Engine::decode` on `base64::engine::general_purpose::STANDARD`,
/// the engine with the standard alphabet that requires canonical padding.
/// The result is a function of the text alone, known by name: the decoded
/// bytes where the engine accepts the text, nothing where it rejects it.
#[verifier::external_body]
fn base64_decode(text: &[u8]) -> (r: Result<Vec<u8>, base64::DecodeError>)
    ensures
        match r {
            Ok(bytes) => base64_decoded(text@) == Some(bytes@),
            Err(_) => base64_decoded(text@) is None,
        },
{
    base64::Engine::decode(&base64::engine::general_purpose::STANDARD, text)
}

/// Whether every byte of a header value is visible ASCII or a tab.
fn visible_text(value: &[u8]) -> (r: bool)
    ensures
        r == is_visible_text(value@),
{
    let mut i: usize = 0;
    while i < value.len()
        invariant
            i <= value.len(),
            forall|j: int| 0 <= j < i ==> is_visible(#[trigger] value@[j]),
        decreases value.len() - i,
    {
        let b = value[i];
        if !((32 <= b && b < 127) || b == 9) {
            return false;
        }
        i += 1;
    }
    true
}

/// The place of the first space at or after `from`, or the length if there
/// is none.
fn find_space(value: &[u8], from: usize) -> (at: usize)
    requires
        from <= value.len(),
    ensures
        from <= at <= value.len(),
        at < value.len() ==> value@[at as int] == SPACE,
        forall|j: int| from <= j < at ==> #[trigger] value@[j] != SPACE,
{
    let mut i: usize = from;
    while i < value.len()
        invariant
            from <= i <= value.len(),
            forall|j: int| from <= j < i ==> #[trigger] value@[j] != SPACE,
        decreases value.len() - i,
    {
        if value[i] == SPACE {
            return i;
        }
        i += 1;
    }
    i
}

/// Whether the first `len` bytes of a value spell `basic`, whatever their case.
fn spells_basic(value: &[u8], len: usize) -> (r: bool)
    requires
        len <= value.len(),
    ensures
        r == is_basic(value@.subrange(0, len as int)),
{
    let ghost scheme = value@.subrange(0, len as int);
    let ghost lowered = scheme.map_values(|b: u8| ascii_lower(b));
    if len != 5 {
        assert(lowered.len() != basic_scheme().len());
        return false;
    }
    let word: [u8; 5] = [0x62, 0x61, 0x73, 0x69, 0x63];
    let mut i: usize = 0;
    while i < 5
        invariant
            i <= 5,
            len == 5,
            len <= value.len(),
            scheme == value@.subrange(0, len as int),
            lowered == scheme.map_values(|b: u8| ascii_lower(b)),
            word@ == basic_scheme(),
            forall|j: int| 0 <= j < i ==> #[trigger] lowered[j] == basic_scheme()[j],
        decreases 5 - i,
    {
        let b = value[i];
        let low = if 0x41 <= b && b <= 0x5a {
            b + 32
        } else {
            b
        };
        assert(low == lowered[i as int]);
        if low != word[i] {
            assert(lowered[i as int] != basic_scheme()[i as int]);
            return false;
        }
        i += 1;
    }
    assert(lowered =~= basic_scheme());
    true
}

/// Reads a header value as `<scheme> <payload>` and hands out the payload of
/// a Basic header.
pub fn parse_basic_header(value: &[u8]) -> (r: Result<Vec<u8>, AuthError>)
    ensures
        payload_view(r) == basic_payload(value@),
{
    if !visible_text(value) {
        return Err(AuthError::MalformedHeader);
    }
    let at = find_space(value, 0);
    if at >= value.len() {
        assert(forall|k: int| !parts_at(value@, k));
        return Err(AuthError::MalformedHeader);
    }
    let next = find_space(value, at + 1);
    if next < value.len() {
        assert forall|k: int| !parts_at(value@, k) by {
            if parts_at(value@, k) {
                if k == at as int {
                    assert(value@[next as int] != SPACE);
                } else {
                    assert(value@[at as int] != SPACE);
                }
            }
        }
        return Err(AuthError::MalformedHeader);
    }
    proof {
        assert(parts_at(value@, at as int));
        let chosen = choose|k: int| parts_at(value@, k);
        assert(parts_at(value@, chosen));
        assert(chosen == at as int) by {
            if chosen != at as int {
                assert(value@[at as int] != SPACE);
            }
        }
    }
    if !spells_basic(value, at) {
        return Err(AuthError::UnsupportedScheme);
    }
    let mut payload: Vec<u8> = Vec::new();
    let mut i: usize = at + 1;
    while i < value.len()
        invariant
            at + 1 <= i <= value.len(),
            payload@ == value@.subrange(at + 1, i as int),
        decreases value.len() - i,
    {
        payload.push(value[i]);
        assert(value@.subrange(at + 1, i + 1) == value@.subrange(at + 1, i as int).push(
            value@[i as int],
        ));
        i += 1;
    }
    Ok(payload)
}

/// Holds a decoded payload against the expected credential: `Ok` exactly
/// when the payload was decoded, is UTF-8 and equals the credential.
pub fn check_credential(decoded: Option<Vec<u8>>, expected: &String) -> (r: Result<(), AuthError>)
    ensures
        r == credential_verdict(bytes_view(decoded), expected@),
{
    match decoded {
        None => Err(AuthError::MalformedHeader),
        Some(bytes) => match string_from_utf8(bytes) {
            Err(_) => Err(AuthError::MalformedHeader),
            Ok(given) => {
                if given == *expected {
                    Ok(())
                } else {
                    Err(AuthError::InvalidCredential)
                }
            },
        },
    }
}

/// Lets a request through exactly when its `Authorization` header is a Basic
/// header whose payload decodes to the expected credential; otherwise says
/// what is wrong with it.
pub fn authorize(headers: &http::HeaderMap<http::HeaderValue>, expected_creds: String) -> (r:
    Result<(), AuthError>)
    ensures
        r == authorization(
            first_field(header_fields(*headers), authorization_name()),
            expected_creds@,
        ),
{
    proof {
        reveal_strlit("authorization");
    }
    let name = "authorization";
    assert(name@ =~= authorization_name());
    assert(is_plain_name(name@));
    let header = first_value(headers, name);
    match header {
        None => Err(AuthError::MissingHeader),
        Some(value) => match parse_basic_header(value.as_slice()) {
            Err(e) => Err(e),
            Ok(payload) => {
                let decoded = match base64_decode(payload.as_slice()) {
                    Ok(bytes) => Some(bytes),
                    Err(_) => None,
                };
                check_credential(decoded, &expected_creds)
            },
        },
    }
}

/// What to do about the credential once the store has been asked for it.
#[derive(Debug, PartialEq, Eq)]
pub enum CredentialStep {
    /// The stored credential; it is in force.
    Ready(String),
    /// A credential generated just now, because none was stored. It is in
    /// force once it has been written under the credential key.
    Generated(String),
    /// No credential can be had.
    Failed(DirectoryError),
}

/// The shape of a generated credential: a user name and a password, each a
/// generated short code, with a colon between them.
pub open spec fn is_fresh_credential(credential: Seq<char>) -> bool {
    &&& credential.len() == 17
    &&& credential[8] == ':'
    &&& is_short_code(credential.subrange(0, 8))
    &&& is_short_code(credential.subrange(9, 17))
}

/// Whether `step` is what the reply to a read of the credential key calls
/// for. A stored credential is used as it is, and never replaced; only a
/// missing key has a new one generated.
pub open spec fn credential_step(reply: StoreReplyView, step: CredentialStep) -> bool {
    match reply {
        StoreReplyView::Text(bytes) => if valid_utf8(bytes) {
            step matches CredentialStep::Ready(c) && c@ == decode_utf8(bytes)
        } else {
            step == CredentialStep::Failed(DirectoryError::SerializationError)
        },
        StoreReplyView::NoSuchKey => step matches CredentialStep::Generated(c)
            && is_fresh_credential(c@),
        _ => step == CredentialStep::Failed(DirectoryError::StoreUnavailable),
    }
}

/// The credential of a user name and a password: the two with a colon
/// between them.
pub open spec fn joined(username: Seq<char>, password: Seq<char>) -> Seq<char> {
    username + seq![':'] + password
}

/// Joins a user name and a password to a credential.
pub fn credential_from(username: String, password: String) -> (credential: String)
    ensures
        credential@ == joined(username@, password@),
{
    let mut credential = username;
    proof {
        reveal_strlit(":");
    }
    let ghost user = credential@;
    credential.append(":");
    credential.append(password.as_str());
    proof {
        assert(":"@ =~= seq![':']);
        assert(credential@ =~= user + seq![':'] + password@);
    }
    credential
}

/// Decides on the credential from the reply to a read of the credential key:
/// the stored text if there is one, a generated `user:password` pair if the
/// key is missing, a failure otherwise.
pub fn get_credentials(reply: StoreReply) -> (step: CredentialStep)
    ensures
        credential_step(reply@, step),
{
    match reply {
        StoreReply::Text(bytes) => match string_from_utf8(bytes) {
            Ok(text) => CredentialStep::Ready(text),
            Err(_) => CredentialStep::Failed(DirectoryError::SerializationError),
        },
        StoreReply::NoSuchKey => {
            let username = rand_string();
            let password = rand_string();
            let ghost user = username@;
            let ghost pass = password@;
            let credential = credential_from(username, password);
            proof {
                assert(credential@.subrange(0, 8) =~= user);
                assert(credential@.subrange(9, 17) =~= pass);
            }
            CredentialStep::Generated(credential)
        },
        _ => CredentialStep::Failed(DirectoryError::StoreUnavailable),
    }
}

/// A request is let through if and only if its `Authorization` header is a
/// Basic header whose payload decodes, as base64 and then as UTF-8, to the
/// expected credential exactly. Each way of falling short has its own error:
/// a scheme other than Basic, a payload that is no base64, a payload that
/// decodes to another text.
pub proof fn lemma_authorized_iff(header: Option<Seq<u8>>, expected: Seq<char>)
    ensures
        authorization(header, expected) is Ok <==> {
            &&& header matches Some(value)
            &&& basic_payload(value) matches Ok(payload)
            &&& base64_decoded(payload) matches Some(bytes)
            &&& valid_utf8(bytes)
            &&& decode_utf8(bytes) == expected
        },
        header is None ==> authorization(header, expected) == Err::<(), AuthError>(
            AuthError::MissingHeader,
        ),
        header matches Some(value) ==> {
            &&& basic_payload(value) matches Err(e) ==> authorization(header, expected) == Err::<
                (),
                AuthError,
            >(e)
            &&& basic_payload(value) matches Ok(payload) ==> match base64_decoded(payload) {
                None => authorization(header, expected) == Err::<(), AuthError>(
                    AuthError::MalformedHeader,
                ),
                Some(bytes) => valid_utf8(bytes) && decode_utf8(bytes) != expected
                    ==> authorization(header, expected) == Err::<(), AuthError>(
                    AuthError::InvalidCredential,
                ),
            }
        },
{
}

/// A header value of two parts whose first part does not spell `basic` is
/// refused for its scheme, whatever its payload.
pub proof fn lemma_other_scheme(value: Seq<u8>, at: int)
    requires
        is_visible_text(value),
        parts_at(value, at),
        !is_basic(value.subrange(0, at)),
    ensures
        basic_payload(value) == Err::<Seq<u8>, AuthError>(AuthError::UnsupportedScheme),
{
    let chosen = choose|k: int| parts_at(value, k);
    assert(parts_at(value, chosen));
    if chosen != at {
        assert(value[at] != SPACE);
    }
}

/// A credential, once stored, is the one in force: reading the credential
/// key after it was written never yields a failure, nor a newly generated
/// credential, but the text that was written.
pub proof fn lemma_stored_credential_stays(
    contents: Contents,
    key: Seq<char>,
    credential: Seq<char>,
    after: Contents,
    reply: StoreReplyView,
    step: CredentialStep,
)
    requires
        leaves(contents, StoreCommandView::WriteText(key, credential), after),
        answers(after, StoreCommandView::ReadText(key), reply),
        credential_step(reply, step),
    ensures
        step matches CredentialStep::Ready(text) && text@ == credential,
{
    encode_utf8_valid_utf8(credential);
    encode_utf8_decode_utf8(credential);
}

} // verus!
