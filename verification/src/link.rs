//! The link record and the generator of short codes.

use vstd::prelude::*;
use crate::text::push_char;

verus! {

/// A persisted entry of the directory.
#[derive(Debug, PartialEq, Eq)]
pub struct Link {
    /// Human-readable label.
    pub name: String,
    /// The short code; also the key under which the entry is stored.
    pub short_url: String,
    /// Where the short code leads.
    pub url: String,
}

/// The mathematical value of a [`Link`].
pub struct LinkView {
    pub name: Seq<char>,
    pub short_url: Seq<char>,
    pub url: Seq<char>,
}

impl View for Link {
    type V = LinkView;

    open spec fn view(&self) -> LinkView {
        LinkView { name: self.name@, short_url: self.short_url@, url: self.url@ }
    }
}

impl Clone for Link {
    fn clone(&self) -> (r: Self)
        ensures
            r@ == self@,
    {
        Link { name: self.name.clone(), short_url: self.short_url.clone(), url: self.url.clone() }
    }
}

/// Number of characters of a generated short code.
pub const CODE_LEN: usize = 8;

/// A byte that is an ASCII letter or digit.
pub open spec fn is_alphanumeric(b: u8) -> bool {
    (0x30 <= b <= 0x39) || (0x41 <= b <= 0x5a) || (0x61 <= b <= 0x7a)
}

/// A character of `[A-Za-z0-9]`.
pub open spec fn is_code_char(c: char) -> bool {
    ('0' <= c <= '9') || ('A' <= c <= 'Z') || ('a' <= c <= 'z')
}

/// A generated short code: eight characters of `[A-Za-z0-9]`.
pub open spec fn is_short_code(s: Seq<char>) -> bool {
    &&& s.len() == CODE_LEN
    &&& forall|i: int| 0 <= i < s.len() ==> is_code_char(#[trigger] s[i])
}

/// Draws one byte with `rand::Rng::sample` from the thread's generator under
/// the distribution `rand::distributions::Alphanumeric`. Whatever is drawn is
/// an ASCII letter or digit; nothing else is claimed of it, and two draws need
/// not agree. The generator aborts the process if the operating system gives
/// it no seed.
#[verifier::external_body]
fn sample_alphanumeric() -> (b: u8)
    ensures
        is_alphanumeric(b),
{
    rand::Rng::sample(&mut rand::thread_rng(), rand::distributions::Alphanumeric)
}

/// The text that a row of drawn bytes spells: one character for each byte,
/// in the order of the draws.
pub open spec fn spelled(draws: Seq<u8>) -> Seq<char> {
    draws.map_values(|b: u8| b as char)
}

/// Spells a short code from eight drawn bytes: its i-th character is the
/// i-th draw.
pub fn code_from_draws(draws: [u8; 8]) -> (code: String)
    ensures
        code@ == spelled(draws@),
{
    let mut code = String::new();
    let mut n: usize = 0;
    while n < 8
        invariant
            n <= 8,
            draws@.len() == 8,
            code@ == spelled(draws@.take(n as int)),
        decreases 8 - n,
    {
        push_char(&mut code, draws[n] as char);
        assert(draws@.take(n + 1) =~= draws@.take(n as int).push(draws@[n as int]));
        assert(spelled(draws@.take(n + 1)) =~= spelled(draws@.take(n as int)).push(
            draws@[n as int] as char,
        ));
        n += 1;
    }
    assert(draws@.take(8) =~= draws@);
    code
}

/// Generates a short code: eight draws from `[A-Za-z0-9]`, spelled in the
/// order in which they were drawn.
pub fn rand_string() -> (code: String)
    ensures
        is_short_code(code@),
{
    let draws: [u8; 8] = [
        sample_alphanumeric(),
        sample_alphanumeric(),
        sample_alphanumeric(),
        sample_alphanumeric(),
        sample_alphanumeric(),
        sample_alphanumeric(),
        sample_alphanumeric(),
        sample_alphanumeric(),
    ];
    assert(forall|i: int| 0 <= i < 8 ==> is_alphanumeric(#[trigger] draws@[i]));
    let code = code_from_draws(draws);
    assert forall|i: int| 0 <= i < code@.len() implies is_code_char(#[trigger] code@[i]) by {
        assert(is_alphanumeric(draws@[i]));
    }
    code
}

} // verus!
