//! The words exchanged with the key-value service, and what a well-behaved
//! service answers.
//!
//! The handlers never touch the service. They hand out a [`StoreCommand`] and
//! are resumed with the [`StoreReply`] that came back. Records cross this
//! boundary as [`Link`] values: whoever carries a command out turns records
//! into stored bytes and back.

use vstd::prelude::*;
use vstd::utf8::*;
use crate::link::{Link, LinkView};

verus! {

/// A request to the key-value service.
#[derive(Debug, PartialEq, Eq)]
pub enum StoreCommand {
    /// The bytes held under a key.
    ReadText(String),
    /// The record held under a key.
    ReadRecord(String),
    /// Put a text under a key, replacing what was there.
    WriteText(String, String),
    /// Put a record under its short code, replacing what was there.
    WriteRecord(Link),
    /// Remove a key.
    Delete(String),
    /// All keys, in no particular order.
    ListKeys,
}

/// What came back from the key-value service.
#[derive(Debug, PartialEq, Eq)]
pub enum StoreReply {
    /// The bytes that were asked for.
    Text(Vec<u8>),
    /// The record that was asked for.
    Record(Link),
    /// The key is there, but what it holds is no record.
    Undecodable,
    /// The key is not there.
    NoSuchKey,
    /// The keys that were asked for.
    Keys(Vec<String>),
    /// The write or removal was carried out.
    Done,
    /// The service failed.
    Failed,
}

/// How an operation on the directory fails.
#[derive(Debug, Clone, Copy, PartialEq, Eq, Structural)]
pub enum DirectoryError {
    /// There is nothing under that short code.
    NotFound,
    /// A record could not be read from its stored or transmitted form.
    SerializationError,
    /// The key-value service failed, or answered out of turn.
    StoreUnavailable,
}

/// The mathematical value of a [`StoreCommand`].
pub enum StoreCommandView {
    ReadText(Seq<char>),
    ReadRecord(Seq<char>),
    WriteText(Seq<char>, Seq<char>),
    WriteRecord(LinkView),
    Delete(Seq<char>),
    ListKeys,
}

/// The mathematical value of a [`StoreReply`].
pub enum StoreReplyView {
    Text(Seq<u8>),
    Record(LinkView),
    Undecodable,
    NoSuchKey,
    Keys(Seq<Seq<char>>),
    Done,
    Failed,
}

/// The texts of a list of strings.
pub open spec fn texts(keys: Seq<String>) -> Seq<Seq<char>> {
    keys.map_values(|k: String| k@)
}

/// The values of a list of records.
pub open spec fn records(links: Seq<Link>) -> Seq<LinkView> {
    links.map_values(|l: Link| l@)
}

impl View for StoreCommand {
    type V = StoreCommandView;

    open spec fn view(&self) -> StoreCommandView {
        match self {
            StoreCommand::ReadText(key) => StoreCommandView::ReadText(key@),
            StoreCommand::ReadRecord(key) => StoreCommandView::ReadRecord(key@),
            StoreCommand::WriteText(key, text) => StoreCommandView::WriteText(key@, text@),
            StoreCommand::WriteRecord(link) => StoreCommandView::WriteRecord(link@),
            StoreCommand::Delete(key) => StoreCommandView::Delete(key@),
            StoreCommand::ListKeys => StoreCommandView::ListKeys,
        }
    }
}

impl View for StoreReply {
    type V = StoreReplyView;

    open spec fn view(&self) -> StoreReplyView {
        match self {
            StoreReply::Text(bytes) => StoreReplyView::Text(bytes@),
            StoreReply::Record(link) => StoreReplyView::Record(link@),
            StoreReply::Undecodable => StoreReplyView::Undecodable,
            StoreReply::NoSuchKey => StoreReplyView::NoSuchKey,
            StoreReply::Keys(keys) => StoreReplyView::Keys(texts(keys@)),
            StoreReply::Done => StoreReplyView::Done,
            StoreReply::Failed => StoreReplyView::Failed,
        }
    }
}

/// What the service holds: bytes under keys.
pub type Contents = Map<Seq<char>, Seq<u8>>;

/// Whether `reply` is an answer that a service holding `contents` may give to
/// `command` when it works and nobody else writes to it. A record is read as
/// a record or found undecodable, as its bytes have it; removing a key that
/// is not there may be reported as done or as a missing key.
pub open spec fn answers(contents: Contents, command: StoreCommandView, reply: StoreReplyView) -> bool {
    match command {
        StoreCommandView::ReadText(key) => if contents.contains_key(key) {
            reply == StoreReplyView::Text(contents[key])
        } else {
            reply == StoreReplyView::NoSuchKey
        },
        StoreCommandView::ReadRecord(key) => if contents.contains_key(key) {
            reply is Record || reply is Undecodable
        } else {
            reply == StoreReplyView::NoSuchKey
        },
        StoreCommandView::WriteText(key, text) => reply == StoreReplyView::Done,
        StoreCommandView::WriteRecord(link) => reply == StoreReplyView::Done,
        StoreCommandView::Delete(key) => reply == StoreReplyView::Done || (!contents.contains_key(
            key,
        ) && reply == StoreReplyView::NoSuchKey),
        StoreCommandView::ListKeys => {
            &&& reply matches StoreReplyView::Keys(keys)
            &&& keys.no_duplicates()
            &&& forall|key: Seq<char>| keys.contains(key) <==> contents.contains_key(key)
        },
    }
}

/// Whether a service that held `contents` may hold `after` once it has
/// carried out `command`. A record is stored as some bytes under its short
/// code; which bytes is the business of whoever encodes it.
pub open spec fn leaves(contents: Contents, command: StoreCommandView, after: Contents) -> bool {
    match command {
        StoreCommandView::ReadText(key) => after == contents,
        StoreCommandView::ReadRecord(key) => after == contents,
        StoreCommandView::WriteText(key, text) => after == contents.insert(key, encode_utf8(text)),
        StoreCommandView::WriteRecord(link) => exists|bytes: Seq<u8>|
            after == contents.insert(link.short_url, bytes),
        StoreCommandView::Delete(key) => after == contents.remove(key),
        StoreCommandView::ListKeys => after == contents,
    }
}

} // verus!
