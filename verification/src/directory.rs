//! The directory of links: what creating, reading, listing and removing an
//! entry mean, told apart from the key-value service that holds the entries.

use vstd::prelude::*;
use vstd::utf8::*;
use vstd::seq_lib::*;
use vstd::multiset::*;
use crate::link::{is_short_code, rand_string, Link, LinkView};
use crate::store::{
    answers, leaves, records, texts, Contents, DirectoryError, StoreCommandView, StoreReply,
    StoreReplyView,
};
use crate::text::{
    bytes_le, lemma_lex_total, lemma_lex_transitive, lex_le, lowercased, same_text, to_lowercase,
};

verus! {

/// The key under which the credential is kept.
pub open spec fn credentials_key() -> Seq<char> {
    "credentials"@
}

/// The key under which an earlier layout kept the credential.
pub open spec fn legacy_credentials_key() -> Seq<char> {
    "kv-credentials"@
}

/// A key that holds no link, though it shares the namespace of the links.
pub open spec fn is_reserved(key: Seq<char>) -> bool {
    key == credentials_key() || key == legacy_credentials_key()
}

/// The keys of a listing: those that are not reserved, in the order given.
pub open spec fn listed(keys: Seq<Seq<char>>) -> Seq<Seq<char>> {
    keys.filter(|key: Seq<char>| !is_reserved(key))
}

/// The bytes by which a name is ordered: its lower-case form, encoded.
pub open spec fn sort_key(name: Seq<char>) -> Seq<u8> {
    encode_utf8(lowercased(name))
}

/// Whether `a` may stand before `b` in a listing.
pub open spec fn name_le(a: LinkView, b: LinkView) -> bool {
    lex_le(sort_key(a.name), sort_key(b.name))
}

/// A listing in order: ascending by name, case disregarded.
pub open spec fn in_listing_order(listing: Seq<LinkView>) -> bool {
    forall|i: int, j: int| 0 <= i <= j < listing.len() ==> name_le(listing[i], listing[j])
}

/// Whether `listing` holds the records of `given` in an order that keeps
/// apart only what the names tell apart: `origin` says for each place of the
/// listing which place of `given` its record comes from, no place is used
/// twice, and records whose names are equal, case disregarded, stand as they
/// stood in `given`.
pub open spec fn keeps_ties(given: Seq<LinkView>, listing: Seq<LinkView>, origin: Seq<int>) -> bool {
    &&& listing.len() == given.len()
    &&& origin.len() == given.len()
    &&& forall|i: int|
        0 <= i < listing.len() ==> 0 <= #[trigger] origin[i] < given.len() && listing[i]
            == given[origin[i]]
    &&& forall|i: int, j: int|
        0 <= i < j < listing.len() ==> #[trigger] origin[i] != #[trigger] origin[j]
    &&& forall|i: int, j: int|
        0 <= i < j < listing.len() && name_le(listing[j], listing[i]) ==> #[trigger] origin[i]
            < #[trigger] origin[j]
}

/// Whether `listing` is the listing of the records `given`: the same
/// records, each as often as it was given, ascending by name with case
/// disregarded, and in the given order where names are equal.
pub open spec fn is_listing_of(given: Seq<LinkView>, listing: Seq<LinkView>) -> bool {
    &&& listing.to_multiset() == given.to_multiset()
    &&& in_listing_order(listing)
    &&& exists|origin: Seq<int>| keeps_ties(given, listing, origin)
}

/// The values of a list of records that come with their sort keys.
pub open spec fn keyed(entries: Seq<(Vec<u8>, Link)>) -> Seq<(Seq<u8>, LinkView)> {
    entries.map_values(|e: (Vec<u8>, Link)| (e.0@, e.1@))
}

/// Whether `origin` puts the keyed records `given` in order: it says for
/// each place of the listing which place of `given` its record comes from,
/// no place is used twice, the keys ascend in the order of byte strings, and
/// records of equal keys stand as they stood in `given`.
pub open spec fn orders(
    given: Seq<(Seq<u8>, LinkView)>,
    listing: Seq<LinkView>,
    origin: Seq<int>,
) -> bool {
    &&& listing.len() == given.len()
    &&& origin.len() == given.len()
    &&& forall|i: int|
        0 <= i < listing.len() ==> 0 <= #[trigger] origin[i] < given.len() && listing[i]
            == given[origin[i]].1
    &&& forall|i: int, j: int|
        0 <= i < j < listing.len() ==> #[trigger] origin[i] != #[trigger] origin[j]
    &&& forall|i: int, j: int|
        0 <= i < j < listing.len() ==> lex_le(
            given[#[trigger] origin[i]].0,
            given[#[trigger] origin[j]].0,
        )
    &&& forall|i: int, j: int|
        0 <= i < j < listing.len() && lex_le(given[origin[j]].0, given[origin[i]].0)
            ==> #[trigger] origin[i] < #[trigger] origin[j]
}

/// Whether `listing` is the keyed records `given` in the order of their
/// keys: the same records, each as often as it was given, ascending by key,
/// in the given order where keys are equal.
pub open spec fn is_ordered_by_keys(given: Seq<(Seq<u8>, LinkView)>, listing: Seq<LinkView>) -> bool {
    &&& listing.to_multiset() == given.map_values(|e: (Seq<u8>, LinkView)| e.1).to_multiset()
    &&& exists|origin: Seq<int>| orders(given, listing, origin)
}

/// The record that `create` stores for a given input: the input itself,
/// with a generated short code where it brought none.
pub open spec fn is_stored_form(input: LinkView, stored: LinkView) -> bool {
    &&& stored.name == input.name
    &&& stored.url == input.url
    &&& if input.short_url.len() == 0 {
        is_short_code(stored.short_url)
    } else {
        stored.short_url == input.short_url
    }
}

/// What reading a record amounts to, by what the service replied.
pub open spec fn get_outcome(reply: StoreReplyView) -> Result<LinkView, DirectoryError> {
    match reply {
        StoreReplyView::Record(link) => Ok(link),
        StoreReplyView::NoSuchKey => Err(DirectoryError::NotFound),
        StoreReplyView::Undecodable => Err(DirectoryError::SerializationError),
        _ => Err(DirectoryError::StoreUnavailable),
    }
}

/// What removing a key amounts to, by what the service replied. The service
/// decides whether removing a key that is not there is an error: its word is
/// passed on.
pub open spec fn delete_outcome(reply: StoreReplyView) -> Result<(), DirectoryError> {
    match reply {
        StoreReplyView::Done => Ok(()),
        StoreReplyView::NoSuchKey => Err(DirectoryError::NotFound),
        _ => Err(DirectoryError::StoreUnavailable),
    }
}

/// The view of the result of `get`.
pub open spec fn link_view(r: Result<Link, DirectoryError>) -> Result<LinkView, DirectoryError> {
    match r {
        Ok(link) => Ok(link@),
        Err(e) => Err(e),
    }
}

/// Whether a key is one of the reserved ones.
pub fn reserved(key: &str) -> (r: bool)
    ensures
        r == is_reserved(key@),
{
    same_text(key, "credentials") || same_text(key, "kv-credentials")
}

/// The record with a short code: its own where it has one, else `fresh`.
pub open spec fn coded(link: LinkView, fresh: Seq<char>) -> LinkView {
    if link.short_url.len() == 0 {
        LinkView { name: link.name, short_url: fresh, url: link.url }
    } else {
        link
    }
}

/// Gives a record the short code `fresh` if it has none of its own.
pub fn with_code(link: Link, fresh: String) -> (stored: Link)
    ensures
        stored@ == coded(link@, fresh@),
{
    if link.short_url.as_str().is_empty() {
        Link { name: link.name, short_url: fresh, url: link.url }
    } else {
        link
    }
}

/// Prepares a record for storing. An input that could not be read from its
/// transmitted form (`None`) is refused; a record without a short code gets a
/// generated one; any other record is stored as it came. The result is to be
/// stored under its short code, replacing what was there.
pub fn create(input: Option<Link>) -> (r: Result<Link, DirectoryError>)
    ensures
        input is None ==> r == Err::<Link, DirectoryError>(DirectoryError::SerializationError),
        input matches Some(link) ==> r matches Ok(stored) && is_stored_form(link@, stored@),
{
    match input {
        None => Err(DirectoryError::SerializationError),
        Some(link) => {
            if link.short_url.as_str().is_empty() {
                Ok(with_code(link, rand_string()))
            } else {
                Ok(link)
            }
        },
    }
}

/// Reads the reply to a request for one record.
pub fn get(reply: StoreReply) -> (r: Result<Link, DirectoryError>)
    ensures
        link_view(r) == get_outcome(reply@),
{
    match reply {
        StoreReply::Record(link) => Ok(link),
        StoreReply::NoSuchKey => Err(DirectoryError::NotFound),
        StoreReply::Undecodable => Err(DirectoryError::SerializationError),
        _ => Err(DirectoryError::StoreUnavailable),
    }
}

/// Reads the reply to a request for removing a key.
pub fn delete(reply: StoreReply) -> (r: Result<(), DirectoryError>)
    ensures
        r == delete_outcome(reply@),
{
    match reply {
        StoreReply::Done => Ok(()),
        StoreReply::NoSuchKey => Err(DirectoryError::NotFound),
        _ => Err(DirectoryError::StoreUnavailable),
    }
}

/// Picks the keys that belong in a listing: all but the reserved ones, in
/// the order in which the service gave them.
pub fn link_keys(keys: &Vec<String>) -> (kept: Vec<String>)
    ensures
        texts(kept@) == listed(texts(keys@)),
        forall|i: int| 0 <= i < kept.len() ==> !is_reserved(#[trigger] kept[i]@),
{
    let ghost all = texts(keys@);
    let ghost wanted = |key: Seq<char>| !is_reserved(key);
    let mut kept: Vec<String> = Vec::new();
    let mut i: usize = 0;
    assert(all.take(0) =~= Seq::<Seq<char>>::empty());
    assert(texts(kept@) =~= Seq::<Seq<char>>::empty());
    while i < keys.len()
        invariant
            i <= keys.len(),
            all == texts(keys@),
            wanted == |key: Seq<char>| !is_reserved(key),
            texts(kept@) == all.take(i as int).filter(wanted),
            forall|j: int| 0 <= j < kept.len() ==> !is_reserved(#[trigger] kept[j]@),
        decreases keys.len() - i,
    {
        let ghost before = texts(kept@);
        proof {
            let head = all.take(i as int);
            let one = seq![all[i as int]];
            assert(all.take(i + 1) =~= head + one);
            Seq::filter_distributes_over_add(head, one, wanted);
            reveal_with_fuel(Seq::filter, 2);
            assert(one.drop_last() =~= Seq::<Seq<char>>::empty());
            assert(one.filter(wanted) =~= if wanted(all[i as int]) {
                one
            } else {
                Seq::<Seq<char>>::empty()
            });
        }
        if !reserved(keys[i].as_str()) {
            kept.push(keys[i].clone());
            assert(texts(kept@) =~= before.push(all[i as int]));
            assert(before.push(all[i as int]) =~= before + seq![all[i as int]]);
        } else {
            assert(before + Seq::<Seq<char>>::empty() =~= before);
        }
        i += 1;
    }
    assert(all.take(keys.len() as int) =~= all);
    kept
}

/// A sequence without elements holds nothing, however often.
proof fn lemma_empty_multiset<A>(s: Seq<A>)
    requires
        s.len() == 0,
    ensures
        s.to_multiset() == Multiset::<A>::empty(),
{
    s.to_multiset_ensures();
    assert forall|a: A| s.to_multiset().count(a) == 0 by {
        assert(!s.contains(a));
    }
    assert(s.to_multiset() =~= Multiset::<A>::empty());
}

/// Inserting into a sequence adds one occurrence of the new element.
proof fn lemma_insert_multiset<A>(s: Seq<A>, at: int, a: A)
    requires
        0 <= at <= s.len(),
    ensures
        s.insert(at, a).to_multiset() == s.to_multiset().insert(a),
{
    let grown = s.insert(at, a);
    assert(grown[at] == a);
    assert(grown.remove(at) =~= s);
    to_multiset_remove(grown, at);
    grown.to_multiset_ensures();
    assert(grown.contains(a));
    assert(grown.to_multiset() =~= s.to_multiset().insert(a));
}

/// Puts records in the order of the keys they come with: ascending in the
/// order of byte strings, records of equal keys in the order in which they
/// came. The result holds the same records, each as often as it was given.
pub fn list_by_keys(entries: Vec<(Vec<u8>, Link)>) -> (listing: Vec<Link>)
    ensures
        is_ordered_by_keys(keyed(entries@), records(listing@)),
{
    let ghost all = keyed(entries@);
    let ghost links = all.map_values(|e: (Seq<u8>, LinkView)| e.1);
    let mut rest = entries;
    let mut listing: Vec<Link> = Vec::new();
    let mut keys: Vec<Vec<u8>> = Vec::new();
    let ghost mut origin: Seq<int> = Seq::empty();
    proof {
        assert(records(listing@) =~= Seq::<LinkView>::empty());
        lemma_empty_multiset(records(listing@));
        assert(all.take(all.len() as int) =~= all);
        assert(links.take(links.len() as int) =~= links);
        assert(links.to_multiset().add(records(listing@).to_multiset()) =~= links.to_multiset());
    }
    while rest.len() > 0
        invariant
            links == all.map_values(|e: (Seq<u8>, LinkView)| e.1),
            rest.len() + listing.len() == all.len(),
            keyed(rest@) == all.take(rest.len() as int),
            links.take(rest.len() as int).to_multiset().add(records(listing@).to_multiset())
                == links.to_multiset(),
            keys.len() == listing.len(),
            origin.len() == listing.len(),
            forall|i: int|
                0 <= i < listing.len() ==> rest.len() <= #[trigger] origin[i] < all.len()
                    && listing[i]@ == all[origin[i]].1 && keys[i]@ == all[origin[i]].0,
            forall|i: int, j: int|
                0 <= i < j < listing.len() ==> #[trigger] origin[i] != #[trigger] origin[j],
            forall|i: int, j: int|
                0 <= i < j < keys.len() ==> lex_le((#[trigger] keys[i])@, (#[trigger] keys[j])@),
            forall|i: int, j: int|
                0 <= i < j < listing.len() && lex_le(keys[j]@, keys[i]@) ==> #[trigger] origin[i]
                    < #[trigger] origin[j],
        decreases rest.len(),
    {
        let ghost before = records(listing@);
        let ghost keys_before = keys@;
        let ghost origin_before = origin;
        let ghost rest_before = keyed(rest@);
        let (key, link) = rest.pop().unwrap();
        let ghost place = rest.len() as int;
        let mut at: usize = 0;
        while at < keys.len() && !bytes_le(key.as_slice(), keys[at].as_slice())
            invariant
                at <= keys.len(),
                forall|j: int| 0 <= j < at ==> !lex_le(key@, (#[trigger] keys[j])@),
            decreases keys.len() - at,
        {
            at += 1;
        }
        let ghost entry = link@;
        let ghost key_bytes = key@;
        listing.insert(at, link);
        keys.insert(at, key);
        proof {
            origin = origin_before.insert(at as int, place);
            let after = records(listing@);
            assert(after =~= before.insert(at as int, entry));
            assert((key_bytes, entry) == all[place]) by {
                assert(rest_before[place] == all.take(place + 1)[place]);
            }
            assert(keyed(rest@) =~= all.take(place));
            assert(links.take(place + 1) =~= links.take(place).push(entry));
            to_multiset_build(links.take(place), entry);
            lemma_insert_multiset(before, at as int, entry);
            assert(links.take(place).to_multiset().add(after.to_multiset())
                =~= links.to_multiset());
            assert forall|i: int| 0 <= i < listing.len() implies rest.len() <= #[trigger] origin[i]
                < all.len() && listing[i]@ == all[origin[i]].1 && keys[i]@ == all[origin[i]].0 by {
                if i < at {
                    assert(origin[i] == origin_before[i] && after[i] == before[i]);
                    assert(keys[i] == keys_before[i]);
                } else if i > at {
                    assert(origin[i] == origin_before[i - 1] && after[i] == before[i - 1]);
                    assert(keys[i] == keys_before[i - 1]);
                }
            }
            assert forall|i: int, j: int| 0 <= i < j < keys.len() implies lex_le(
                (#[trigger] keys[i])@,
                (#[trigger] keys[j])@,
            ) by {
                let oi = if i < at { i } else { i - 1 };
                let oj = if j < at { j } else { j - 1 };
                if i != at && j != at {
                    assert(keys[i] == keys_before[oi] && keys[j] == keys_before[oj]);
                } else if i == at {
                    assert(keys[j] == keys_before[oj]);
                    if oj > at {
                        lemma_lex_transitive(key_bytes, keys_before[at as int]@, keys_before[oj]@);
                    }
                } else {
                    assert(keys[i] == keys_before[i]);
                    lemma_lex_total(key_bytes, keys_before[i]@);
                }
            }
            assert forall|i: int, j: int| 0 <= i < j < listing.len() implies #[trigger] origin[i]
                != #[trigger] origin[j] && (lex_le(keys[j]@, keys[i]@) ==> origin[i]
                < origin[j]) by {
                let oi = if i < at { i } else { i - 1 };
                let oj = if j < at { j } else { j - 1 };
                if i != at && j != at {
                    assert(origin[i] == origin_before[oi] && origin[j] == origin_before[oj]);
                    assert(keys[i] == keys_before[oi] && keys[j] == keys_before[oj]);
                } else if i == at {
                    assert(origin[j] == origin_before[oj]);
                } else {
                    assert(origin[i] == origin_before[i] && keys[i] == keys_before[i]);
                }
            }
        }
    }
    proof {
        assert(links.take(0) =~= Seq::<LinkView>::empty());
        lemma_empty_multiset(links.take(0));
        assert(links.take(0).to_multiset().add(records(listing@).to_multiset()) =~= records(
            listing@,
        ).to_multiset());
        assert(orders(all, records(listing@), origin));
    }
    listing
}

/// Puts records in listing order: ascending by name, case disregarded,
/// records of equal names in the order in which they came. The result holds
/// the same records, each as often as it was given.
pub fn list(found: Vec<Link>) -> (listing: Vec<Link>)
    ensures
        is_listing_of(records(found@), records(listing@)),
{
    let mut entries: Vec<(Vec<u8>, Link)> = Vec::new();
    let mut i: usize = 0;
    while i < found.len()
        invariant
            i <= found.len(),
            entries.len() == i,
            forall|k: int|
                0 <= k < i ==> (#[trigger] entries[k]).1@ == found[k]@ && entries[k].0@
                    == sort_key(found[k]@.name),
        decreases found.len() - i,
    {
        let link = found[i].clone();
        let low = to_lowercase(link.name.as_str());
        let key = low.as_str().as_bytes_vec();
        entries.push((key, link));
        i += 1;
    }
    let ghost given = keyed(entries@);
    let ghost all = records(found@);
    let listing = list_by_keys(entries);
    proof {
        let out = records(listing@);
        assert(given.map_values(|e: (Seq<u8>, LinkView)| e.1) =~= all);
        let origin = choose|origin: Seq<int>| orders(given, out, origin);
        assert(orders(given, out, origin));
        assert forall|a: int, b: int| 0 <= a <= b < out.len() implies name_le(out[a], out[b]) by {
            assert(given[origin[a]].0 == sort_key(out[a].name));
            assert(given[origin[b]].0 == sort_key(out[b].name));
            if a == b {
                lemma_lex_total(sort_key(out[a].name), sort_key(out[a].name));
            }
        }
        assert forall|a: int, b: int|
            0 <= a < b < out.len() && name_le(out[b], out[a]) implies #[trigger] origin[a]
            < #[trigger] origin[b] by {
            assert(given[origin[a]].0 == sort_key(out[a].name));
            assert(given[origin[b]].0 == sort_key(out[b].name));
        }
        assert forall|a: int| 0 <= a < out.len() implies 0 <= #[trigger] origin[a] < all.len()
            && out[a] == all[origin[a]] by {
            assert(given[origin[a]].1 == all[origin[a]]);
        }
        assert(keeps_ties(all, out, origin));
    }
    listing
}

/// Reading a short code under which the service holds nothing fails with
/// `NotFound`, whatever else the service holds.
pub proof fn lemma_get_absent(contents: Contents, code: Seq<char>, reply: StoreReplyView)
    requires
        !contents.contains_key(code),
        answers(contents, StoreCommandView::ReadRecord(code), reply),
    ensures
        get_outcome(reply) == Err::<LinkView, DirectoryError>(DirectoryError::NotFound),
{
}

/// Once a short code has been removed, reading it fails with `NotFound`,
/// whether or not there was anything under it before.
pub proof fn lemma_get_after_delete(
    contents: Contents,
    code: Seq<char>,
    after: Contents,
    reply: StoreReplyView,
)
    requires
        leaves(contents, StoreCommandView::Delete(code), after),
        answers(after, StoreCommandView::ReadRecord(code), reply),
    ensures
        get_outcome(reply) == Err::<LinkView, DirectoryError>(DirectoryError::NotFound),
{
}

/// The keys of a listing are the keys that the service holds, less the
/// reserved ones: no reserved key is among them, however many links there
/// are, and no link is left out.
pub proof fn lemma_listed_keys(contents: Contents, keys: Seq<Seq<char>>)
    requires
        answers(contents, StoreCommandView::ListKeys, StoreReplyView::Keys(keys)),
    ensures
        forall|key: Seq<char>|
            listed(keys).contains(key) <==> contents.contains_key(key) && !is_reserved(key),
        !listed(keys).contains(credentials_key()),
        !listed(keys).contains(legacy_credentials_key()),
{
    let wanted = |key: Seq<char>| !is_reserved(key);
    assert forall|key: Seq<char>|
        listed(keys).contains(key) <==> contents.contains_key(key) && !is_reserved(key) by {
        if listed(keys).contains(key) {
            let i = choose|i: int| 0 <= i < listed(keys).len() && listed(keys)[i] == key;
            keys.lemma_filter_pred(wanted, i);
            keys.lemma_filter_contains_rev(wanted, key);
        }
        if contents.contains_key(key) && !is_reserved(key) {
            assert(keys.contains(key));
            let i = choose|i: int| 0 <= i < keys.len() && keys[i] == key;
            keys.lemma_filter_contains(wanted, i);
        }
    }
}

/// Keys that came without repetition are listed without repetition.
pub proof fn lemma_listed_without_repetition(keys: Seq<Seq<char>>)
    requires
        keys.no_duplicates(),
    ensures
        listed(keys).no_duplicates(),
    decreases keys.len(),
{
    let wanted = |key: Seq<char>| !is_reserved(key);
    reveal(Seq::filter);
    if keys.len() > 0 {
        let head = keys.drop_last();
        lemma_listed_without_repetition(head);
        if wanted(keys.last()) {
            if head.filter(wanted).contains(keys.last()) {
                head.lemma_filter_contains_rev(wanted, keys.last());
                let i = choose|i: int| 0 <= i < head.len() && head[i] == keys.last();
                assert(keys[i] == keys[keys.len() - 1]);
            }
            let kept = head.filter(wanted);
            assert forall|i: int, j: int|
                0 <= i < kept.len() + 1 && 0 <= j < kept.len() + 1 && i != j implies kept.push(
                keys.last(),
            )[i] != kept.push(keys.last())[j] by {
                if i == kept.len() {
                    assert(kept.contains(kept[j]));
                } else if j == kept.len() {
                    assert(kept.contains(kept[i]));
                }
            }
        }
    }
}

/// A record that has been written is there to be read: reading its short
/// code afterwards does not fail with `NotFound`. What the read yields beyond
/// that is for whoever turns records into bytes and back.
pub proof fn lemma_written_is_not_missing(
    contents: Contents,
    link: LinkView,
    after: Contents,
    reply: StoreReplyView,
)
    requires
        leaves(contents, StoreCommandView::WriteRecord(link), after),
        answers(after, StoreCommandView::ReadRecord(link.short_url), reply),
    ensures
        reply is Record || reply is Undecodable,
        get_outcome(reply) != Err::<LinkView, DirectoryError>(DirectoryError::NotFound),
{
}

} // verus!
