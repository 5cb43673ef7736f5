use vstd::prelude::*;

use crate::address::{AddressView, valid_id};
use crate::codec::{
    ContentType, header_wf, lemma_tags_recognised, spec_content_type, spec_encode_signed,
    spec_encode_tagged,
};

verus! {

// Every operation that reads the transport scans an unordered, shared
// record set: records of other tenants, of other channels, of other
// message kinds, or simply malformed, sit between the ones that matter.
// The predicates here say which records a scan accepts; the folds say
// what a whole scan yields.  A record that any predicate rejects is
// skipped, never fatal.

/// A verified announcement of the channel at `channel` with message id
/// `annmsgid`: the record's own id is the announcement's, and the
/// identity it carries is the one the channel address is derived from.
pub open spec fn is_announce_for(r: Seq<Seq<char>>, channel: Seq<char>, annmsgid: Seq<char>) -> bool {
    header_wf(r) && spec_content_type(r[1]) == ContentType::Announce && r[2] == annmsgid && r[5]
        == channel
}

/// A well-formed subscription request chained from the channel's
/// announcement, carrying a grammatical subscriber key.
pub open spec fn is_subscribe_for(
    r: Seq<Seq<char>>,
    channel: Seq<char>,
    annmsgid: Seq<char>,
) -> bool {
    header_wf(r) && spec_content_type(r[1]) == ContentType::Subscribe && r[3] == channel && r[4]
        == annmsgid && valid_id(r[5])
}

/// A well-formed leave notice for the channel.
pub open spec fn is_unsubscribe_for(r: Seq<Seq<char>>, channel: Seq<char>) -> bool {
    header_wf(r) && spec_content_type(r[1]) == ContentType::Unsubscribe && r[3] == channel
        && valid_id(r[5])
}

/// A keyload issued by the channel's author, chained from its
/// announcement, with a whole number of wrapped-key entries.
pub open spec fn is_keyload_for(
    r: Seq<Seq<char>>,
    channel: Seq<char>,
    annmsgid: Seq<char>,
    author: Seq<char>,
) -> bool {
    header_wf(r) && spec_content_type(r[1]) == ContentType::Keyload && r.len() >= 7 && (r.len()
        - 7) % 2 == 0 && r[3] == channel && r[4] == annmsgid && r[5] == author
}

/// The (subscriber identity, wrapped key) entries a keyload carries.
pub open spec fn keyload_entries(r: Seq<Seq<char>>) -> Seq<(Seq<char>, Seq<char>)>
    recommends
        r.len() >= 7,
{
    Seq::new(((r.len() - 7) / 2) as nat, |i: int| (r[7 + 2 * i], r[8 + 2 * i]))
}

/// The key wrapped for `me` by the first entry addressed to `me`.
pub open spec fn first_wrapped(es: Seq<(Seq<char>, Seq<char>)>, me: Seq<char>) -> Option<Seq<char>>
    decreases es.len(),
{
    if es.len() == 0 {
        None
    } else if es[0].0 == me {
        Some(es[0].1)
    } else {
        first_wrapped(es.drop_first(), me)
    }
}

/// A signed packet of this channel: chained from the announcement and
/// carrying the author's identity as its preamble.
pub open spec fn is_signed_for(
    r: Seq<Seq<char>>,
    channel: Seq<char>,
    annmsgid: Seq<char>,
    author: Seq<char>,
) -> bool {
    header_wf(r) && spec_content_type(r[1]) == ContentType::SignedPacket && r.len() >= 8 && r[3]
        == channel && r[4] == annmsgid && r[5] == author
}

/// A tagged packet of this channel whose session key tag is `session`:
/// only a reader holding that session key can open it.
pub open spec fn is_tagged_under(r: Seq<Seq<char>>, channel: Seq<char>, session: Seq<char>) -> bool {
    header_wf(r) && spec_content_type(r[1]) == ContentType::TaggedPacket && r.len() >= 9 && r[3]
        == channel && r[6] == session
}

/// The position of the first element a single-result scan accepts.
pub open spec fn first_index<T>(rs: Seq<T>, p: spec_fn(T) -> bool) -> Option<int>
    decreases rs.len(),
{
    if rs.len() == 0 {
        None
    } else if p(rs[0]) {
        Some(0)
    } else {
        match first_index(rs.drop_first(), p) {
            None => None,
            Some(j) => Some(j + 1),
        }
    }
}

/// The first acceptable record is the one the scan lands on.
pub proof fn lemma_first_index_at<T>(rs: Seq<T>, p: spec_fn(T) -> bool, i: int)
    requires
        0 <= i < rs.len(),
        p(rs[i]),
        forall|j: int| 0 <= j < i ==> !p(#[trigger] rs[j]),
    ensures
        first_index(rs, p) == Some(i),
    decreases i,
{
    if i > 0 {
        assert(forall|j: int|
            0 <= j < rs.drop_first().len() ==> rs.drop_first()[j] == rs[j + 1]);
        lemma_first_index_at(rs.drop_first(), p, i - 1);
    }
}

/// Scan robustness: in a record set holding exactly one acceptable
/// record among any number of malformed or foreign ones, the scan finds
/// that record and ignores every other.
pub proof fn lemma_scan_finds_unique<T>(rs: Seq<T>, p: spec_fn(T) -> bool, i: int)
    requires
        0 <= i < rs.len(),
        p(rs[i]),
        forall|j: int| 0 <= j < rs.len() && j != i ==> !p(#[trigger] rs[j]),
    ensures
        first_index(rs, p) == Some(i),
{
    lemma_first_index_at(rs, p, i);
}

/// The first entry addressed to `me` is the one the lookup lands on.
pub proof fn lemma_first_wrapped_at(es: Seq<(Seq<char>, Seq<char>)>, me: Seq<char>, k: int)
    requires
        0 <= k < es.len(),
        es[k].0 == me,
        forall|m: int| 0 <= m < k ==> (#[trigger] es[m]).0 != me,
    ensures
        first_wrapped(es, me) == Some(es[k].1),
    decreases k,
{
    if k > 0 {
        assert(forall|m: int|
            0 <= m < es.drop_first().len() ==> es.drop_first()[m] == es[m + 1]);
        lemma_first_wrapped_at(es.drop_first(), me, k - 1);
    }
}

/// A keyload with no entry addressed to `me` wraps nothing for `me`.
pub proof fn lemma_first_wrapped_none(es: Seq<(Seq<char>, Seq<char>)>, me: Seq<char>)
    requires
        forall|m: int| 0 <= m < es.len() ==> (#[trigger] es[m]).0 != me,
    ensures
        first_wrapped(es, me) is None,
    decreases es.len(),
{
    if es.len() > 0 {
        assert(forall|m: int|
            0 <= m < es.drop_first().len() ==> es.drop_first()[m] == es[m + 1]);
        lemma_first_wrapped_none(es.drop_first(), me);
    }
}

/// A keyload the reader `me` can use: issued for this channel and
/// wrapping the session key for `me`.
pub open spec fn is_keyload_usable(
    r: Seq<Seq<char>>,
    channel: Seq<char>,
    annmsgid: Seq<char>,
    author: Seq<char>,
    me: Seq<char>,
) -> bool {
    is_keyload_for(r, channel, annmsgid, author) && first_wrapped(keyload_entries(r), me) is Some
}

/// The position of the first verified announcement in a fetched set.
pub open spec fn announce_index(
    rs: Seq<Seq<Seq<char>>>,
    channel: Seq<char>,
    annmsgid: Seq<char>,
) -> Option<int>
    decreases rs.len(),
{
    if rs.len() == 0 {
        None
    } else if is_announce_for(rs[0], channel, annmsgid) {
        Some(0)
    } else {
        match announce_index(rs.drop_first(), channel, annmsgid) {
            None => None,
            Some(j) => Some(j + 1),
        }
    }
}

/// The position of the first well-formed subscription in a fetched set.
pub open spec fn subscribe_index(
    rs: Seq<Seq<Seq<char>>>,
    channel: Seq<char>,
    annmsgid: Seq<char>,
) -> Option<int>
    decreases rs.len(),
{
    if rs.len() == 0 {
        None
    } else if is_subscribe_for(rs[0], channel, annmsgid) {
        Some(0)
    } else {
        match subscribe_index(rs.drop_first(), channel, annmsgid) {
            None => None,
            Some(j) => Some(j + 1),
        }
    }
}

/// The position of the first well-formed leave notice in a fetched set.
pub open spec fn unsubscribe_index(rs: Seq<Seq<Seq<char>>>, channel: Seq<char>) -> Option<int>
    decreases rs.len(),
{
    if rs.len() == 0 {
        None
    } else if is_unsubscribe_for(rs[0], channel) {
        Some(0)
    } else {
        match unsubscribe_index(rs.drop_first(), channel) {
            None => None,
            Some(j) => Some(j + 1),
        }
    }
}

/// The position of the first keyload the reader `me` can use.
pub open spec fn keyload_index(
    rs: Seq<Seq<Seq<char>>>,
    channel: Seq<char>,
    annmsgid: Seq<char>,
    author: Seq<char>,
    me: Seq<char>,
) -> Option<int>
    decreases rs.len(),
{
    if rs.len() == 0 {
        None
    } else if is_keyload_usable(rs[0], channel, annmsgid, author, me) {
        Some(0)
    } else {
        match keyload_index(rs.drop_first(), channel, annmsgid, author, me) {
            None => None,
            Some(j) => Some(j + 1),
        }
    }
}

/// The position of a key in the author's ordered subscriber set.
pub open spec fn key_index(subs: Seq<Seq<char>>, key: Seq<char>) -> Option<int>
    decreases subs.len(),
{
    if subs.len() == 0 {
        None
    } else if subs[0] == key {
        Some(0)
    } else {
        match key_index(subs.drop_first(), key) {
            None => None,
            Some(j) => Some(j + 1),
        }
    }
}

/// The payload pairs a connected reader gathers from the channel's
/// signed packets, in the order the transport returned the records.
pub open spec fn signed_pairs(
    rs: Seq<Seq<Seq<char>>>,
    channel: Seq<char>,
    annmsgid: Seq<char>,
    author: Seq<char>,
) -> Seq<(Seq<char>, Seq<char>)>
    decreases rs.len(),
{
    if rs.len() == 0 {
        Seq::empty()
    } else {
        let rest = signed_pairs(rs.drop_last(), channel, annmsgid, author);
        if is_signed_for(rs.last(), channel, annmsgid, author) {
            rest.push((rs.last()[6], rs.last()[7]))
        } else {
            rest
        }
    }
}

/// The payload pairs a reader holding session key `session` gathers
/// from the channel's tagged packets.
pub open spec fn tagged_pairs(
    rs: Seq<Seq<Seq<char>>>,
    channel: Seq<char>,
    session: Seq<char>,
) -> Seq<(Seq<char>, Seq<char>)>
    decreases rs.len(),
{
    if rs.len() == 0 {
        Seq::empty()
    } else {
        let rest = tagged_pairs(rs.drop_last(), channel, session);
        if is_tagged_under(rs.last(), channel, session) {
            rest.push((rs.last()[7], rs.last()[8]))
        } else {
            rest
        }
    }
}

/// Round trip: a signed packet the author frames for the channel joins
/// the end of what a connected reader of that channel gathers, whatever
/// else the record set holds.
pub proof fn lemma_signed_round_trip(
    rs: Seq<Seq<Seq<char>>>,
    channel: Seq<char>,
    annmsgid: Seq<char>,
    author: Seq<char>,
    msgid: Seq<char>,
    public: Seq<char>,
    masked: Seq<char>,
)
    ensures
        signed_pairs(
            rs.push(
                spec_encode_signed(
                    msgid,
                    AddressView { appinst: channel, msgid: annmsgid },
                    author,
                    public,
                    masked,
                ),
            ),
            channel,
            annmsgid,
            author,
        ) == signed_pairs(rs, channel, annmsgid, author).push((public, masked)),
{
    lemma_tags_recognised();
    let e = spec_encode_signed(
        msgid,
        AddressView { appinst: channel, msgid: annmsgid },
        author,
        public,
        masked,
    );
    assert(rs.push(e).drop_last() =~= rs);
    assert(is_signed_for(e, channel, annmsgid, author));
    assert(e[6] == public && e[7] == masked);
}

/// Keyload gating: a tagged packet framed under one session key adds
/// nothing to what a reader holding a different key gathers, and joins
/// what a reader holding that very key gathers.
pub proof fn lemma_keyload_gates_tagged(
    rs: Seq<Seq<Seq<char>>>,
    channel: Seq<char>,
    msgid: Seq<char>,
    prev: AddressView,
    sender: Seq<char>,
    written: Seq<char>,
    held: Seq<char>,
    public: Seq<char>,
    masked: Seq<char>,
)
    requires
        prev.appinst == channel,
    ensures
        held != written ==> tagged_pairs(
            rs.push(spec_encode_tagged(msgid, prev, sender, written, public, masked)),
            channel,
            held,
        ) == tagged_pairs(rs, channel, held),
        held == written ==> tagged_pairs(
            rs.push(spec_encode_tagged(msgid, prev, sender, written, public, masked)),
            channel,
            held,
        ) == tagged_pairs(rs, channel, held).push((public, masked)),
{
    lemma_tags_recognised();
    let e = spec_encode_tagged(msgid, prev, sender, written, public, masked);
    assert(rs.push(e).drop_last() =~= rs);
    assert(e[6] == written && e[7] == public && e[8] == masked);
}


/// Characterisation lemmas for the per-kind first-match functions: the
/// scan lands on the first acceptable record, and on nothing when no
/// record is acceptable.  Each is proved by the induction the
/// definitions share.
pub proof fn lemma_announce_index_at(
    rs: Seq<Seq<Seq<char>>>,
    channel: Seq<char>,
    annmsgid: Seq<char>,
    i: int,
)
    requires
        0 <= i < rs.len(),
        is_announce_for(rs[i], channel, annmsgid),
        forall|j: int| 0 <= j < i ==> !is_announce_for(#[trigger] rs[j], channel, annmsgid),
    ensures
        announce_index(rs, channel, annmsgid) == Some(i),
    decreases i,
{
    if i > 0 {
        assert(forall|j: int|
            0 <= j < rs.drop_first().len() ==> rs.drop_first()[j] == rs[j + 1]);
        lemma_announce_index_at(rs.drop_first(), channel, annmsgid, i - 1);
    }
}

pub proof fn lemma_announce_index_none(
    rs: Seq<Seq<Seq<char>>>,
    channel: Seq<char>,
    annmsgid: Seq<char>,
)
    requires
        forall|j: int| 0 <= j < rs.len() ==> !is_announce_for(#[trigger] rs[j], channel, annmsgid),
    ensures
        announce_index(rs, channel, annmsgid) is None,
    decreases rs.len(),
{
    if rs.len() > 0 {
        assert(forall|j: int|
            0 <= j < rs.drop_first().len() ==> rs.drop_first()[j] == rs[j + 1]);
        lemma_announce_index_none(rs.drop_first(), channel, annmsgid);
    }
}

pub proof fn lemma_subscribe_index_at(
    rs: Seq<Seq<Seq<char>>>,
    channel: Seq<char>,
    annmsgid: Seq<char>,
    i: int,
)
    requires
        0 <= i < rs.len(),
        is_subscribe_for(rs[i], channel, annmsgid),
        forall|j: int| 0 <= j < i ==> !is_subscribe_for(#[trigger] rs[j], channel, annmsgid),
    ensures
        subscribe_index(rs, channel, annmsgid) == Some(i),
    decreases i,
{
    if i > 0 {
        assert(forall|j: int|
            0 <= j < rs.drop_first().len() ==> rs.drop_first()[j] == rs[j + 1]);
        lemma_subscribe_index_at(rs.drop_first(), channel, annmsgid, i - 1);
    }
}

pub proof fn lemma_subscribe_index_none(
    rs: Seq<Seq<Seq<char>>>,
    channel: Seq<char>,
    annmsgid: Seq<char>,
)
    requires
        forall|j: int| 0 <= j < rs.len() ==> !is_subscribe_for(#[trigger] rs[j], channel, annmsgid),
    ensures
        subscribe_index(rs, channel, annmsgid) is None,
    decreases rs.len(),
{
    if rs.len() > 0 {
        assert(forall|j: int|
            0 <= j < rs.drop_first().len() ==> rs.drop_first()[j] == rs[j + 1]);
        lemma_subscribe_index_none(rs.drop_first(), channel, annmsgid);
    }
}

pub proof fn lemma_unsubscribe_index_at(rs: Seq<Seq<Seq<char>>>, channel: Seq<char>, i: int)
    requires
        0 <= i < rs.len(),
        is_unsubscribe_for(rs[i], channel),
        forall|j: int| 0 <= j < i ==> !is_unsubscribe_for(#[trigger] rs[j], channel),
    ensures
        unsubscribe_index(rs, channel) == Some(i),
    decreases i,
{
    if i > 0 {
        assert(forall|j: int|
            0 <= j < rs.drop_first().len() ==> rs.drop_first()[j] == rs[j + 1]);
        lemma_unsubscribe_index_at(rs.drop_first(), channel, i - 1);
    }
}

pub proof fn lemma_unsubscribe_index_none(rs: Seq<Seq<Seq<char>>>, channel: Seq<char>)
    requires
        forall|j: int| 0 <= j < rs.len() ==> !is_unsubscribe_for(#[trigger] rs[j], channel),
    ensures
        unsubscribe_index(rs, channel) is None,
    decreases rs.len(),
{
    if rs.len() > 0 {
        assert(forall|j: int|
            0 <= j < rs.drop_first().len() ==> rs.drop_first()[j] == rs[j + 1]);
        lemma_unsubscribe_index_none(rs.drop_first(), channel);
    }
}

pub proof fn lemma_keyload_index_at(
    rs: Seq<Seq<Seq<char>>>,
    channel: Seq<char>,
    annmsgid: Seq<char>,
    author: Seq<char>,
    me: Seq<char>,
    i: int,
)
    requires
        0 <= i < rs.len(),
        is_keyload_usable(rs[i], channel, annmsgid, author, me),
        forall|j: int|
            0 <= j < i ==> !is_keyload_usable(#[trigger] rs[j], channel, annmsgid, author, me),
    ensures
        keyload_index(rs, channel, annmsgid, author, me) == Some(i),
    decreases i,
{
    if i > 0 {
        assert(forall|j: int|
            0 <= j < rs.drop_first().len() ==> rs.drop_first()[j] == rs[j + 1]);
        lemma_keyload_index_at(rs.drop_first(), channel, annmsgid, author, me, i - 1);
    }
}

pub proof fn lemma_keyload_index_none(
    rs: Seq<Seq<Seq<char>>>,
    channel: Seq<char>,
    annmsgid: Seq<char>,
    author: Seq<char>,
    me: Seq<char>,
)
    requires
        forall|j: int|
            0 <= j < rs.len() ==> !is_keyload_usable(
                #[trigger] rs[j],
                channel,
                annmsgid,
                author,
                me,
            ),
    ensures
        keyload_index(rs, channel, annmsgid, author, me) is None,
    decreases rs.len(),
{
    if rs.len() > 0 {
        assert(forall|j: int|
            0 <= j < rs.drop_first().len() ==> rs.drop_first()[j] == rs[j + 1]);
        lemma_keyload_index_none(rs.drop_first(), channel, annmsgid, author, me);
    }
}

pub proof fn lemma_key_index_at(subs: Seq<Seq<char>>, key: Seq<char>, i: int)
    requires
        0 <= i < subs.len(),
        subs[i] == key,
        forall|j: int| 0 <= j < i ==> #[trigger] subs[j] != key,
    ensures
        key_index(subs, key) == Some(i),
    decreases i,
{
    if i > 0 {
        assert(forall|j: int|
            0 <= j < subs.drop_first().len() ==> subs.drop_first()[j] == subs[j + 1]);
        lemma_key_index_at(subs.drop_first(), key, i - 1);
    }
}

pub proof fn lemma_key_index_none(subs: Seq<Seq<char>>, key: Seq<char>)
    requires
        forall|j: int| 0 <= j < subs.len() ==> #[trigger] subs[j] != key,
    ensures
        key_index(subs, key) is None,
    decreases subs.len(),
{
    if subs.len() > 0 {
        assert(forall|j: int|
            0 <= j < subs.drop_first().len() ==> subs.drop_first()[j] == subs[j + 1]);
        lemma_key_index_none(subs.drop_first(), key);
    }
}


/// A key has a position in the set exactly when the set contains it.
pub proof fn lemma_key_index_contains(subs: Seq<Seq<char>>, key: Seq<char>)
    ensures
        (key_index(subs, key) is Some) == subs.contains(key),
    decreases subs.len(),
{
    if subs.len() > 0 {
        assert(forall|j: int|
            0 <= j < subs.drop_first().len() ==> subs.drop_first()[j] == subs[j + 1]);
        lemma_key_index_contains(subs.drop_first(), key);
        if subs[0] == key {
            assert(subs.contains(key));
        } else {
            if subs.drop_first().contains(key) {
                let w = choose|j: int|
                    0 <= j < subs.drop_first().len() && subs.drop_first()[j] == key;
                assert(subs[w + 1] == key);
                assert(subs.contains(key));
            }
            if subs.contains(key) {
                let w = choose|j: int| 0 <= j < subs.len() && subs[j] == key;
                assert(subs.drop_first()[w - 1] == key);
                assert(subs.drop_first().contains(key));
            }
        }
    }
}

} // verus!
