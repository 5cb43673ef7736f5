use vstd::prelude::*;

use crate::address::{Address, AddressView, is_valid_id, valid_address, valid_id};
use crate::codec::{
    ContentType, KeyloadEntry, KeyloadEntryView, encode_announce, encode_keyload, encode_signed,
    encode_tagged, parse_header, spec_encode_announce, spec_encode_keyload, spec_encode_signed,
    spec_encode_tagged,
};
use crate::errors::ChannelError;
use crate::identity::{
    derive_identity, lemma_identity_valid, lemma_msgid_valid, msgid_of, session_of, spec_identity,
    spec_msgid, spec_session,
};
use crate::scan::{
    is_subscribe_for, is_unsubscribe_for, key_index, lemma_key_index_at, lemma_key_index_none,
    lemma_subscribe_index_at, lemma_subscribe_index_none, lemma_unsubscribe_index_at,
    lemma_unsubscribe_index_none, subscribe_index, unsubscribe_index,
};
use crate::transport::{StoredRecordView, Transport, records_at, recv_messages, send_message};

verus! {

/// Transport tuning handed along with every send: the proof-of-work
/// difficulty the node asks for, and whether the sender computes the
/// work locally before handing the message over.  Opaque to the
/// protocol core; the transport behind the store consumes it.
pub struct SendOptions {
    pub min_weight_magnitude: u64,
    pub local_pow: bool,
}

impl Default for SendOptions {
    /// The tuning the author role starts from: modest difficulty,
    /// work deferred to the node.
    fn default() -> (r: SendOptions)
        ensures
            r.min_weight_magnitude == 9,
            !r.local_pow,
    {
        SendOptions { min_weight_magnitude: 9, local_pow: false }
    }
}

/// The mathematical value of an author-side [`Channel`].
pub ghost struct AuthorView {
    pub identity: Seq<char>,
    pub channel_address: Seq<char>,
    pub seqno: int,
    pub announced: bool,
    pub announcement_link: AddressView,
    pub has_keyload: bool,
    pub keyload_link: AddressView,
    pub session_key: Seq<char>,
    pub subscribers: Seq<Seq<char>>,
}

/// The author side of a channel: it owns the channel identity, admits
/// and revokes subscribers, and publishes signed and tagged packets.
pub struct Channel {
    identity: String,
    channel_address: String,
    seqno: u64,
    announced: bool,
    announcement_link: Address,
    has_keyload: bool,
    keyload_link: Address,
    session_key: String,
    subscribers: Vec<String>,
    security_depth: u64,
    send_options: SendOptions,
}

impl View for Channel {
    type V = AuthorView;

    closed spec fn view(&self) -> AuthorView {
        AuthorView {
            identity: self.identity@,
            channel_address: self.channel_address@,
            seqno: self.seqno as int,
            announced: self.announced,
            announcement_link: self.announcement_link@,
            has_keyload: self.has_keyload,
            keyload_link: self.keyload_link@,
            session_key: self.session_key@,
            subscribers: self.subscribers.deep_view(),
        }
    }
}

/// Inserting an admitted subscriber key: a key already admitted stays
/// where it is; a new one joins at the end of the ordered set.
pub open spec fn insert_subscriber(subs: Seq<Seq<char>>, key: Seq<char>) -> Seq<Seq<char>> {
    if subs.contains(key) {
        subs
    } else {
        subs.push(key)
    }
}

/// The keyload entries covering the whole subscriber set: the session
/// key wrapped once for each admitted subscriber, in admission order.
pub open spec fn entries_for(subs: Seq<Seq<char>>, session: Seq<char>) -> Seq<KeyloadEntryView> {
    subs.map_values(|s: Seq<char>| KeyloadEntryView { subscriber: s, wrapped: session })
}

impl Channel {
    /// The author's state keeps to the protocol's shape: a grammatical
    /// identity the channel address is derived from, links that live on
    /// the channel's own instance, and grammatical subscriber keys.
    pub closed spec fn wf(&self) -> bool {
        &&& valid_id(self@.identity)
        &&& self@.channel_address == self@.identity
        &&& (self@.announced ==> valid_address(self@.announcement_link)
            && self@.announcement_link.appinst == self@.channel_address)
        &&& (self@.has_keyload ==> self@.announced && valid_address(self@.keyload_link)
            && self@.keyload_link.appinst == self@.channel_address)
        &&& (forall|i: int|
            0 <= i < self@.subscribers.len() ==> valid_id(#[trigger] self@.subscribers[i]))
        &&& (forall|i: int, j: int|
            0 <= i < j < self@.subscribers.len() ==> self@.subscribers[i] != self@.subscribers[j])
    }

    /// Creates the author role from its secret seed: the public
    /// identity and with it the channel's fixed instance address are
    /// derived deterministically.  Only a seed outside the identifier
    /// grammar is refused.  The security depth and send options are
    /// configuration for the external signature scheme and transport;
    /// the core carries them opaquely.
    pub fn new(seed: &str, security_depth: u64, send_options: SendOptions) -> (r: Result<
        Channel,
        ChannelError,
    >)
        ensures
            r is Ok <==> valid_id(seed@),
            r is Err ==> r->Err_0 == ChannelError::InvalidSeed,
            r is Ok ==> {
                let c = r->Ok_0;
                c.wf() && c@.identity == spec_identity(seed@) && c@.channel_address == c@.identity
                    && c@.seqno == 0 && !c@.announced && !c@.has_keyload && c@.subscribers
                    == Seq::<Seq<char>>::empty()
            },
    {
        if !is_valid_id(seed) {
            return Err(ChannelError::InvalidSeed);
        }
        proof {
            lemma_identity_valid(seed@);
        }
        let identity = derive_identity(seed);
        let channel_address = identity.clone();
        let empty_link = Address { appinst: String::new(), msgid: String::new() };
        let c = Channel {
            identity,
            channel_address,
            seqno: 0,
            announced: false,
            announcement_link: empty_link,
            has_keyload: false,
            keyload_link: Address { appinst: String::new(), msgid: String::new() },
            session_key: String::new(),
            subscribers: Vec::new(),
            security_depth,
            send_options,
        };
        proof {
            assert(c@.subscribers =~= Seq::<Seq<char>>::empty());
        }
        Ok(c)
    }

    /// Opens the channel: builds the announcement at a fresh message id
    /// under the fixed instance address, sends it, and remembers its
    /// link as the channel's root of trust.  Returns the channel
    /// address and the announcement's message id.
    pub fn open(&mut self, transport: &mut Transport) -> (r: Result<(String, String), ChannelError>)
        requires
            old(self).wf(),
            !old(self)@.announced,
            old(self)@.seqno < u64::MAX,
        ensures
            r is Ok,
            final(self).wf(),
            final(self)@ == (AuthorView {
                seqno: old(self)@.seqno + 1,
                announced: true,
                announcement_link: (AddressView {
                    appinst: old(self)@.channel_address,
                    msgid: spec_msgid(old(self)@.seqno),
                }),
                ..old(self)@
            }),
            final(transport)@ == old(transport)@.push(
                (StoredRecordView {
                    address: old(self)@.channel_address,
                    record: spec_encode_announce(
                        spec_msgid(old(self)@.seqno),
                        final(self)@.announcement_link,
                        old(self)@.identity,
                    ),
                }),
            ),
            r->Ok_0.0@ == old(self)@.channel_address,
            r->Ok_0.1@ == spec_msgid(old(self)@.seqno),
    {
        proof {
            lemma_msgid_valid(self@.seqno);
        }
        let msgid = msgid_of(self.seqno);
        let link = Address { appinst: self.channel_address.clone(), msgid: msgid.clone() };
        let record = encode_announce(&msgid, &link, &self.identity);
        send_message(transport, &link, record);
        self.announcement_link = link;
        self.announced = true;
        self.seqno = self.seqno + 1;
        Ok((self.channel_address.clone(), msgid))
    }

    /// Admits a subscriber: fetches the records at the hinted address,
    /// scans them for the first well-formed subscription request
    /// (skipping malformed and foreign records), admits the key it
    /// carries, and answers with a fresh keyload covering every
    /// admitted subscriber — the prior members and the new one.
    /// Finding no subscription is a quiet outcome: nothing changes and
    /// an empty message id comes back.
    pub fn add_subscriber(&mut self, transport: &mut Transport, subscribe_tag: String) -> (r:
        Result<String, ChannelError>)
        requires
            old(self).wf(),
            old(self)@.announced,
            old(self)@.seqno < u64::MAX,
        ensures
            final(self).wf(),
            !valid_id(subscribe_tag@) ==> r == Err::<String, ChannelError>(
                ChannelError::InvalidLink,
            ) && final(self)@ == old(self)@ && final(transport)@ == old(transport)@,
            valid_id(subscribe_tag@) ==> r is Ok && {
                let rs = records_at(old(transport)@, old(self)@.channel_address);
                match subscribe_index(rs, old(self)@.channel_address, old(self)@.announcement_link.msgid) {
                    None => final(self)@ == old(self)@ && final(transport)@ == old(transport)@
                        && r->Ok_0@ == Seq::<char>::empty(),
                    Some(i) => {
                        let subs2 = insert_subscriber(old(self)@.subscribers, rs[i][5]);
                        let session = spec_session(old(self)@.identity, old(self)@.seqno);
                        let kmsgid = spec_msgid(old(self)@.seqno);
                        &&& final(self)@ == (AuthorView {
                            seqno: old(self)@.seqno + 1,
                            has_keyload: true,
                            keyload_link: (AddressView {
                                appinst: old(self)@.channel_address,
                                msgid: kmsgid,
                            }),
                            session_key: session,
                            subscribers: subs2,
                            ..old(self)@
                        })
                        &&& final(transport)@ == old(transport)@.push(
                            (StoredRecordView {
                                address: old(self)@.channel_address,
                                record: spec_encode_keyload(
                                    kmsgid,
                                    old(self)@.announcement_link,
                                    old(self)@.identity,
                                    session,
                                    entries_for(subs2, session),
                                ),
                            }),
                        )
                        &&& r->Ok_0@ == kmsgid
                    },
                }
            },
    {
        if !is_valid_id(subscribe_tag.as_str()) {
            return Err(ChannelError::InvalidLink);
        }
        let hint = Address { appinst: self.channel_address.clone(), msgid: subscribe_tag };
        let fetched = recv_messages(transport, &hint);
        let found = find_subscribe(&fetched, &self.channel_address, &self.announcement_link.msgid);
        match found {
            None => Ok(String::new()),
            Some(key) => {
                let ghost pre_subs = self@.subscribers;
                match position_of(&self.subscribers, &key) {
                    Some(_) => {
                        proof {
                            crate::scan::lemma_key_index_contains(pre_subs, key@);
                        }
                    }
                    None => {
                        proof {
                            crate::scan::lemma_key_index_contains(pre_subs, key@);
                        }
                        self.subscribers.push(key);
                        proof {
                            assert(self@.subscribers =~= pre_subs.push(key@));
                        }
                    }
                }
                proof {
                    assert(self@.subscribers == insert_subscriber(pre_subs, key@));
                    lemma_msgid_valid(self@.seqno);
                }
                let session = session_of(&self.identity, self.seqno);
                let msgid = msgid_of(self.seqno);
                let mut entries: Vec<KeyloadEntry> = Vec::new();
                proof {
                    assert(entries.deep_view() =~= entries_for(
                        self@.subscribers.take(0),
                        session@,
                    ));
                }
                let m = self.subscribers.len();
                let mut j: usize = 0;
                while j < m
                    invariant
                        m == self.subscribers.len(),
                        j <= m,
                        session@ == spec_session(self@.identity, self@.seqno as int),
                        entries.deep_view() == entries_for(
                            self@.subscribers.take(j as int),
                            session@,
                        ),
                    decreases m - j,
                {
                    let ghost pre_e = entries.deep_view();
                    let ghost pre_vec = entries@;
                    proof {
                        assert(pre_e.len() == self@.subscribers.take(j as int).len());
                        assert(pre_e.len() == j);
                        assert(pre_e.len() == pre_vec.len());
                    }
                    entries.push(
                        KeyloadEntry {
                            subscriber: self.subscribers[j].clone(),
                            wrapped: session.clone(),
                        },
                    );
                    proof {
                        let subs = self@.subscribers;
                        let goal = entries_for(subs.take(j as int + 1), session@);
                        assert(entries.deep_view().len() == goal.len());
                        assert forall|k: int| 0 <= k < goal.len() implies entries.deep_view()[k]
                            == goal[k] by {
                            assert(entries.deep_view()[k] == entries@[k]@);
                            assert(goal[k] == (KeyloadEntryView {
                                subscriber: subs.take(j as int + 1)[k],
                                wrapped: session@,
                            }));
                            if k < pre_vec.len() {
                                assert(entries@[k] == pre_vec[k]);
                                assert(pre_e[k] == pre_vec[k]@);
                                assert(pre_e[k] == (KeyloadEntryView {
                                    subscriber: subs.take(j as int)[k],
                                    wrapped: session@,
                                }));
                            }
                        }
                        assert(entries.deep_view() =~= goal);
                    }
                    j += 1;
                }
                proof {
                    assert(self@.subscribers.take(m as int) =~= self@.subscribers);
                }
                let link = Address { appinst: self.channel_address.clone(), msgid: msgid.clone() };
                let record = encode_keyload(
                    &msgid,
                    &self.announcement_link,
                    &self.identity,
                    &session,
                    &entries,
                );
                send_message(transport, &link, record);
                self.has_keyload = true;
                self.keyload_link = link;
                self.session_key = session;
                self.seqno = self.seqno + 1;
                Ok(msgid)
            }
        }
    }

    /// Revokes a subscriber: scans the records at the hinted address
    /// for the first well-formed leave notice and removes the matching
    /// record from the subscriber set.  No fresh keyload goes out: the
    /// session key in force stays what it was, so packets tagged under
    /// it remain open to the leaver until the next admission rotates
    /// the key.  That is the protocol's observed behaviour, kept here
    /// as a known weak point rather than silently fixed.
    pub fn remove_subscriber(&mut self, transport: &mut Transport, unsubscribe_tag: String) -> (r:
        Result<(), ChannelError>)
        requires
            old(self).wf(),
            old(self)@.announced,
        ensures
            final(self).wf(),
            final(transport)@ == old(transport)@,
            !valid_id(unsubscribe_tag@) ==> r == Err::<(), ChannelError>(ChannelError::InvalidLink)
                && final(self)@ == old(self)@,
            valid_id(unsubscribe_tag@) ==> r is Ok && {
                let rs = records_at(old(transport)@, old(self)@.channel_address);
                match unsubscribe_index(rs, old(self)@.channel_address) {
                    None => final(self)@ == old(self)@,
                    Some(i) => final(self)@ == (AuthorView {
                        subscribers: match key_index(old(self)@.subscribers, rs[i][5]) {
                            None => old(self)@.subscribers,
                            Some(j) => old(self)@.subscribers.remove(j),
                        },
                        ..old(self)@
                    }),
                }
            },
    {
        if !is_valid_id(unsubscribe_tag.as_str()) {
            return Err(ChannelError::InvalidLink);
        }
        let hint = Address { appinst: self.channel_address.clone(), msgid: unsubscribe_tag };
        let fetched = recv_messages(transport, &hint);
        let found = find_unsubscribe(&fetched, &self.channel_address);
        match found {
            None => Ok(()),
            Some(key) => {
                let ghost pre_subs = self@.subscribers;
                match position_of(&self.subscribers, &key) {
                    None => Ok(()),
                    Some(j) => {
                        self.subscribers.remove(j);
                        proof {
                            assert(self@.subscribers =~= pre_subs.remove(j as int));
                        }
                        Ok(())
                    }
                }
            }
        }
    }

    /// How many subscribers are currently admitted.
    pub fn subscriber_count(&self) -> (r: usize)
        ensures
            r == self@.subscribers.len(),
    {
        self.subscribers.len()
    }

    /// Publishes a signed packet: publicly readable payloads chained
    /// from the announcement and authenticated by the author's
    /// identity.  Returns the packet's message id.
    pub fn write_signed(
        &mut self,
        transport: &mut Transport,
        public_payload: &str,
        private_payload: &str,
    ) -> (r: Result<String, ChannelError>)
        requires
            old(self).wf(),
            old(self)@.announced,
            old(self)@.seqno < u64::MAX,
        ensures
            r is Ok,
            final(self).wf(),
            final(self)@ == (AuthorView { seqno: old(self)@.seqno + 1, ..old(self)@ }),
            final(transport)@ == old(transport)@.push(
                (StoredRecordView {
                    address: old(self)@.channel_address,
                    record: spec_encode_signed(
                        spec_msgid(old(self)@.seqno),
                        old(self)@.announcement_link,
                        old(self)@.identity,
                        public_payload@,
                        private_payload@,
                    ),
                }),
            ),
            r->Ok_0@ == spec_msgid(old(self)@.seqno),
    {
        proof {
            lemma_msgid_valid(self@.seqno);
        }
        let msgid = msgid_of(self.seqno);
        let link = Address { appinst: self.channel_address.clone(), msgid: msgid.clone() };
        let record = encode_signed(
            &msgid,
            &self.announcement_link,
            &self.identity,
            &public_payload.to_owned(),
            &private_payload.to_owned(),
        );
        send_message(transport, &link, record);
        self.seqno = self.seqno + 1;
        Ok(msgid)
    }

    /// Publishes a tagged packet: payloads gated by the current session
    /// key, chained from the current keyload.  Returns the packet's
    /// message id.
    pub fn write_tagged(
        &mut self,
        transport: &mut Transport,
        public_payload: &str,
        private_payload: &str,
    ) -> (r: Result<String, ChannelError>)
        requires
            old(self).wf(),
            old(self)@.has_keyload,
            old(self)@.seqno < u64::MAX,
        ensures
            r is Ok,
            final(self).wf(),
            final(self)@ == (AuthorView { seqno: old(self)@.seqno + 1, ..old(self)@ }),
            final(transport)@ == old(transport)@.push(
                (StoredRecordView {
                    address: old(self)@.channel_address,
                    record: spec_encode_tagged(
                        spec_msgid(old(self)@.seqno),
                        old(self)@.keyload_link,
                        old(self)@.identity,
                        old(self)@.session_key,
                        public_payload@,
                        private_payload@,
                    ),
                }),
            ),
            r->Ok_0@ == spec_msgid(old(self)@.seqno),
    {
        proof {
            lemma_msgid_valid(self@.seqno);
        }
        let msgid = msgid_of(self.seqno);
        let link = Address { appinst: self.channel_address.clone(), msgid: msgid.clone() };
        let record = encode_tagged(
            &msgid,
            &self.keyload_link,
            &self.identity,
            &self.session_key,
            &public_payload.to_owned(),
            &private_payload.to_owned(),
        );
        send_message(transport, &link, record);
        self.seqno = self.seqno + 1;
        Ok(msgid)
    }
}


/// Scans a fetched record set for the first well-formed subscription
/// request, skipping records that fail to parse or are of another
/// kind, and hands back the subscriber key it carries.
fn find_subscribe(fetched: &Vec<Vec<String>>, channel: &String, annmsgid: &String) -> (r: Option<
    String,
>)
    ensures
        match subscribe_index(fetched.deep_view(), channel@, annmsgid@) {
            None => r is None,
            Some(i) => r is Some && 0 <= i < fetched.deep_view().len() && r->0@
                == fetched.deep_view()[i][5] && is_subscribe_for(
                fetched.deep_view()[i],
                channel@,
                annmsgid@,
            ),
        },
{
    let ghost rs = fetched.deep_view();
    let n = fetched.len();
    let mut i: usize = 0;
    while i < n
        invariant
            rs == fetched.deep_view(),
            n == fetched.len(),
            i <= n,
            forall|j: int| 0 <= j < i ==> !is_subscribe_for(#[trigger] rs[j], channel@, annmsgid@),
        decreases n - i,
    {
        let ghost rv = rs[i as int];
        match parse_header(&fetched[i]) {
            Err(_) => {}
            Ok(h) => {
                if h.check_content_type(ContentType::Subscribe) && h.prev_appinst == *channel
                    && h.prev_msgid == *annmsgid && is_valid_id(h.sender.as_str()) {
                    proof {
                        assert(is_subscribe_for(rv, channel@, annmsgid@));
                        lemma_subscribe_index_at(rs, channel@, annmsgid@, i as int);
                    }
                    return Some(h.sender);
                }
            }
        }
        proof {
            assert(!is_subscribe_for(rv, channel@, annmsgid@));
        }
        i += 1;
    }
    proof {
        lemma_subscribe_index_none(rs, channel@, annmsgid@);
    }
    None
}

/// Scans a fetched record set for the first well-formed leave notice
/// and hands back the leaving subscriber's key.
fn find_unsubscribe(fetched: &Vec<Vec<String>>, channel: &String) -> (r: Option<String>)
    ensures
        match unsubscribe_index(fetched.deep_view(), channel@) {
            None => r is None,
            Some(i) => r is Some && 0 <= i < fetched.deep_view().len() && r->0@
                == fetched.deep_view()[i][5] && is_unsubscribe_for(fetched.deep_view()[i], channel@),
        },
{
    let ghost rs = fetched.deep_view();
    let n = fetched.len();
    let mut i: usize = 0;
    while i < n
        invariant
            rs == fetched.deep_view(),
            n == fetched.len(),
            i <= n,
            forall|j: int| 0 <= j < i ==> !is_unsubscribe_for(#[trigger] rs[j], channel@),
        decreases n - i,
    {
        let ghost rv = rs[i as int];
        match parse_header(&fetched[i]) {
            Err(_) => {}
            Ok(h) => {
                if h.check_content_type(ContentType::Unsubscribe) && h.prev_appinst == *channel
                    && is_valid_id(h.sender.as_str()) {
                    proof {
                        assert(is_unsubscribe_for(rv, channel@));
                        lemma_unsubscribe_index_at(rs, channel@, i as int);
                    }
                    return Some(h.sender);
                }
            }
        }
        proof {
            assert(!is_unsubscribe_for(rv, channel@));
        }
        i += 1;
    }
    proof {
        lemma_unsubscribe_index_none(rs, channel@);
    }
    None
}

/// Whether a key already stands in the ordered subscriber set, and
/// where.
fn position_of(subs: &Vec<String>, key: &String) -> (r: Option<usize>)
    ensures
        match key_index(subs.deep_view(), key@) {
            None => r is None,
            Some(i) => r is Some && r->0 == i && 0 <= i < subs.deep_view().len()
                && subs.deep_view()[i] == key@,
        },
{
    let ghost sv = subs.deep_view();
    let n = subs.len();
    let mut i: usize = 0;
    while i < n
        invariant
            sv == subs.deep_view(),
            n == subs.len(),
            i <= n,
            forall|j: int| 0 <= j < i ==> #[trigger] sv[j] != key@,
        decreases n - i,
    {
        if subs[i] == *key {
            proof {
                lemma_key_index_at(sv, key@, i as int);
            }
            return Some(i);
        }
        i += 1;
    }
    proof {
        lemma_key_index_none(sv, key@);
    }
    None
}

} // verus!
