use vstd::prelude::*;

use crate::address::{Address, AddressView, is_valid_id, valid_address, valid_id};
use crate::codec::{ContentType, parse_header, spec_encode_subscribe, spec_encode_unsubscribe};
use crate::errors::ChannelError;
use crate::identity::{
    derive_identity, lemma_identity_valid, lemma_msgid_valid, msgid_of, spec_identity, spec_msgid,
};
use crate::scan::{
    announce_index, first_wrapped, is_announce_for, is_keyload_for, is_keyload_usable,
    is_signed_for, is_tagged_under, keyload_entries, keyload_index, lemma_announce_index_at,
    lemma_announce_index_none, lemma_first_wrapped_at, lemma_first_wrapped_none,
    lemma_keyload_index_at, lemma_keyload_index_none, signed_pairs, tagged_pairs,
};
use crate::transport::{StoredRecordView, Transport, records_at, recv_messages, send_message};

verus! {

/// Where a subscriber stands in the channel's life: not yet joined,
/// joined with a verified announcement behind it, or left again.
#[derive(Clone, Copy, Debug, PartialEq, Eq, Structural)]
pub enum ChannelState {
    Unconnected,
    Connected,
    Disconnected,
}

/// The mathematical value of a subscriber-side [`Channel`].
pub ghost struct SubscriberView {
    pub identity: Seq<char>,
    pub channel_address: Seq<char>,
    pub announcement_link: AddressView,
    pub subscription_link: AddressView,
    pub state: ChannelState,
    pub has_session: bool,
    pub session_key: Seq<char>,
    pub seqno: int,
}

/// The subscriber side of a channel: it joins through the announcement
/// it was handed out of band, reads signed and tagged packets, and
/// refreshes its session key from the author's keyloads.
pub struct Channel {
    identity: String,
    channel_address: String,
    announcement_link: Address,
    subscription_link: Address,
    state: ChannelState,
    has_session: bool,
    session_key: String,
    seqno: u64,
}

impl View for Channel {
    type V = SubscriberView;

    closed spec fn view(&self) -> SubscriberView {
        SubscriberView {
            identity: self.identity@,
            channel_address: self.channel_address@,
            announcement_link: self.announcement_link@,
            subscription_link: self.subscription_link@,
            state: self.state,
            has_session: self.has_session,
            session_key: self.session_key@,
            seqno: self.seqno as int,
        }
    }
}

/// Scans a fetched record set for a verified announcement of this
/// channel, skipping records that fail to parse, are of another kind,
/// or do not verify against the channel address.
fn find_announce(fetched: &Vec<Vec<String>>, channel: &String, annmsgid: &String) -> (r: bool)
    ensures
        r == (announce_index(fetched.deep_view(), channel@, annmsgid@) is Some),
{
    let ghost rs = fetched.deep_view();
    let n = fetched.len();
    let mut i: usize = 0;
    while i < n
        invariant
            rs == fetched.deep_view(),
            n == fetched.len(),
            i <= n,
            forall|j: int| 0 <= j < i ==> !is_announce_for(#[trigger] rs[j], channel@, annmsgid@),
        decreases n - i,
    {
        let ghost rv = rs[i as int];
        match parse_header(&fetched[i]) {
            Err(_) => {}
            Ok(h) => {
                if h.check_content_type(ContentType::Announce) && h.msgid == *annmsgid && h.sender
                    == *channel {
                    proof {
                        assert(is_announce_for(rv, channel@, annmsgid@));
                        lemma_announce_index_at(rs, channel@, annmsgid@, i as int);
                    }
                    return true;
                }
            }
        }
        proof {
            assert(!is_announce_for(rv, channel@, annmsgid@));
        }
        i += 1;
    }
    proof {
        lemma_announce_index_none(rs, channel@, annmsgid@);
    }
    false
}

/// Looks through a keyload's entries for the first one addressed to
/// `me` and hands back the key wrapped there.
fn lookup_entry(rec: &Vec<String>, me: &String) -> (r: Option<String>)
    requires
        rec.deep_view().len() >= 7,
        (rec.deep_view().len() - 7) % 2 == 0,
    ensures
        match first_wrapped(keyload_entries(rec.deep_view()), me@) {
            None => r is None,
            Some(w) => r is Some && r->0@ == w,
        },
{
    let ghost es = keyload_entries(rec.deep_view());
    let count = (rec.len() - 7) / 2;
    proof {
        assert(es.len() == count);
    }
    let mut k: usize = 0;
    while k < count
        invariant
            rec.deep_view().len() >= 7,
            (rec.deep_view().len() - 7) % 2 == 0,
            count == (rec.len() - 7) / 2,
            es == keyload_entries(rec.deep_view()),
            es.len() == count,
            k <= count,
            forall|m: int| 0 <= m < k ==> (#[trigger] es[m]).0 != me@,
        decreases count - k,
    {
        proof {
            assert(es[k as int] == (rec.deep_view()[7 + 2 * (k as int)], rec.deep_view()[8 + 2 * (
            k as int)]));
        }
        if rec[7 + 2 * k] == *me {
            let w = rec[8 + 2 * k].clone();
            proof {
                lemma_first_wrapped_at(es, me@, k as int);
            }
            return Some(w);
        }
        k += 1;
    }
    proof {
        lemma_first_wrapped_none(es, me@);
    }
    None
}

/// Scans a fetched record set for the first keyload of this channel
/// that wraps the session key for `me`, and hands that key back.
fn find_keyload(fetched: &Vec<Vec<String>>, channel: &String, annmsgid: &String, me: &String) -> (r:
    Option<String>)
    ensures
        match keyload_index(fetched.deep_view(), channel@, annmsgid@, channel@, me@) {
            None => r is None,
            Some(i) => r is Some && first_wrapped(keyload_entries(fetched.deep_view()[i]), me@)
                == Some(r->0@),
        },
{
    let ghost rs = fetched.deep_view();
    let n = fetched.len();
    let mut i: usize = 0;
    while i < n
        invariant
            rs == fetched.deep_view(),
            n == fetched.len(),
            i <= n,
            forall|j: int|
                0 <= j < i ==> !is_keyload_usable(#[trigger] rs[j], channel@, annmsgid@, channel@, me@),
        decreases n - i,
    {
        let ghost rv = rs[i as int];
        let rec = &fetched[i];
        match parse_header(rec) {
            Err(_) => {}
            Ok(h) => {
                if h.check_content_type(ContentType::Keyload) && rec.len() >= 7 && (rec.len() - 7)
                    % 2 == 0 && h.prev_appinst == *channel && h.prev_msgid == *annmsgid && h.sender
                    == *channel {
                    proof {
                        assert(is_keyload_for(rv, channel@, annmsgid@, channel@));
                    }
                    match lookup_entry(rec, me) {
                        Some(w) => {
                            proof {
                                assert(is_keyload_usable(rv, channel@, annmsgid@, channel@, me@));
                                lemma_keyload_index_at(rs, channel@, annmsgid@, channel@, me@, i as int);
                            }
                            return Some(w);
                        }
                        None => {
                            proof {
                                assert(!is_keyload_usable(rv, channel@, annmsgid@, channel@, me@));
                            }
                        }
                    }
                }
            }
        }
        proof {
            assert(!is_keyload_usable(rv, channel@, annmsgid@, channel@, me@));
        }
        i += 1;
    }
    proof {
        lemma_keyload_index_none(rs, channel@, annmsgid@, channel@, me@);
    }
    None
}

/// Gathers the payload pairs of every signed packet of the channel in
/// a fetched record set, skipping everything else.
fn collect_signed(fetched: &Vec<Vec<String>>, channel: &String, annmsgid: &String) -> (r: Vec<
    (String, String),
>)
    ensures
        r.deep_view() == signed_pairs(fetched.deep_view(), channel@, annmsgid@, channel@),
{
    let ghost rs = fetched.deep_view();
    let mut out: Vec<(String, String)> = Vec::new();
    proof {
        assert(rs.take(0) =~= Seq::<Seq<Seq<char>>>::empty());
        assert(out.deep_view() =~= signed_pairs(rs.take(0), channel@, annmsgid@, channel@));
    }
    let n = fetched.len();
    let mut i: usize = 0;
    while i < n
        invariant
            rs == fetched.deep_view(),
            n == fetched.len(),
            i <= n,
            out.deep_view() == signed_pairs(rs.take(i as int), channel@, annmsgid@, channel@),
        decreases n - i,
    {
        let ghost rv = rs[i as int];
        let ghost pre_d = out.deep_view();
        let ghost pre_v = out@;
        let rec = &fetched[i];
        match parse_header(rec) {
            Err(_) => {
                proof {
                    assert(!is_signed_for(rv, channel@, annmsgid@, channel@));
                }
            }
            Ok(h) => {
                if h.check_content_type(ContentType::SignedPacket) && rec.len() >= 8
                    && h.prev_appinst == *channel && h.prev_msgid == *annmsgid && h.sender
                    == *channel {
                    proof {
                        assert(is_signed_for(rv, channel@, annmsgid@, channel@));
                    }
                    out.push((rec[6].clone(), rec[7].clone()));
                    proof {
                        assert(out@ == pre_v.push((rec[6 as int], rec[7 as int])));
                        assert(out.deep_view().len() == pre_d.len() + 1);
                    }
                } else {
                    proof {
                        assert(!is_signed_for(rv, channel@, annmsgid@, channel@));
                    }
                }
            }
        }
        proof {
            assert(rs.take(i as int + 1).drop_last() =~= rs.take(i as int));
            assert(rs.take(i as int + 1).last() == rv);
            let goal = signed_pairs(rs.take(i as int + 1), channel@, annmsgid@, channel@);
            assert(out.deep_view().len() == goal.len());
            assert forall|k: int| 0 <= k < goal.len() implies out.deep_view()[k] == goal[k] by {
                assert(out.deep_view()[k] == out@[k]@);
                if k < pre_v.len() {
                    assert(out@[k] == pre_v[k]);
                    assert(pre_d[k] == pre_v[k]@);
                }
            }
            assert(out.deep_view() =~= goal);
        }
        i += 1;
    }
    proof {
        assert(rs.take(n as int) =~= rs);
    }
    out
}

/// Gathers the payload pairs of every tagged packet of the channel
/// whose session key tag matches the key the reader holds.
fn collect_tagged(fetched: &Vec<Vec<String>>, channel: &String, session: &String) -> (r: Vec<
    (String, String),
>)
    ensures
        r.deep_view() == tagged_pairs(fetched.deep_view(), channel@, session@),
{
    let ghost rs = fetched.deep_view();
    let mut out: Vec<(String, String)> = Vec::new();
    proof {
        assert(rs.take(0) =~= Seq::<Seq<Seq<char>>>::empty());
        assert(out.deep_view() =~= tagged_pairs(rs.take(0), channel@, session@));
    }
    let n = fetched.len();
    let mut i: usize = 0;
    while i < n
        invariant
            rs == fetched.deep_view(),
            n == fetched.len(),
            i <= n,
            out.deep_view() == tagged_pairs(rs.take(i as int), channel@, session@),
        decreases n - i,
    {
        let ghost rv = rs[i as int];
        let ghost pre_d = out.deep_view();
        let ghost pre_v = out@;
        let rec = &fetched[i];
        match parse_header(rec) {
            Err(_) => {
                proof {
                    assert(!is_tagged_under(rv, channel@, session@));
                }
            }
            Ok(h) => {
                if h.check_content_type(ContentType::TaggedPacket) && rec.len() >= 9
                    && h.prev_appinst == *channel && rec[6] == *session {
                    proof {
                        assert(is_tagged_under(rv, channel@, session@));
                    }
                    out.push((rec[7].clone(), rec[8].clone()));
                    proof {
                        assert(out@ == pre_v.push((rec[7 as int], rec[8 as int])));
                        assert(out.deep_view().len() == pre_d.len() + 1);
                    }
                } else {
                    proof {
                        assert(!is_tagged_under(rv, channel@, session@));
                    }
                }
            }
        }
        proof {
            assert(rs.take(i as int + 1).drop_last() =~= rs.take(i as int));
            assert(rs.take(i as int + 1).last() == rv);
            let goal = tagged_pairs(rs.take(i as int + 1), channel@, session@);
            assert(out.deep_view().len() == goal.len());
            assert forall|k: int| 0 <= k < goal.len() implies out.deep_view()[k] == goal[k] by {
                assert(out.deep_view()[k] == out@[k]@);
                if k < pre_v.len() {
                    assert(out@[k] == pre_v[k]);
                    assert(pre_d[k] == pre_v[k]@);
                }
            }
            assert(out.deep_view() =~= goal);
        }
        i += 1;
    }
    proof {
        assert(rs.take(n as int) =~= rs);
    }
    out
}


impl Channel {
    /// The subscriber's state keeps to the protocol's shape: a
    /// grammatical identity, an announcement link on the channel's own
    /// instance, and — once joined — a subscription link there too.
    pub closed spec fn wf(&self) -> bool {
        &&& valid_id(self@.identity)
        &&& valid_id(self@.channel_address)
        &&& valid_address(self@.announcement_link)
        &&& self@.announcement_link.appinst == self@.channel_address
        &&& (self@.state != ChannelState::Unconnected ==> valid_address(self@.subscription_link)
            && self@.subscription_link.appinst == self@.channel_address)
    }

    /// Creates the subscriber role from its secret seed and the
    /// announcement link handed out of band.  A seed outside the
    /// identifier grammar is refused as invalid input; so is either
    /// link component.
    pub fn new(seed: &str, channel_address: String, announcement_tag: String) -> (r: Result<
        Channel,
        ChannelError,
    >)
        ensures
            !valid_id(seed@) ==> r == Err::<Channel, ChannelError>(ChannelError::InvalidSeed),
            valid_id(seed@) && !(valid_id(channel_address@) && valid_id(announcement_tag@)) ==> r
                == Err::<Channel, ChannelError>(ChannelError::InvalidLink),
            r is Ok <==> valid_id(seed@) && valid_id(channel_address@) && valid_id(
                announcement_tag@,
            ),
            r is Ok ==> {
                let c = r->Ok_0;
                c.wf() && c@.identity == spec_identity(seed@) && c@.channel_address
                    == channel_address@ && c@.announcement_link == (AddressView {
                    appinst: channel_address@,
                    msgid: announcement_tag@,
                }) && c@.state == ChannelState::Unconnected && !c@.has_session && c@.seqno == 0
            },
    {
        if !is_valid_id(seed) {
            return Err(ChannelError::InvalidSeed);
        }
        if !(is_valid_id(channel_address.as_str()) && is_valid_id(announcement_tag.as_str())) {
            return Err(ChannelError::InvalidLink);
        }
        proof {
            lemma_identity_valid(seed@);
        }
        let identity = derive_identity(seed);
        let announcement_link = Address { appinst: channel_address.clone(), msgid: announcement_tag };
        Ok(
            Channel {
                identity,
                channel_address,
                announcement_link,
                subscription_link: Address { appinst: String::new(), msgid: String::new() },
                state: ChannelState::Unconnected,
                has_session: false,
                session_key: String::new(),
                seqno: 0,
            },
        )
    }

    /// Whether the subscriber currently stands connected to the
    /// channel.
    pub fn is_connected(&self) -> (r: bool)
        ensures
            r == (self@.state == ChannelState::Connected),
    {
        match self.state {
            ChannelState::Connected => true,
            _ => false,
        }
    }

    /// Joins the channel: fetches the records at the announcement
    /// link, scans them for a verified announcement (records that fail
    /// to parse or verify are skipped, never fatal), and on the first
    /// one found sends a subscription request chained from the
    /// announcement and becomes connected.  Finding none is a quiet
    /// outcome: the subscriber stays unconnected and an empty message
    /// id comes back.
    pub fn connect(&mut self, transport: &mut Transport) -> (r: Result<String, ChannelError>)
        requires
            old(self).wf(),
            old(self)@.state == ChannelState::Unconnected,
            old(self)@.seqno < u64::MAX,
        ensures
            r is Ok,
            final(self).wf(),
            ({
                let rs = records_at(old(transport)@, old(self)@.channel_address);
                if announce_index(rs, old(self)@.channel_address, old(self)@.announcement_link.msgid)
                    is Some {
                    &&& final(self)@ == (SubscriberView {
                        state: ChannelState::Connected,
                        subscription_link: (AddressView {
                            appinst: old(self)@.channel_address,
                            msgid: spec_msgid(old(self)@.seqno),
                        }),
                        seqno: old(self)@.seqno + 1,
                        ..old(self)@
                    })
                    &&& final(transport)@ == old(transport)@.push(
                        (StoredRecordView {
                            address: old(self)@.channel_address,
                            record: spec_encode_subscribe(
                                spec_msgid(old(self)@.seqno),
                                old(self)@.announcement_link,
                                old(self)@.identity,
                            ),
                        }),
                    )
                    &&& r->Ok_0@ == spec_msgid(old(self)@.seqno)
                } else {
                    final(self)@ == old(self)@ && final(transport)@ == old(transport)@ && r->Ok_0@
                        == Seq::<char>::empty()
                }
            }),
    {
        let fetched = recv_messages(transport, &self.announcement_link);
        if find_announce(&fetched, &self.channel_address, &self.announcement_link.msgid) {
            proof {
                lemma_msgid_valid(self@.seqno);
            }
            let msgid = msgid_of(self.seqno);
            let link = Address { appinst: self.channel_address.clone(), msgid: msgid.clone() };
            let record = crate::codec::encode_subscribe(
                &msgid,
                &self.announcement_link,
                &self.identity,
            );
            send_message(transport, &link, record);
            self.subscription_link = link;
            self.state = ChannelState::Connected;
            self.seqno = self.seqno + 1;
            Ok(msgid)
        } else {
            Ok(String::new())
        }
    }

    /// Leaves the channel: sends a leave notice chained from the
    /// subscription.  On a subscriber that never connected, or that
    /// already left, the call does nothing and raises no error.
    pub fn disconnect(&mut self, transport: &mut Transport) -> (r: Result<String, ChannelError>)
        requires
            old(self).wf(),
            old(self)@.seqno < u64::MAX,
        ensures
            r is Ok,
            final(self).wf(),
            old(self)@.state != ChannelState::Connected ==> final(self)@ == old(self)@
                && final(transport)@ == old(transport)@ && r->Ok_0@ == Seq::<char>::empty(),
            old(self)@.state == ChannelState::Connected ==> final(self)@ == (SubscriberView {
                state: ChannelState::Disconnected,
                seqno: old(self)@.seqno + 1,
                ..old(self)@
            }) && final(transport)@ == old(transport)@.push(
                (StoredRecordView {
                    address: old(self)@.channel_address,
                    record: spec_encode_unsubscribe(
                        spec_msgid(old(self)@.seqno),
                        old(self)@.subscription_link,
                        old(self)@.identity,
                    ),
                }),
            ) && r->Ok_0@ == spec_msgid(old(self)@.seqno),
    {
        match self.state {
            ChannelState::Connected => {
                proof {
                    lemma_msgid_valid(self@.seqno);
                }
                let msgid = msgid_of(self.seqno);
                let link = Address { appinst: self.channel_address.clone(), msgid: msgid.clone() };
                let record = crate::codec::encode_unsubscribe(
                    &msgid,
                    &self.subscription_link,
                    &self.identity,
                );
                send_message(transport, &link, record);
                self.state = ChannelState::Disconnected;
                self.seqno = self.seqno + 1;
                Ok(msgid)
            }
            _ => Ok(String::new()),
        }
    }

    /// Reads the channel's signed packets: fetches the records at the
    /// subscription link and gathers, in discovery order, the payload
    /// pair of every packet that parses and verifies against the
    /// author's identity.  A subscriber that is not connected reads
    /// nothing, quietly.
    pub fn read_signed(&mut self, transport: &Transport) -> (r: Result<
        Vec<(String, String)>,
        ChannelError,
    >)
        requires
            old(self).wf(),
        ensures
            r is Ok,
            final(self)@ == old(self)@,
            final(self).wf(),
            old(self)@.state == ChannelState::Connected ==> r->Ok_0.deep_view() == signed_pairs(
                records_at(transport@, old(self)@.channel_address),
                old(self)@.channel_address,
                old(self)@.announcement_link.msgid,
                old(self)@.channel_address,
            ),
            old(self)@.state != ChannelState::Connected ==> r->Ok_0.deep_view() == Seq::<
                (Seq<char>, Seq<char>),
            >::empty(),
    {
        match self.state {
            ChannelState::Connected => {
                let fetched = recv_messages(transport, &self.subscription_link);
                Ok(
                    collect_signed(
                        &fetched,
                        &self.channel_address,
                        &self.announcement_link.msgid,
                    ),
                )
            }
            _ => {
                let out: Vec<(String, String)> = Vec::new();
                proof {
                    assert(out.deep_view() =~= Seq::<(Seq<char>, Seq<char>)>::empty());
                }
                Ok(out)
            }
        }
    }

    /// Reads the channel's tagged packets: gathers the payload pair of
    /// every packet gated by the session key this subscriber currently
    /// holds.  Packets under any other key — among them packets written
    /// before the subscriber applied the relevant keyload — stay
    /// closed and are skipped.  Without a session key, or without a
    /// connection, nothing is readable.
    pub fn read_tagged(&mut self, transport: &Transport) -> (r: Result<
        Vec<(String, String)>,
        ChannelError,
    >)
        requires
            old(self).wf(),
        ensures
            r is Ok,
            final(self)@ == old(self)@,
            final(self).wf(),
            old(self)@.state == ChannelState::Connected && old(self)@.has_session ==> r->Ok_0.deep_view()
                == tagged_pairs(
                records_at(transport@, old(self)@.channel_address),
                old(self)@.channel_address,
                old(self)@.session_key,
            ),
            !(old(self)@.state == ChannelState::Connected && old(self)@.has_session) ==> r->Ok_0.deep_view()
                == Seq::<(Seq<char>, Seq<char>)>::empty(),
    {
        if self.is_connected() && self.has_session {
            let fetched = recv_messages(transport, &self.subscription_link);
            Ok(collect_tagged(&fetched, &self.channel_address, &self.session_key))
        } else {
            let out: Vec<(String, String)> = Vec::new();
            proof {
                assert(out.deep_view() =~= Seq::<(Seq<char>, Seq<char>)>::empty());
            }
            Ok(out)
        }
    }

    /// Refreshes the session key: fetches the records at the hinted
    /// address, scans them for the first keyload of this channel that
    /// wraps a key for this subscriber, and applies that key,
    /// superseding any prior one.  A keyload that does not cover this
    /// subscriber, or any malformed record, is skipped and the prior
    /// key stays.  A subscriber that is not connected does nothing,
    /// quietly.
    pub fn update_keyload(&mut self, transport: &Transport, keyload_tag: String) -> (r: Result<
        (),
        ChannelError,
    >)
        requires
            old(self).wf(),
        ensures
            final(self).wf(),
            old(self)@.state != ChannelState::Connected ==> r is Ok && final(self)@ == old(self)@,
            old(self)@.state == ChannelState::Connected && !valid_id(keyload_tag@) ==> r == Err::<
                (),
                ChannelError,
            >(ChannelError::InvalidLink) && final(self)@ == old(self)@,
            old(self)@.state == ChannelState::Connected && valid_id(keyload_tag@) ==> r is Ok && {
                let rs = records_at(transport@, old(self)@.channel_address);
                match keyload_index(
                    rs,
                    old(self)@.channel_address,
                    old(self)@.announcement_link.msgid,
                    old(self)@.channel_address,
                    old(self)@.identity,
                ) {
                    None => final(self)@ == old(self)@,
                    Some(i) => final(self)@ == (SubscriberView {
                        has_session: true,
                        session_key: first_wrapped(
                            keyload_entries(rs[i]),
                            old(self)@.identity,
                        )->Some_0,
                        ..old(self)@
                    }),
                }
            },
    {
        match self.state {
            ChannelState::Connected => {
                if !is_valid_id(keyload_tag.as_str()) {
                    return Err(ChannelError::InvalidLink);
                }
                let hint = Address { appinst: self.channel_address.clone(), msgid: keyload_tag };
                let fetched = recv_messages(transport, &hint);
                match find_keyload(
                    &fetched,
                    &self.channel_address,
                    &self.announcement_link.msgid,
                    &self.identity,
                ) {
                    Some(key) => {
                        self.session_key = key;
                        self.has_session = true;
                        Ok(())
                    }
                    None => Ok(()),
                }
            }
            _ => Ok(()),
        }
    }
}

} // verus!
