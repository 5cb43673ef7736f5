use vstd::prelude::*;

use crate::address::{Address, AddressView, valid_id};
use crate::errors::CodecError;

verus! {

// A raw record, as the transport stores and returns it, is a vector of
// textual fields.  The first two fields are the envelope: a format
// version and a content-type tag.  The next four name this message and
// the message it chains from, and the sixth carries the sender's public
// identity, standing for the cryptographic preamble whose wire encoding
// is outside this core.  What follows depends on the content type.
//
//   [0] version        [1] content-type tag   [2] own message id
//   [3] linked-from instance id               [4] linked-from message id
//   [5] sender identity
//
//   signed packet:  [6] public payload  [7] masked payload
//   tagged packet:  [6] session key tag [7] public payload  [8] masked payload
//   keyload:        [6] session key, then one pair of fields per entry:
//                   a subscriber identity and the key wrapped for it
//
// Anything else — too few fields, a different version, a tag no branch
// recognises — is foreign to this protocol and skippable by every scan.

/// The recognised message kinds, with a fallback for records whose tag
/// belongs to no known kind.
#[derive(Clone, Copy, Debug, PartialEq, Eq, Structural)]
pub enum ContentType {
    Announce,
    Subscribe,
    Unsubscribe,
    Keyload,
    SignedPacket,
    TaggedPacket,
    Unknown,
}

/// Which kind a content-type tag names; an unrecognised tag is `Unknown`.
pub open spec fn spec_content_type(tag: Seq<char>) -> ContentType {
    if tag == "announce"@ {
        ContentType::Announce
    } else if tag == "subscribe"@ {
        ContentType::Subscribe
    } else if tag == "unsubscribe"@ {
        ContentType::Unsubscribe
    } else if tag == "keyload"@ {
        ContentType::Keyload
    } else if tag == "signed"@ {
        ContentType::SignedPacket
    } else if tag == "tagged"@ {
        ContentType::TaggedPacket
    } else {
        ContentType::Unknown
    }
}

/// The six tags name six distinct kinds.
pub proof fn lemma_tags_recognised()
    ensures
        spec_content_type("announce"@) == ContentType::Announce,
        spec_content_type("subscribe"@) == ContentType::Subscribe,
        spec_content_type("unsubscribe"@) == ContentType::Unsubscribe,
        spec_content_type("keyload"@) == ContentType::Keyload,
        spec_content_type("signed"@) == ContentType::SignedPacket,
        spec_content_type("tagged"@) == ContentType::TaggedPacket,
{
    reveal_strlit("announce");
    reveal_strlit("subscribe");
    reveal_strlit("unsubscribe");
    reveal_strlit("keyload");
    reveal_strlit("signed");
    reveal_strlit("tagged");
    assert("announce"@.len() == 8);
    assert("subscribe"@.len() == 9);
    assert("unsubscribe"@.len() == 11);
    assert("keyload"@.len() == 7);
    assert("signed"@.len() == 6);
    assert("tagged"@.len() == 6);
    assert("signed"@[0] == 's');
    assert("tagged"@[0] == 't');
}

/// Classifies a content-type tag.
pub fn content_type_of(tag: &String) -> (r: ContentType)
    ensures
        r == spec_content_type(tag@),
{
    if *tag == "announce".to_owned() {
        ContentType::Announce
    } else if *tag == "subscribe".to_owned() {
        ContentType::Subscribe
    } else if *tag == "unsubscribe".to_owned() {
        ContentType::Unsubscribe
    } else if *tag == "keyload".to_owned() {
        ContentType::Keyload
    } else if *tag == "signed".to_owned() {
        ContentType::SignedPacket
    } else if *tag == "tagged".to_owned() {
        ContentType::TaggedPacket
    } else {
        ContentType::Unknown
    }
}

/// A record carries at least the envelope and names, under the one
/// supported format version.
pub open spec fn header_wf(r: Seq<Seq<char>>) -> bool {
    r.len() >= 6 && r[0] == "1"@
}

/// The mathematical value of a parsed [`Header`].
pub ghost struct HeaderView {
    pub content_type: ContentType,
    pub msgid: Seq<char>,
    pub prev_appinst: Seq<char>,
    pub prev_msgid: Seq<char>,
    pub sender: Seq<char>,
}

/// The typed envelope of a raw record: its kind, its own message id,
/// the link it chains from, and the sender identity it carries.
pub struct Header {
    pub content_type: ContentType,
    pub msgid: String,
    pub prev_appinst: String,
    pub prev_msgid: String,
    pub sender: String,
}

impl View for Header {
    type V = HeaderView;

    open spec fn view(&self) -> HeaderView {
        HeaderView {
            content_type: self.content_type,
            msgid: self.msgid@,
            prev_appinst: self.prev_appinst@,
            prev_msgid: self.prev_msgid@,
            sender: self.sender@,
        }
    }
}

impl Header {
    /// Whether this header is of the given kind, as the scans ask.
    pub fn check_content_type(&self, t: ContentType) -> (r: bool)
        ensures
            r == (self.content_type == t),
    {
        self.content_type == t
    }
}

/// The header a well-formed record parses to.
pub open spec fn spec_header(r: Seq<Seq<char>>) -> HeaderView
    recommends
        header_wf(r),
{
    HeaderView {
        content_type: spec_content_type(r[1]),
        msgid: r[2],
        prev_appinst: r[3],
        prev_msgid: r[4],
        sender: r[5],
    }
}

/// Reads the typed envelope out of a raw record.  A record with too few
/// fields or an unsupported version is refused; a recognisable envelope
/// with an unknown tag parses, classified [`ContentType::Unknown`], so
/// that scans can skip it silently.
pub fn parse_header(record: &Vec<String>) -> (r: Result<Header, CodecError>)
    ensures
        r is Ok <==> header_wf(record.deep_view()),
        r is Ok ==> r->Ok_0@ == spec_header(record.deep_view()),
        record.deep_view().len() < 6 ==> r == Err::<Header, CodecError>(CodecError::TooShort),
        record.deep_view().len() >= 6 && record.deep_view()[0] != "1"@ ==> r
            == Err::<Header, CodecError>(CodecError::UnsupportedVersion),
{
    if record.len() < 6 {
        return Err(CodecError::TooShort);
    }
    if !(record[0] == "1".to_owned()) {
        return Err(CodecError::UnsupportedVersion);
    }
    Ok(Header {
        content_type: content_type_of(&record[1]),
        msgid: record[2].clone(),
        prev_appinst: record[3].clone(),
        prev_msgid: record[4].clone(),
        sender: record[5].clone(),
    })
}

/// One keyload entry: the group session key wrapped for one subscriber.
/// The wrapping cipher is an external primitive; the core carries the
/// entry as the pair the protocol reads.
pub struct KeyloadEntry {
    pub subscriber: String,
    pub wrapped: String,
}

/// The mathematical value of a [`KeyloadEntry`].
pub ghost struct KeyloadEntryView {
    pub subscriber: Seq<char>,
    pub wrapped: Seq<char>,
}

impl View for KeyloadEntry {
    type V = KeyloadEntryView;

    open spec fn view(&self) -> KeyloadEntryView {
        KeyloadEntryView { subscriber: self.subscriber@, wrapped: self.wrapped@ }
    }
}

impl DeepView for KeyloadEntry {
    type V = KeyloadEntryView;

    open spec fn deep_view(&self) -> KeyloadEntryView {
        self@
    }
}

impl Clone for KeyloadEntry {
    fn clone(&self) -> (r: KeyloadEntry)
        ensures
            r@ == self@,
    {
        KeyloadEntry { subscriber: self.subscriber.clone(), wrapped: self.wrapped.clone() }
    }
}

/// The shared first six fields of every encoded message.
pub open spec fn spec_base(
    tag: Seq<char>,
    msgid: Seq<char>,
    prev: AddressView,
    sender: Seq<char>,
) -> Seq<Seq<char>> {
    seq!["1"@, tag, msgid, prev.appinst, prev.msgid, sender]
}

fn base_record(tag: &str, msgid: &String, prev: &Address, sender: &String) -> (r: Vec<String>)
    ensures
        r.deep_view() == spec_base(tag@, msgid@, prev@, sender@),
{
    let mut v: Vec<String> = Vec::new();
    v.push("1".to_owned());
    v.push(tag.to_owned());
    v.push(msgid.clone());
    v.push(prev.appinst.clone());
    v.push(prev.msgid.clone());
    v.push(sender.clone());
    proof {
        assert(v.deep_view() =~= spec_base(tag@, msgid@, prev@, sender@));
    }
    v
}

/// What [`encode_announce`] produces.
pub open spec fn spec_encode_announce(
    msgid: Seq<char>,
    prev: AddressView,
    sender: Seq<char>,
) -> Seq<Seq<char>> {
    spec_base("announce"@, msgid, prev, sender)
}

/// Frames an announcement: the channel's root of trust, carrying the
/// author's public identity.
pub fn encode_announce(msgid: &String, prev: &Address, sender: &String) -> (r: Vec<String>)
    ensures
        r.deep_view() == spec_encode_announce(msgid@, prev@, sender@),
{
    base_record("announce", msgid, prev, sender)
}

/// What [`encode_subscribe`] produces.
pub open spec fn spec_encode_subscribe(
    msgid: Seq<char>,
    prev: AddressView,
    sender: Seq<char>,
) -> Seq<Seq<char>> {
    spec_base("subscribe"@, msgid, prev, sender)
}

/// Frames a subscription request, carrying the subscriber's public key.
pub fn encode_subscribe(msgid: &String, prev: &Address, sender: &String) -> (r: Vec<String>)
    ensures
        r.deep_view() == spec_encode_subscribe(msgid@, prev@, sender@),
{
    base_record("subscribe", msgid, prev, sender)
}

/// What [`encode_unsubscribe`] produces.
pub open spec fn spec_encode_unsubscribe(
    msgid: Seq<char>,
    prev: AddressView,
    sender: Seq<char>,
) -> Seq<Seq<char>> {
    spec_base("unsubscribe"@, msgid, prev, sender)
}

/// Frames a leave notice, chained from the subscription it retires.
pub fn encode_unsubscribe(msgid: &String, prev: &Address, sender: &String) -> (r: Vec<String>)
    ensures
        r.deep_view() == spec_encode_unsubscribe(msgid@, prev@, sender@),
{
    base_record("unsubscribe", msgid, prev, sender)
}

/// What [`encode_signed`] produces.
pub open spec fn spec_encode_signed(
    msgid: Seq<char>,
    prev: AddressView,
    sender: Seq<char>,
    public: Seq<char>,
    masked: Seq<char>,
) -> Seq<Seq<char>> {
    spec_base("signed"@, msgid, prev, sender).push(public).push(masked)
}

/// Frames a signed packet: publicly readable, authenticated by the
/// author's identity in the preamble.
pub fn encode_signed(
    msgid: &String,
    prev: &Address,
    sender: &String,
    public: &String,
    masked: &String,
) -> (r: Vec<String>)
    ensures
        r.deep_view() == spec_encode_signed(msgid@, prev@, sender@, public@, masked@),
{
    let mut v = base_record("signed", msgid, prev, sender);
    v.push(public.clone());
    v.push(masked.clone());
    proof {
        assert(v.deep_view() =~= spec_encode_signed(msgid@, prev@, sender@, public@, masked@));
    }
    v
}

/// What [`encode_tagged`] produces.
pub open spec fn spec_encode_tagged(
    msgid: Seq<char>,
    prev: AddressView,
    sender: Seq<char>,
    session: Seq<char>,
    public: Seq<char>,
    masked: Seq<char>,
) -> Seq<Seq<char>> {
    spec_base("tagged"@, msgid, prev, sender).push(session).push(public).push(masked)
}

/// Frames a tagged packet, gated by the session key distributed through
/// the current keyload.
pub fn encode_tagged(
    msgid: &String,
    prev: &Address,
    sender: &String,
    session: &String,
    public: &String,
    masked: &String,
) -> (r: Vec<String>)
    ensures
        r.deep_view() == spec_encode_tagged(msgid@, prev@, sender@, session@, public@, masked@),
{
    let mut v = base_record("tagged", msgid, prev, sender);
    v.push(session.clone());
    v.push(public.clone());
    v.push(masked.clone());
    proof {
        assert(v.deep_view() =~= spec_encode_tagged(
            msgid@,
            prev@,
            sender@,
            session@,
            public@,
            masked@,
        ));
    }
    v
}

/// The flat field run that a sequence of keyload entries encodes to.
pub open spec fn spec_entry_fields(entries: Seq<KeyloadEntryView>) -> Seq<Seq<char>>
    decreases entries.len(),
{
    if entries.len() == 0 {
        Seq::empty()
    } else {
        spec_entry_fields(entries.drop_last()) + seq![
            entries.last().subscriber,
            entries.last().wrapped,
        ]
    }
}

/// What [`encode_keyload`] produces.
pub open spec fn spec_encode_keyload(
    msgid: Seq<char>,
    prev: AddressView,
    sender: Seq<char>,
    session: Seq<char>,
    entries: Seq<KeyloadEntryView>,
) -> Seq<Seq<char>> {
    spec_base("keyload"@, msgid, prev, sender).push(session) + spec_entry_fields(entries)
}

/// Frames a keyload: the new group session key, wrapped once for each
/// admitted subscriber.
pub fn encode_keyload(
    msgid: &String,
    prev: &Address,
    sender: &String,
    session: &String,
    entries: &Vec<KeyloadEntry>,
) -> (r: Vec<String>)
    ensures
        r.deep_view() == spec_encode_keyload(msgid@, prev@, sender@, session@, entries.deep_view()),
{
    let mut v = base_record("keyload", msgid, prev, sender);
    v.push(session.clone());
    proof {
        assert(entries.deep_view().take(0) =~= Seq::<KeyloadEntryView>::empty());
        assert(v.deep_view() =~= spec_base("keyload"@, msgid@, prev@, sender@).push(session@)
            + spec_entry_fields(entries.deep_view().take(0)));
    }
    let n = entries.len();
    let mut i: usize = 0;
    while i < n
        invariant
            n == entries.len(),
            i <= n,
            v.deep_view() == spec_base("keyload"@, msgid@, prev@, sender@).push(session@)
                + spec_entry_fields(entries.deep_view().take(i as int)),
        decreases n - i,
    {
        let ghost pre_v = v@;
        let ghost pre_d = v.deep_view();
        v.push(entries[i].subscriber.clone());
        v.push(entries[i].wrapped.clone());
        proof {
            let dv = entries.deep_view();
            assert(dv.take(i as int + 1).drop_last() =~= dv.take(i as int));
            assert(dv.take(i as int + 1).last() == dv[i as int]);
            assert(spec_entry_fields(dv.take(i as int + 1)) == spec_entry_fields(dv.take(i as int))
                + seq![dv[i as int].subscriber, dv[i as int].wrapped]);
            let goal = spec_base("keyload"@, msgid@, prev@, sender@).push(session@)
                + spec_entry_fields(dv.take(i as int + 1));
            assert(goal =~= pre_d + seq![dv[i as int].subscriber, dv[i as int].wrapped]);
            assert(v.deep_view().len() == goal.len());
            assert forall|k: int| 0 <= k < goal.len() implies v.deep_view()[k] == goal[k] by {
                assert(v.deep_view()[k] == v@[k]@);
                if k < pre_v.len() {
                    assert(v@[k] == pre_v[k]);
                    assert(pre_d[k] == pre_v[k]@);
                }
            }
            assert(v.deep_view() =~= goal);
        }
        i += 1;
    }
    proof {
        assert(entries.deep_view().take(n as int) =~= entries.deep_view());
    }
    v
}

} // verus!
