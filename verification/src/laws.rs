use vstd::prelude::*;

use crate::address::AddressView;
use crate::codec::{spec_encode_signed, spec_encode_tagged};
use crate::scan::{lemma_keyload_gates_tagged, lemma_signed_round_trip, signed_pairs, tagged_pairs};
use crate::transport::{StoredRecordView, lemma_records_at_push, records_at};

verus! {

// The protocol-level laws: what publishing through the transport does
// to what a reader gathers from it.  Each composes the framing of a
// packet, the transport's fetch, and the reader's scan, exactly as the
// author's `write_signed`/`write_tagged` and the subscriber's
// `read_signed`/`read_tagged` state them in their contracts.

/// Round trip: once the author publishes a signed packet on the
/// channel, a connected reader of that channel gathers its payload
/// pair — at the end of its list, whatever else the store holds.
pub proof fn lemma_write_signed_then_read(
    tv: Seq<StoredRecordView>,
    channel: Seq<char>,
    annmsgid: Seq<char>,
    msgid: Seq<char>,
    public: Seq<char>,
    masked: Seq<char>,
)
    ensures
        signed_pairs(
            records_at(
                tv.push(
                    (StoredRecordView {
                        address: channel,
                        record: spec_encode_signed(
                            msgid,
                            (AddressView { appinst: channel, msgid: annmsgid }),
                            channel,
                            public,
                            masked,
                        ),
                    }),
                ),
                channel,
            ),
            channel,
            annmsgid,
            channel,
        ) == signed_pairs(records_at(tv, channel), channel, annmsgid, channel).push(
            (public, masked),
        ),
{
    let rec = spec_encode_signed(
        msgid,
        AddressView { appinst: channel, msgid: annmsgid },
        channel,
        public,
        masked,
    );
    lemma_records_at_push(tv, channel, StoredRecordView { address: channel, record: rec });
    lemma_signed_round_trip(records_at(tv, channel), channel, annmsgid, channel, msgid, public, masked);
}

/// Keyload gating: once the author publishes a tagged packet under one
/// session key, a reader holding a different key — among them one that
/// has not yet applied the relevant keyload — gathers nothing new from
/// it, while a reader holding that very key gathers its payload pair.
pub proof fn lemma_write_tagged_then_read(
    tv: Seq<StoredRecordView>,
    channel: Seq<char>,
    msgid: Seq<char>,
    prev: AddressView,
    sender: Seq<char>,
    written: Seq<char>,
    held: Seq<char>,
    public: Seq<char>,
    masked: Seq<char>,
)
    requires
        prev.appinst == channel,
    ensures
        held != written ==> tagged_pairs(
            records_at(
                tv.push(
                    (StoredRecordView {
                        address: channel,
                        record: spec_encode_tagged(msgid, prev, sender, written, public, masked),
                    }),
                ),
                channel,
            ),
            channel,
            held,
        ) == tagged_pairs(records_at(tv, channel), channel, held),
        held == written ==> tagged_pairs(
            records_at(
                tv.push(
                    (StoredRecordView {
                        address: channel,
                        record: spec_encode_tagged(msgid, prev, sender, written, public, masked),
                    }),
                ),
                channel,
            ),
            channel,
            held,
        ) == tagged_pairs(records_at(tv, channel), channel, held).push((public, masked)),
{
    let rec = spec_encode_tagged(msgid, prev, sender, written, public, masked);
    lemma_records_at_push(tv, channel, StoredRecordView { address: channel, record: rec });
    lemma_keyload_gates_tagged(
        records_at(tv, channel),
        channel,
        msgid,
        prev,
        sender,
        written,
        held,
        public,
        masked,
    );
}

} // verus!
