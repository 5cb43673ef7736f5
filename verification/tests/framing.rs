use channels_lite::address;
use channels_lite::channel_author;
use channels_lite::channel_author::SendOptions;
use channels_lite::channel_subscriber;
use channels_lite::codec;
use channels_lite::codec::ContentType;
use channels_lite::errors::{ChannelError, CodecError};
use channels_lite::transport;
use channels_lite::transport::Transport;

#[test]
fn address_round_trip_is_lossless() {
    let a = address::parse("CHANNELINSTANCE", "MSGID").unwrap();
    let (inst, msg) = address::format(&a);
    assert_eq!(inst, "CHANNELINSTANCE");
    assert_eq!(msg, "MSGID");
    let b = address::parse(&inst, &msg).unwrap();
    let (inst2, msg2) = address::format(&b);
    assert_eq!((inst, msg), (inst2, msg2));
}

#[test]
fn address_parse_rejects_bad_components() {
    assert!(matches!(
        address::parse("", "MSGID"),
        Err(ChannelError::InvalidLink)
    ));
    assert!(matches!(
        address::parse("CHANNEL", "lower"),
        Err(ChannelError::InvalidLink)
    ));
    assert!(matches!(
        address::parse("CHAN:NEL", "MSGID"),
        Err(ChannelError::InvalidLink)
    ));
}

#[test]
fn parse_header_rejects_short_and_misversioned_records() {
    let short: Vec<String> = vec!["1".to_string(), "announce".to_string()];
    assert!(matches!(codec::parse_header(&short), Err(CodecError::TooShort)));

    let misversioned: Vec<String> = vec![
        "2".to_string(),
        "announce".to_string(),
        "A".to_string(),
        "CHAN".to_string(),
        "A".to_string(),
        "CHAN".to_string(),
    ];
    assert!(matches!(
        codec::parse_header(&misversioned),
        Err(CodecError::UnsupportedVersion)
    ));
}

#[test]
fn parse_header_classifies_foreign_tags_as_unknown() {
    let foreign: Vec<String> = vec![
        "1".to_string(),
        "auction-bid".to_string(),
        "A".to_string(),
        "CHAN".to_string(),
        "A".to_string(),
        "SOMEONE".to_string(),
    ];
    let h = codec::parse_header(&foreign).unwrap();
    assert_eq!(h.content_type, ContentType::Unknown);
    assert!(h.check_content_type(ContentType::Unknown));
    assert!(!h.check_content_type(ContentType::Announce));
}

#[test]
fn encoded_signed_packet_parses_back() {
    let prev = address::parse("CHAN", "A").unwrap();
    let rec = codec::encode_signed(
        &"B".to_string(),
        &prev,
        &"CHAN".to_string(),
        &"pub payload".to_string(),
        &"masked payload".to_string(),
    );
    let h = codec::parse_header(&rec).unwrap();
    assert_eq!(h.content_type, ContentType::SignedPacket);
    assert_eq!(h.msgid, "B");
    assert_eq!(h.prev_appinst, "CHAN");
    assert_eq!(h.prev_msgid, "A");
    assert_eq!(h.sender, "CHAN");
    assert_eq!(rec[6], "pub payload");
    assert_eq!(rec[7], "masked payload");
}

#[test]
fn encoded_keyload_carries_entries_in_order() {
    let prev = address::parse("CHAN", "A").unwrap();
    let entries = vec![
        codec::KeyloadEntry {
            subscriber: "SUBONE".to_string(),
            wrapped: "KEY".to_string(),
        },
        codec::KeyloadEntry {
            subscriber: "SUBTWO".to_string(),
            wrapped: "KEY".to_string(),
        },
    ];
    let rec = codec::encode_keyload(
        &"B".to_string(),
        &prev,
        &"CHAN".to_string(),
        &"KEY".to_string(),
        &entries,
    );
    let h = codec::parse_header(&rec).unwrap();
    assert_eq!(h.content_type, ContentType::Keyload);
    assert_eq!(rec.len(), 11);
    assert_eq!(rec[6], "KEY");
    assert_eq!(&rec[7..], &["SUBONE", "KEY", "SUBTWO", "KEY"]);
}

#[test]
fn transport_returns_records_at_address_in_order() {
    let mut t = Transport::new();
    let addr = address::parse("CHAN", "A").unwrap();
    let other = address::parse("OTHER", "A").unwrap();
    transport::send_message(&mut t, &addr, vec!["first".to_string()]);
    transport::send_message(&mut t, &other, vec!["foreign".to_string()]);
    transport::send_message(&mut t, &addr, vec!["second".to_string()]);
    let got = transport::recv_messages(&t, &addr);
    assert_eq!(
        got,
        vec![vec!["first".to_string()], vec!["second".to_string()]]
    );
    let one = transport::recv_message(&t, &addr);
    assert_eq!(one, Some(vec!["first".to_string()]));
    let none = transport::recv_message(&t, &address::parse("EMPTY", "A").unwrap());
    assert_eq!(none, None);
}

#[test]
fn scan_skips_malformed_and_foreign_records() {
    let mut t = Transport::new();
    let mut a = channel_author::Channel::new("AUTHORSEED", 3, SendOptions::default()).unwrap();
    // Strangers' records sit at the channel address before and after
    // the announcement: an empty record, a short one, a record with an
    // unsupported version, and one of an unrecognised content type.
    let chan_key = "DEESROHTUA".to_string();
    t.attach(chan_key.clone(), vec![]);
    t.attach(chan_key.clone(), vec!["1".to_string(), "announce".to_string()]);
    let (chan, tag) = a.open(&mut t).unwrap();
    t.attach(
        chan_key.clone(),
        vec![
            "9".to_string(),
            "announce".to_string(),
            "A".to_string(),
            "X".to_string(),
            "X".to_string(),
            "X".to_string(),
        ],
    );
    t.attach(
        chan_key.clone(),
        vec![
            "1".to_string(),
            "weather-report".to_string(),
            "A".to_string(),
            "X".to_string(),
            "X".to_string(),
            "X".to_string(),
        ],
    );
    // The scan still finds the one well-formed announcement.
    let mut s = channel_subscriber::Channel::new("SUBSCRIBERSEED", chan, tag).unwrap();
    let sub_tag = s.connect(&mut t).unwrap();
    assert!(s.is_connected());
    assert!(!sub_tag.is_empty());
}

#[test]
fn scan_with_only_foreign_records_finds_nothing_and_no_error() {
    let mut t = Transport::new();
    let mut a = channel_author::Channel::new("AUTHORSEED", 3, SendOptions::default()).unwrap();
    let (chan, tag) = a.open(&mut t).unwrap();
    t.attach(
        chan.clone(),
        vec![
            "1".to_string(),
            "weather-report".to_string(),
            "A".to_string(),
            "X".to_string(),
            "X".to_string(),
            "X".to_string(),
        ],
    );
    // No subscription request is out there: admission completes
    // quietly with zero matches and no fatal error.
    let r = a.add_subscriber(&mut t, "ZZZZ".to_string()).unwrap();
    assert!(r.is_empty());
    assert_eq!(a.subscriber_count(), 0);
    // Reading packets skips the foreign record just as quietly.
    let mut s = channel_subscriber::Channel::new("SUBSCRIBERSEED", chan, tag).unwrap();
    let _ = s.connect(&mut t).unwrap();
    let got = s.read_signed(&t).unwrap();
    assert!(got.is_empty());
}

#[test]
fn derivations_are_deterministic_and_grammatical() {
    assert_eq!(channels_lite::identity::derive_identity("S1"), "1S");
    assert_eq!(channels_lite::identity::derive_identity("AUTHORSEED"), "DEESROHTUA");
    assert_eq!(channels_lite::identity::msgid_of(0), "A");
    assert_eq!(channels_lite::identity::msgid_of(9), "J");
    assert_eq!(channels_lite::identity::msgid_of(12), "BC");
    assert_eq!(channels_lite::identity::msgid_of(205), "CAF");
    assert_eq!(channels_lite::identity::session_of(&"1S".to_string(), 3), "1SD");
}
