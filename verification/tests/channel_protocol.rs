use channels_lite::channel_author;
use channels_lite::channel_author::SendOptions;
use channels_lite::channel_subscriber;
use channels_lite::errors::ChannelError;
use channels_lite::transport::Transport;

fn author(seed: &str) -> channel_author::Channel {
    channel_author::Channel::new(seed, 3, SendOptions::default()).unwrap()
}

#[test]
fn announce_returns_nonempty_link() {
    let mut t = Transport::new();
    let mut a = author("S1");
    let (chan, tag) = a.open(&mut t).unwrap();
    assert!(!chan.is_empty());
    assert!(!tag.is_empty());
    // The identity, and with it the channel address, is derived
    // deterministically from the seed; the first message id is the
    // first counter value in the identifier alphabet.
    assert_eq!(chan, "1S");
    assert_eq!(tag, "A");
}

#[test]
fn connect_against_announce_becomes_connected() {
    let mut t = Transport::new();
    let mut a = author("S1");
    let (chan, tag) = a.open(&mut t).unwrap();
    let mut s = channel_subscriber::Channel::new("S2", chan, tag).unwrap();
    assert!(!s.is_connected());
    let sub_tag = s.connect(&mut t).unwrap();
    assert!(!sub_tag.is_empty());
    assert!(s.is_connected());
}

#[test]
fn connect_without_announce_stays_unconnected() {
    let mut t = Transport::new();
    let mut s = channel_subscriber::Channel::new(
        "SUBSCRIBERSEED",
        "DEESROHTUA".to_string(),
        "A".to_string(),
    )
    .unwrap();
    let sub_tag = s.connect(&mut t).unwrap();
    assert!(sub_tag.is_empty());
    assert!(!s.is_connected());
}

#[test]
fn add_subscriber_returns_keyload_link_and_grows_set() {
    let mut t = Transport::new();
    let mut a = author("AUTHORSEED");
    let (chan, tag) = a.open(&mut t).unwrap();
    let mut s = channel_subscriber::Channel::new("SUBSCRIBERSEED", chan, tag).unwrap();
    let sub_tag = s.connect(&mut t).unwrap();
    assert_eq!(a.subscriber_count(), 0);
    let keyload_tag = a.add_subscriber(&mut t, sub_tag).unwrap();
    assert!(!keyload_tag.is_empty());
    assert_eq!(a.subscriber_count(), 1);
}

#[test]
fn add_subscriber_without_subscription_is_a_quiet_no_op() {
    let mut t = Transport::new();
    let mut a = author("AUTHORSEED");
    let (_, _) = a.open(&mut t).unwrap();
    let r = a.add_subscriber(&mut t, "ZZZZ".to_string()).unwrap();
    assert!(r.is_empty());
    assert_eq!(a.subscriber_count(), 0);
}

#[test]
fn signed_packet_round_trip() {
    let mut t = Transport::new();
    let mut a = author("AUTHORSEED");
    let (chan, tag) = a.open(&mut t).unwrap();
    let mut s = channel_subscriber::Channel::new("SUBSCRIBERSEED", chan, tag).unwrap();
    let _ = s.connect(&mut t).unwrap();
    let l2 = a.write_signed(&mut t, "pub1", "priv1").unwrap();
    assert!(!l2.is_empty());
    let got = s.read_signed(&t).unwrap();
    assert_eq!(got, vec![("pub1".to_string(), "priv1".to_string())]);
}

#[test]
fn read_signed_while_unconnected_is_empty() {
    let mut t = Transport::new();
    let mut a = author("AUTHORSEED");
    let (chan, tag) = a.open(&mut t).unwrap();
    let mut s = channel_subscriber::Channel::new("SUBSCRIBERSEED", chan, tag).unwrap();
    let _ = a.write_signed(&mut t, "pub1", "priv1").unwrap();
    let got = s.read_signed(&t).unwrap();
    assert!(got.is_empty());
}

#[test]
fn tagged_packet_gated_by_keyload() {
    let mut t = Transport::new();
    let mut a = author("AUTHORSEED");
    let (chan, tag) = a.open(&mut t).unwrap();
    let mut s = channel_subscriber::Channel::new("SUBSCRIBERSEED", chan, tag).unwrap();
    let sub_tag = s.connect(&mut t).unwrap();
    let keyload_tag = a.add_subscriber(&mut t, sub_tag).unwrap();
    let _ = a.write_tagged(&mut t, "pt", "mt").unwrap();
    // Before the keyload is applied the packet stays closed.
    let before = s.read_tagged(&t).unwrap();
    assert!(before.is_empty());
    // After applying the keyload the very same packet opens.
    s.update_keyload(&t, keyload_tag).unwrap();
    let after = s.read_tagged(&t).unwrap();
    assert_eq!(after, vec![("pt".to_string(), "mt".to_string())]);
}

#[test]
fn update_keyload_while_unconnected_is_a_quiet_no_op() {
    let t = Transport::new();
    let mut s = channel_subscriber::Channel::new(
        "SUBSCRIBERSEED",
        "DEESROHTUA".to_string(),
        "A".to_string(),
    )
    .unwrap();
    let r = s.update_keyload(&t, "STALETAG".to_string());
    assert!(r.is_ok());
    assert!(!s.is_connected());
}

#[test]
fn disconnect_on_unconnected_subscriber_is_quiet() {
    let mut t = Transport::new();
    let mut s = channel_subscriber::Channel::new(
        "SUBSCRIBERSEED",
        "DEESROHTUA".to_string(),
        "A".to_string(),
    )
    .unwrap();
    let r = s.disconnect(&mut t).unwrap();
    assert!(r.is_empty());
    let again = s.disconnect(&mut t).unwrap();
    assert!(again.is_empty());
}

#[test]
fn disconnect_then_remove_subscriber_shrinks_set() {
    let mut t = Transport::new();
    let mut a = author("AUTHORSEED");
    let (chan, tag) = a.open(&mut t).unwrap();
    let mut s = channel_subscriber::Channel::new("SUBSCRIBERSEED", chan, tag).unwrap();
    let sub_tag = s.connect(&mut t).unwrap();
    let _ = a.add_subscriber(&mut t, sub_tag).unwrap();
    assert_eq!(a.subscriber_count(), 1);
    let unsub_tag = s.disconnect(&mut t).unwrap();
    assert!(!unsub_tag.is_empty());
    a.remove_subscriber(&mut t, unsub_tag).unwrap();
    assert_eq!(a.subscriber_count(), 0);
}

#[test]
fn author_new_rejects_malformed_seed() {
    let r = channel_author::Channel::new("bad seed", 3, SendOptions::default());
    assert!(matches!(r, Err(ChannelError::InvalidSeed)));
    let r = channel_author::Channel::new("", 3, SendOptions::default());
    assert!(matches!(r, Err(ChannelError::InvalidSeed)));
}

#[test]
fn subscriber_new_rejects_malformed_input() {
    let r = channel_subscriber::Channel::new("bad seed", "DEESROHTUA".to_string(), "A".to_string());
    assert!(matches!(r, Err(ChannelError::InvalidSeed)));
    let r = channel_subscriber::Channel::new("GOODSEED", "not:valid".to_string(), "A".to_string());
    assert!(matches!(r, Err(ChannelError::InvalidLink)));
    let r = channel_subscriber::Channel::new("GOODSEED", "DEESROHTUA".to_string(), "".to_string());
    assert!(matches!(r, Err(ChannelError::InvalidLink)));
}

#[test]
fn add_subscriber_rejects_malformed_link_hint() {
    let mut t = Transport::new();
    let mut a = author("AUTHORSEED");
    let (_, _) = a.open(&mut t).unwrap();
    let r = a.add_subscriber(&mut t, "lower case".to_string());
    assert!(matches!(r, Err(ChannelError::InvalidLink)));
}

#[test]
fn update_keyload_rejects_malformed_link_hint_when_connected() {
    let mut t = Transport::new();
    let mut a = author("AUTHORSEED");
    let (chan, tag) = a.open(&mut t).unwrap();
    let mut s = channel_subscriber::Channel::new("SUBSCRIBERSEED", chan, tag).unwrap();
    let _ = s.connect(&mut t).unwrap();
    let r = s.update_keyload(&t, "bad tag".to_string());
    assert!(matches!(r, Err(ChannelError::InvalidLink)));
}

#[test]
fn keyload_for_someone_else_leaves_key_unchanged() {
    let mut t = Transport::new();
    let mut a = author("AUTHORSEED");
    let (chan, tag) = a.open(&mut t).unwrap();
    let mut s1 =
        channel_subscriber::Channel::new("SUBSCRIBERSEED", chan.clone(), tag.clone()).unwrap();
    let mut s2 = channel_subscriber::Channel::new("OTHERSEED", chan, tag).unwrap();
    let sub1 = s1.connect(&mut t).unwrap();
    let _ = s2.connect(&mut t).unwrap();
    // The keyload covers only the first subscriber.
    let keyload_tag = a.add_subscriber(&mut t, sub1).unwrap();
    let _ = a.write_tagged(&mut t, "pt", "mt").unwrap();
    // The second subscriber finds no entry addressed to it and stays
    // without a session key.
    s2.update_keyload(&t, keyload_tag).unwrap();
    let got = s2.read_tagged(&t).unwrap();
    assert!(got.is_empty());
}
