//! A cryptographically gated publish/subscribe channel protocol over an
//! append-only, multi-writer record store.
//!
//! One party, the author, announces a channel, admits and revokes
//! subscribers, and publishes signed or group-keyed packets; subscribers
//! join the channel, read packets, and refresh their session key from
//! keyload messages.  The wire-level cryptographic primitives (signature
//! scheme, cipher, proof of work) and the ledger transport itself are
//! external collaborators; this crate verifies the protocol core that
//! drives them: address handling, record framing and dispatch, the role
//! state machines, and the keyload-based gating of decryption.

pub mod address;
pub mod channel_author;
pub mod channel_subscriber;
pub mod codec;
pub mod errors;
pub mod identity;
pub mod laws;
pub mod scan;
pub mod transport;

