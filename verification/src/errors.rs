use vstd::prelude::*;

verus! {

/// A fatal outcome of an author or subscriber operation.
///
/// Recoverable conditions met while scanning fetched records (a record
/// that fails to parse, a foreign content type, a failed unwrap) are
/// never surfaced through this type: scans skip such records and go on.
#[derive(Clone, Copy, Debug, PartialEq, Eq, Structural)]
pub enum ChannelError {
    /// The seed handed to a role constructor is not a valid identifier.
    InvalidSeed,
    /// A link component handed to an operation is not a valid identifier.
    InvalidLink,
}

/// Why a raw record could not be read as a message header.
#[derive(Clone, Copy, Debug, PartialEq, Eq, Structural)]
pub enum CodecError {
    /// The record holds fewer fields than any message header needs.
    TooShort,
    /// The record's leading version field is not the supported one.
    UnsupportedVersion,
}

} // verus!
