use vstd::prelude::*;

verus! {

/// Errors raised by the transfer application.
///
/// Negotiation errors abort a channel handshake; accounting and decode
/// errors on the receive path are converted by the caller into a soft
/// failure acknowledgement rather than surfaced to the transport.
#[derive(Debug, Clone, PartialEq)]
pub enum ContractError {
    /// A handshake proposed a version string other than the fixed
    /// protocol version.
    InvalidIbcVersion { version: String },
    /// A handshake proposed an ordering other than the required one.
    OnlyOrderedChannel {},
    /// A receive asked for more value than is escrowed for its
    /// (channel, denomination) entry, or no entry exists.
    InsufficientFunds {},
    /// An acknowledgement envelope did not decode.
    MalformedAck {},
    /// A ledger counter would exceed its range.
    Overflow {},
}

} // verus!
