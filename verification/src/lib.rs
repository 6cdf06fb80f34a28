//! Relay-side accounting and packet-lifecycle logic for an ICS20-style
//! fungible-token transfer application.
//!
//! The crate models the escrow ledger and channel registry as an in-memory
//! store ([`state::Store`]), the packet state machine as functions over that
//! store ([`ibc`]), and the acknowledgement envelope as a byte-level codec
//! ([`ack`]). All accounting invariants are stated as contracts and verified.

pub mod ack;
pub mod amount;
pub mod channel;
pub mod error;
pub mod ibc;
pub mod laws;
pub mod state;
