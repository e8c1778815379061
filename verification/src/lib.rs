//! Pairing management for an accessory-control server: a TLV8 wire codec
//! together with the state machine that decodes a pairing request,
//! authorizes it against a credential store, executes it, and builds the
//! response container.

pub mod bytes;
pub mod handler;
pub mod ids;
pub mod permission;
pub mod store;
pub mod tlv;
