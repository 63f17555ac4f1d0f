//! An MQTT v3.1.1 / v5.0 client protocol engine.
//!
//! The crate is organised leaf-first:
//! - [`types`] holds the value types shared by every layer: quality of
//!   service, protocol version, and the client error taxonomy.
//! - [`topic`] validates topic names and topic filters and implements
//!   wildcard matching as a pure function.
//! - [`varint`] is the variable-length integer codec used by the MQTT
//!   fixed header and by MQTT 5 properties.
//! - [`properties`] is the typed property store of MQTT 5 packets.
//! - [`codec`] encodes and decodes whole control packets.
//! - [`engine`] is the session state machine and delivery tracker: a pure
//!   step function from client calls, decoded packets and clock readings to
//!   state changes, queued packets and application events.
//!
//! The engine never touches a socket: a caller feeds it decoded packets and
//! the current time, and drains queued packets and events from it.

pub mod codec;
pub mod engine;
pub mod properties;
pub mod topic;
pub mod types;
pub mod varint;
pub mod wire;

pub use types::QoS;
