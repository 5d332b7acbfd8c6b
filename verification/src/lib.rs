//! A chat relay hub: a connection registry with broadcast/unicast delivery
//! planning, a session lifecycle state machine, and a codec for the JSON
//! wire protocol, all with verified contracts.
//!
//! Transport I/O (the websocket handshake, frame reads and frame sends) is
//! left to the surrounding application: the library decides who is
//! registered, which recipients a message goes to, what each inbound frame
//! means, and how messages are encoded and decoded.

pub mod broadcast;
pub mod client;
pub mod common;
pub mod registry;
pub mod session;
pub mod server;
