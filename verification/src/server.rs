//! The server side: building outbound frames and dispatching inbound ones.

pub mod handler;
pub mod message;
