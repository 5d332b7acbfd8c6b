//! Pieces shared by the server and client sides: the message type tags and
//! the wire codec.

pub mod codec;
pub mod message;
pub mod protocol;
