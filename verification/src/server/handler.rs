//! The dispatcher: what the server does with one inbound frame.

use crate::common::codec::spec_parse_message;
use crate::common::message::parse_message;
use crate::common::protocol::{lemma_tags_distinct, spec_tag, MessageType};
use vstd::prelude::*;

verus! {

/// What one inbound frame asks of the server.
#[derive(Debug, Clone)]
pub enum IncomingAction {
    /// A chat line: relay it to every other connection, stamped with the
    /// sender's identifier.
    Relay { text: String },
    /// A graceful disconnect request: stop reading and close.
    Exit,
    /// A tolerated frame nothing is done with: an unrecognized type, a
    /// server-to-client type arriving inbound, or a chat without text.
    Ignore,
    /// Not a protocol frame: treated as a transport fault, closing the
    /// connection.
    Disconnect,
}

/// Routes one inbound frame. A chat frame with text asks for a relay; a
/// `user_exit` frame asks for a graceful close; every other well-formed
/// frame is ignored; a frame that does not decode closes the connection.
pub fn handle_incoming_message(message: &str) -> (a: IncomingAction)
    ensures
        match spec_parse_message(message@) {
            None => a is Disconnect,
            Some(m) => {
                if m.message_type == spec_tag(MessageType::Chat) && m.text is Some {
                    a matches IncomingAction::Relay { text } && text@ == m.text.unwrap()
                } else if m.message_type == spec_tag(MessageType::UserExit) {
                    a is Exit
                } else {
                    a is Ignore
                }
            },
        },
{
    proof {
        lemma_tags_distinct();
    }
    match parse_message(message) {
        Err(_) => IncomingAction::Disconnect,
        Ok(m) => match MessageType::from_str(m.message_type.as_str()) {
            Some(MessageType::Chat) => match m.text {
                Some(text) => IncomingAction::Relay { text },
                None => IncomingAction::Ignore,
            },
            Some(MessageType::UserExit) => IncomingAction::Exit,
            _ => IncomingAction::Ignore,
        },
    }
}

} // verus!
