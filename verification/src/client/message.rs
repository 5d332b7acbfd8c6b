//! Frames a client sends, and the meaning of frames it receives.

use crate::common::codec::{spec_encode_message, spec_parse_message, MessageModel};
use crate::common::message;
use crate::common::message::parse_message;
use crate::common::protocol::{spec_tag, MessageType};
use vstd::prelude::*;

verus! {

/// A chat frame carrying this client's identifier and the typed line.
pub fn create_chat_message(client_id: &str, text: &str) -> (r: String)
    ensures
        r@ == spec_encode_message(
            MessageModel {
                message_type: spec_tag(MessageType::Chat),
                id: Some(client_id@),
                text: Some(text@),
            },
        ),
{
    message::create_chat_message(client_id, text)
}

/// A frame asking the server for a graceful disconnect.
pub fn create_exit_message(client_id: &str) -> (r: String)
    ensures
        r@ == spec_encode_message(
            MessageModel {
                message_type: spec_tag(MessageType::UserExit),
                id: Some(client_id@),
                text: None,
            },
        ),
{
    message::create_message(MessageType::UserExit, Some(client_id), None)
}

/// What one frame from the server means to a client.
#[derive(Debug, Clone)]
pub enum ServerEvent {
    /// The server assigned this connection the given identifier.
    Hello { id: String },
    /// Another peer joined.
    Joined { id: String },
    /// Another peer left.
    Left { id: String },
    /// A peer said something.
    Chat { id: String, text: String },
    /// A well-formed frame of a type (or shape) a client does not act on.
    Unknown,
    /// Not a protocol frame at all.
    Malformed,
}

/// Classifies one frame received from the server. Frames that decode but
/// carry an unrecognized type, or lack the fields their type calls for,
/// are `Unknown`: tolerated, never fatal. Only a frame that fails to
/// decode is `Malformed`.
pub fn handle_server_message(message: &str) -> (ev: ServerEvent)
    ensures
        match spec_parse_message(message@) {
            None => ev is Malformed,
            Some(m) => {
                if m.message_type == spec_tag(MessageType::Hello) && m.id is Some {
                    ev matches ServerEvent::Hello { id } && id@ == m.id.unwrap()
                } else if m.message_type == spec_tag(MessageType::Chat) && m.id is Some && m.text
                    is Some {
                    ev matches ServerEvent::Chat { id, text } && id@ == m.id.unwrap() && text@
                        == m.text.unwrap()
                } else if m.message_type == spec_tag(MessageType::UserJoined) && m.id is Some {
                    ev matches ServerEvent::Joined { id } && id@ == m.id.unwrap()
                } else if m.message_type == spec_tag(MessageType::UserLeft) && m.id is Some {
                    ev matches ServerEvent::Left { id } && id@ == m.id.unwrap()
                } else {
                    ev is Unknown
                }
            },
        },
{
    proof {
        crate::common::protocol::lemma_tags_distinct();
    }
    match parse_message(message) {
        Err(_) => ServerEvent::Malformed,
        Ok(m) => match MessageType::from_str(m.message_type.as_str()) {
            Some(MessageType::Hello) => match m.id {
                Some(id) => ServerEvent::Hello { id },
                None => ServerEvent::Unknown,
            },
            Some(MessageType::Chat) => match (m.id, m.text) {
                (Some(id), Some(text)) => ServerEvent::Chat { id, text },
                _ => ServerEvent::Unknown,
            },
            Some(MessageType::UserJoined) => match m.id {
                Some(id) => ServerEvent::Joined { id },
                None => ServerEvent::Unknown,
            },
            Some(MessageType::UserLeft) => match m.id {
                Some(id) => ServerEvent::Left { id },
                None => ServerEvent::Unknown,
            },
            _ => ServerEvent::Unknown,
        },
    }
}

} // verus!
