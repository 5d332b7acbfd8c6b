//! Message values and the public face of the codec: building wire frames
//! and reading them back.

use crate::common::codec::{
    encode_fields, decode_fields, opt_view, spec_encode_message, spec_parse_message, MessageModel,
};
use crate::common::protocol::{spec_tag, MessageType};
use vstd::prelude::*;

verus! {

/// A decoded (or about-to-be-encoded) message. `message_type` holds the raw
/// wire tag, so a tag outside the recognized set survives decoding intact
/// and policy for it is left to the dispatcher. The optional fields are
/// omitted from the wire form when absent, never sent as null.
#[derive(Debug, Clone)]
pub struct ChatMessage {
    pub message_type: String,
    pub id: Option<String>,
    pub text: Option<String>,
}

impl View for ChatMessage {
    type V = MessageModel;

    open spec fn view(&self) -> MessageModel {
        MessageModel {
            message_type: self.message_type@,
            id: self.id.deep_view(),
            text: self.text.deep_view(),
        }
    }
}

/// Compares two optional strings by their characters.
fn opt_string_eq(a: &Option<String>, b: &Option<String>) -> (r: bool)
    ensures
        r == (a.deep_view() == b.deep_view()),
{
    match a {
        Some(x) => match b {
            Some(y) => *x == *y,
            None => false,
        },
        None => match b {
            Some(_) => false,
            None => true,
        },
    }
}

impl PartialEq for ChatMessage {
    fn eq(&self, other: &ChatMessage) -> (r: bool) {
        let types_eq = self.message_type == other.message_type;
        let ids_eq = opt_string_eq(&self.id, &other.id);
        let texts_eq = opt_string_eq(&self.text, &other.text);
        types_eq && ids_eq && texts_eq
    }
}

impl vstd::std_specs::cmp::PartialEqSpecImpl for ChatMessage {
    open spec fn obeys_eq_spec() -> bool {
        true
    }

    open spec fn eq_spec(&self, other: &ChatMessage) -> bool {
        self@ == other@
    }
}

/// Why a frame failed to decode. A recognized shape with an unrecognized
/// `type` value is not an error: it decodes into a `ChatMessage` carrying
/// the raw tag.
#[derive(Debug, Clone, Copy, PartialEq, Eq, Structural)]
pub enum DecodeError {
    /// The frame is not an object of string members, or has no `type` member.
    Malformed,
}

/// Builds the wire form of a message from a recognized type tag and the
/// optional `id` and `text` fields. Encoding always succeeds and emits only
/// the populated fields.
pub fn create_message(message_type: MessageType, id: Option<&str>, text: Option<&str>) -> (r:
    String)
    ensures
        r@ == spec_encode_message(
            MessageModel {
                message_type: spec_tag(message_type),
                id: opt_view(id),
                text: opt_view(text),
            },
        ),
{
    let tag = message_type.as_str();
    encode_fields(tag, id, text)
}

/// Builds a chat message carrying a sender and its text.
pub fn create_chat_message(id: &str, text: &str) -> (r: String)
    ensures
        r@ == spec_encode_message(
            MessageModel {
                message_type: spec_tag(MessageType::Chat),
                id: Some(id@),
                text: Some(text@),
            },
        ),
{
    create_message(MessageType::Chat, Some(id), Some(text))
}

/// Builds the wire form of a message value, unrecognized tags included.
pub fn encode_message(m: &ChatMessage) -> (r: String)
    ensures
        r@ == spec_encode_message(m@),
{
    let id = match &m.id {
        Some(s) => Some(s.as_str()),
        None => None,
    };
    let text = match &m.text {
        Some(s) => Some(s.as_str()),
        None => None,
    };
    encode_fields(m.message_type.as_str(), id, text)
}

/// Decodes one frame. Fails with `DecodeError::Malformed` exactly where the
/// frame does not fit the wire grammar or lacks a `type` member; an
/// unrecognized `type` value decodes successfully.
pub fn parse_message(message: &str) -> (r: Result<ChatMessage, DecodeError>)
    ensures
        match r {
            Ok(m) => spec_parse_message(message@) == Some(m@),
            Err(e) => spec_parse_message(message@) is None && e == DecodeError::Malformed,
        },
{
    match decode_fields(message) {
        Some((t, id, text)) => Ok(ChatMessage { message_type: t, id, text }),
        None => Err(DecodeError::Malformed),
    }
}

/// Decodes one frame into a `ChatMessage`, as `parse_message` does.
pub fn parse_to_struct(message: &str) -> (r: Result<ChatMessage, DecodeError>)
    ensures
        match r {
            Ok(m) => spec_parse_message(message@) == Some(m@),
            Err(e) => spec_parse_message(message@) is None && e == DecodeError::Malformed,
        },
{
    parse_message(message)
}

} // verus!
