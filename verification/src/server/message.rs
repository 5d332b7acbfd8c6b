//! Frames the server sends: the greeting, lifecycle notifications, and
//! relayed chat.

use crate::common::codec::{spec_encode_message, MessageModel};
use crate::common::message;
use crate::common::protocol::{spec_tag, MessageType};
use vstd::prelude::*;

verus! {

/// The greeting unicast to a connection right after it registers,
/// carrying its assigned identifier.
pub fn create_hello_message(client_id: &str) -> (r: String)
    ensures
        r@ == spec_encode_message(
            MessageModel {
                message_type: spec_tag(MessageType::Hello),
                id: Some(client_id@),
                text: None,
            },
        ),
{
    message::create_message(MessageType::Hello, Some(client_id), None)
}

/// The notification broadcast when a peer joins.
pub fn create_user_joined_message(client_id: &str) -> (r: String)
    ensures
        r@ == spec_encode_message(
            MessageModel {
                message_type: spec_tag(MessageType::UserJoined),
                id: Some(client_id@),
                text: None,
            },
        ),
{
    message::create_message(MessageType::UserJoined, Some(client_id), None)
}

/// The notification broadcast when a peer leaves.
pub fn create_user_left_message(client_id: &str) -> (r: String)
    ensures
        r@ == spec_encode_message(
            MessageModel {
                message_type: spec_tag(MessageType::UserLeft),
                id: Some(client_id@),
                text: None,
            },
        ),
{
    message::create_message(MessageType::UserLeft, Some(client_id), None)
}

/// A relayed chat frame, stamped with the sender's identifier.
pub fn create_chat_message(client_id: &str, text: &str) -> (r: String)
    ensures
        r@ == spec_encode_message(
            MessageModel {
                message_type: spec_tag(MessageType::Chat),
                id: Some(client_id@),
                text: Some(text@),
            },
        ),
{
    message::create_chat_message(client_id, text)
}

} // verus!
