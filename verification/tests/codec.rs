//! The wire codec: exact frame shapes, round trips, and malformed input.

use rust_chat::client::message::create_exit_message;
use rust_chat::common::message::{
    create_chat_message, create_message, encode_message, parse_message, parse_to_struct,
    ChatMessage, DecodeError,
};
use rust_chat::common::protocol::MessageType;
use rust_chat::server::message::{
    create_hello_message, create_user_joined_message, create_user_left_message,
};

#[test]
fn hello_frame_exact() {
    assert_eq!(create_hello_message("42"), "{\"type\":\"hello\",\"id\":\"42\"}");
}

#[test]
fn user_joined_frame_exact() {
    assert_eq!(
        create_user_joined_message("abc"),
        "{\"type\":\"user_joined\",\"id\":\"abc\"}"
    );
}

#[test]
fn user_left_frame_exact() {
    assert_eq!(create_user_left_message("7"), "{\"type\":\"user_left\",\"id\":\"7\"}");
}

#[test]
fn chat_frame_exact() {
    assert_eq!(
        create_chat_message("1", "hi"),
        "{\"type\":\"chat\",\"id\":\"1\",\"text\":\"hi\"}"
    );
}

#[test]
fn exit_frame_exact() {
    assert_eq!(create_exit_message("9"), "{\"type\":\"user_exit\",\"id\":\"9\"}");
}

#[test]
fn client_chat_frame_matches_common() {
    assert_eq!(
        rust_chat::client::message::create_chat_message("u", "t"),
        create_chat_message("u", "t")
    );
    assert_eq!(
        rust_chat::server::message::create_chat_message("u", "t"),
        create_chat_message("u", "t")
    );
}

#[test]
fn absent_fields_are_omitted() {
    let frame = create_message(MessageType::Chat, None, Some("x"));
    assert_eq!(frame, "{\"type\":\"chat\",\"text\":\"x\"}");
    let frame = create_message(MessageType::UserExit, None, None);
    assert_eq!(frame, "{\"type\":\"user_exit\"}");
}

#[test]
fn values_are_escaped() {
    let frame = create_chat_message("a", "q\"b\\c");
    assert_eq!(frame, "{\"type\":\"chat\",\"id\":\"a\",\"text\":\"q\\\"b\\\\c\"}");
    let back = parse_message(&frame).unwrap();
    assert_eq!(back.text.as_deref(), Some("q\"b\\c"));
}

#[test]
fn round_trip_all_fields() {
    let m = ChatMessage {
        message_type: String::from("chat"),
        id: Some(String::from("17")),
        text: Some(String::from("hello there")),
    };
    assert_eq!(parse_message(&encode_message(&m)).unwrap(), m);
}

#[test]
fn round_trip_unknown_tag() {
    let m = ChatMessage {
        message_type: String::from("banana"),
        id: None,
        text: Some(String::from("kept")),
    };
    assert_eq!(parse_message(&encode_message(&m)).unwrap(), m);
}

#[test]
fn round_trip_no_optional_fields() {
    let m = ChatMessage { message_type: String::from("user_exit"), id: None, text: None };
    assert_eq!(parse_message(&encode_message(&m)).unwrap(), m);
}

#[test]
fn round_trip_unicode_text() {
    let m = ChatMessage {
        message_type: String::from("chat"),
        id: Some(String::from("3")),
        text: Some(String::from("héllo — 안녕 \\ \" done")),
    };
    assert_eq!(parse_message(&encode_message(&m)).unwrap(), m);
}

#[test]
fn decode_accepts_any_member_order() {
    let m = parse_message("{\"text\":\"hi\",\"type\":\"chat\"}").unwrap();
    assert_eq!(m.message_type, "chat");
    assert_eq!(m.text.as_deref(), Some("hi"));
    assert_eq!(m.id, None);
}

#[test]
fn decode_ignores_unknown_keys() {
    let m = parse_message("{\"type\":\"chat\",\"extra\":\"1\",\"text\":\"hi\"}").unwrap();
    assert_eq!(m.message_type, "chat");
    assert_eq!(m.text.as_deref(), Some("hi"));
}

#[test]
fn decode_takes_last_of_repeated_key() {
    let m = parse_message("{\"type\":\"a\",\"type\":\"b\"}").unwrap();
    assert_eq!(m.message_type, "b");
}

#[test]
fn decode_accepts_unicode_escapes() {
    let m = parse_message("{\"type\":\"\\u0041\\u00e9\"}").unwrap();
    assert_eq!(m.message_type, "A\u{e9}");
    // a surrogate pair is one character
    let m = parse_message("{\"type\":\"chat\",\"text\":\"\\uD83D\\uDE00\"}").unwrap();
    assert_eq!(m.text.as_deref(), Some("\u{1F600}"));
    // a lone surrogate is not a character
    assert_eq!(
        parse_message("{\"type\":\"\\uD83D\"}"),
        Err(DecodeError::Malformed)
    );
}

#[test]
fn decode_skips_non_string_members() {
    let m = parse_message(
        "{\"seq\":17,\"ok\":true,\"meta\":{\"a\":[1,2.5e-3,null,false],\"b\":{}},\"type\":\"chat\",\"text\":\"hi\",\"tags\":[\"x\",\"y\"]}",
    )
    .unwrap();
    assert_eq!(m.message_type, "chat");
    assert_eq!(m.text.as_deref(), Some("hi"));
    assert_eq!(m.id, None);
}

#[test]
fn non_string_id_or_text_reads_as_absent() {
    let m = parse_message("{\"type\":\"chat\",\"id\":7,\"text\":null}").unwrap();
    assert_eq!(m.message_type, "chat");
    assert_eq!(m.id, None);
    assert_eq!(m.text, None);
}

#[test]
fn non_string_type_is_malformed() {
    for bad in ["{\"type\":1}", "{\"type\":null}", "{\"type\":[\"chat\"]}"] {
        assert_eq!(parse_message(bad), Err(DecodeError::Malformed), "input: {bad}");
    }
}

#[test]
fn control_characters_are_escaped() {
    let frame = create_message(MessageType::Chat, None, Some("a\tb\nc"));
    assert_eq!(frame, "{\"type\":\"chat\",\"text\":\"a\\u0009b\\u000ac\"}");
    let back = parse_message(&frame).unwrap();
    assert_eq!(back.text.as_deref(), Some("a\tb\nc"));
}

#[test]
fn decode_unrecognized_type_succeeds() {
    let m = parse_message("{\"type\":\"mystery\"}").unwrap();
    assert_eq!(m.message_type, "mystery");
    assert_eq!(m.id, None);
    assert_eq!(m.text, None);
}

#[test]
fn decode_allows_whitespace_between_tokens() {
    let m = parse_message(" {\n  \"type\" : \"chat\" ,\r\n  \"text\"\t:\t\"hi\"\n} ").unwrap();
    assert_eq!(m.message_type, "chat");
    assert_eq!(m.text.as_deref(), Some("hi"));
    assert_eq!(m.id, None);
    let trailing = parse_message("{\"type\":\"a\"} ").unwrap();
    assert_eq!(trailing.message_type, "a");
}

#[test]
fn whitespace_inside_values_is_kept() {
    let m = parse_message("{\"type\":\" a b \"}").unwrap();
    assert_eq!(m.message_type, " a b ");
}

#[test]
fn decode_accepts_common_escapes() {
    let m = parse_message("{\"type\":\"chat\",\"text\":\"a\\nb\\tc\\\\d\\\"e\\/f\\r\"}").unwrap();
    assert_eq!(m.text.as_deref(), Some("a\nb\tc\\d\"e/f\r"));
    assert_eq!(
        parse_message("{\"type\":\"a\\qb\"}"),
        Err(DecodeError::Malformed),
        "an unknown escape is malformed"
    );
}

#[test]
fn decode_rejects_malformed() {
    for bad in [
        "",
        "   ",
        "{",
        "{}",
        "{ }",
        "not json",
        "{\"id\":\"1\"}",
        "[\"type\"]",
        "{\"type\":\"a\"",
        "{\"type\":\"a\\x\"}",
        "{\"type\":\"a\"}x",
        "{\"type\":\"a\"}}",
        "{\"type\" \"a\"}",
        "{\"type\":\"a\",}",
    ] {
        assert_eq!(parse_message(bad), Err(DecodeError::Malformed), "input: {bad}");
    }
}

#[test]
fn parse_to_struct_agrees_with_parse_message() {
    let frame = "{\"type\":\"hello\",\"id\":\"5\"}";
    assert_eq!(parse_to_struct(frame).unwrap(), parse_message(frame).unwrap());
    assert_eq!(parse_to_struct("{}"), Err(DecodeError::Malformed));
}

#[test]
fn message_type_tags_round_trip() {
    for t in [
        MessageType::Hello,
        MessageType::Chat,
        MessageType::UserJoined,
        MessageType::UserLeft,
        MessageType::UserExit,
    ] {
        assert_eq!(MessageType::from_str(t.as_str()), Some(t));
    }
    assert_eq!(MessageType::as_str(&MessageType::Hello), "hello");
    assert_eq!(MessageType::as_str(&MessageType::UserExit), "user_exit");
    assert_eq!(MessageType::from_str("bogus"), None);
    assert_eq!(MessageType::from_str(""), None);
    assert_eq!(MessageType::from_str("Hello"), None);
}
