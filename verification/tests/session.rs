//! End-to-end scenarios over the session lifecycle, driven exactly as the
//! surrounding application drives them: register, announce, read, dispatch,
//! deliver, clean up. The transport is a vector of mailboxes; a sink is an
//! index into it.

use rust_chat::client::message::{handle_server_message, ServerEvent};
use rust_chat::registry::Registry;
use rust_chat::server::handler::{handle_incoming_message, IncomingAction};
use rust_chat::server::message::{
    create_chat_message, create_hello_message, create_user_joined_message,
    create_user_left_message,
};
use rust_chat::session::{id_string, Session, SessionPhase};

fn deliver(
    reg: &Registry<usize>,
    mailboxes: &mut Vec<Vec<String>>,
    plan: &[u64],
    frame: &str,
) {
    for &rid in plan {
        if let Some(&slot) = reg.get(rid) {
            mailboxes[slot].push(frame.to_string());
        }
    }
}

/// Connect one client: register, greet it, announce it to the others.
fn connect(
    reg: &mut Registry<usize>,
    mailboxes: &mut Vec<Vec<String>>,
) -> Session {
    let slot = mailboxes.len();
    mailboxes.push(Vec::new());
    let mut session = Session::begin();
    assert!(session.register(reg, slot));
    let id_str = id_string(session.id());
    // greeting, unicast to the new connection only
    let hello = create_hello_message(&id_str);
    deliver(reg, mailboxes, &[session.id()], &hello);
    // join announcement to everyone else
    let joined = create_user_joined_message(&id_str);
    let plan = reg.snapshot_except(session.id());
    deliver(reg, mailboxes, &plan, &joined);
    session.activate();
    session
}

#[test]
fn scenario_connect_and_join_announcement() {
    let mut reg: Registry<usize> = Registry::new();
    let mut mailboxes: Vec<Vec<String>> = Vec::new();

    let s1 = connect(&mut reg, &mut mailboxes);
    let id1 = id_string(s1.id());
    assert_eq!(
        mailboxes[0],
        vec![format!("{{\"type\":\"hello\",\"id\":\"{id1}\"}}")]
    );

    let s2 = connect(&mut reg, &mut mailboxes);
    let id2 = id_string(s2.id());
    // the second client got its own greeting and no join echo
    assert_eq!(
        mailboxes[1],
        vec![format!("{{\"type\":\"hello\",\"id\":\"{id2}\"}}")]
    );
    // the first client was told about the second
    assert_eq!(mailboxes[0].len(), 2);
    match handle_server_message(&mailboxes[0][1]) {
        ServerEvent::Joined { id } => assert_eq!(id, id2),
        other => panic!("expected a join notification, got {other:?}"),
    }
}

#[test]
fn scenario_chat_reaches_only_the_peer() {
    let mut reg: Registry<usize> = Registry::new();
    let mut mailboxes: Vec<Vec<String>> = Vec::new();
    let mut s1 = connect(&mut reg, &mut mailboxes);
    let s2 = connect(&mut reg, &mut mailboxes);
    let id1 = id_string(s1.id());
    let sent_before_1 = mailboxes[0].len();

    // client1 sends a chat frame; the dispatcher asks for a relay
    let action = s1.on_frame("{\"type\":\"chat\",\"text\":\"hi\"}");
    let text = match action {
        IncomingAction::Relay { text } => text,
        other => panic!("expected a relay, got {other:?}"),
    };
    assert_eq!(s1.phase(), SessionPhase::Active);
    let frame = create_chat_message(&id1, &text);
    let plan = reg.snapshot_except(s1.id());
    assert_eq!(plan, vec![s2.id()]);
    deliver(&reg, &mut mailboxes, &plan, &frame);

    // client2 (only) receives the stamped chat
    match handle_server_message(mailboxes[1].last().unwrap()) {
        ServerEvent::Chat { id, text } => {
            assert_eq!(id, id1);
            assert_eq!(text, "hi");
        },
        other => panic!("expected a chat, got {other:?}"),
    }
    assert_eq!(mailboxes[0].len(), sent_before_1);
}

#[test]
fn scenario_exit_closes_and_announces_leave() {
    let mut reg: Registry<usize> = Registry::new();
    let mut mailboxes: Vec<Vec<String>> = Vec::new();
    let mut s1 = connect(&mut reg, &mut mailboxes);
    let s2 = connect(&mut reg, &mut mailboxes);
    let id1 = id_string(s1.id());

    let action = s1.on_frame("{\"type\":\"user_exit\"}");
    assert!(matches!(action, IncomingAction::Exit));
    assert_eq!(s1.phase(), SessionPhase::Closing);

    // cleanup: deregister, then announce the departure
    let sink = s1.finish(&mut reg);
    assert_eq!(sink, Some(0));
    assert_eq!(s1.phase(), SessionPhase::Closed);
    assert!(!reg.contains(s1.id()));
    let left = create_user_left_message(&id1);
    let plan = reg.snapshot_except(s1.id());
    assert_eq!(plan, vec![s2.id()]);
    deliver(&reg, &mut mailboxes, &plan, &left);

    match handle_server_message(mailboxes[1].last().unwrap()) {
        ServerEvent::Left { id } => assert_eq!(id, id1),
        other => panic!("expected a leave notification, got {other:?}"),
    }
}

#[test]
fn malformed_frame_disconnects() {
    let mut reg: Registry<usize> = Registry::new();
    let mut mailboxes: Vec<Vec<String>> = Vec::new();
    let mut s1 = connect(&mut reg, &mut mailboxes);
    let action = s1.on_frame("not a frame");
    assert!(matches!(action, IncomingAction::Disconnect));
    assert_eq!(s1.phase(), SessionPhase::Closing);
    assert!(s1.finish(&mut reg).is_some());
}

#[test]
fn tolerated_frames_keep_the_session_active() {
    let mut reg: Registry<usize> = Registry::new();
    let mut mailboxes: Vec<Vec<String>> = Vec::new();
    let mut s1 = connect(&mut reg, &mut mailboxes);
    for frame in [
        "{\"type\":\"mystery\"}",
        "{\"type\":\"hello\",\"id\":\"1\"}",
        "{\"type\":\"user_joined\",\"id\":\"1\"}",
        "{\"type\":\"user_left\",\"id\":\"1\"}",
        "{\"type\":\"chat\"}",
    ] {
        let action = s1.on_frame(frame);
        assert!(matches!(action, IncomingAction::Ignore), "frame: {frame}");
        assert_eq!(s1.phase(), SessionPhase::Active);
    }
}

#[test]
fn transport_close_moves_to_closing() {
    let mut reg: Registry<usize> = Registry::new();
    let mut mailboxes: Vec<Vec<String>> = Vec::new();
    let mut s1 = connect(&mut reg, &mut mailboxes);
    s1.on_transport_close();
    assert_eq!(s1.phase(), SessionPhase::Closing);
    assert_eq!(s1.finish(&mut reg), Some(0));
}

#[test]
fn dispatcher_actions() {
    assert!(matches!(
        handle_incoming_message("{\"type\":\"chat\",\"text\":\"x\"}"),
        IncomingAction::Relay { text } if text == "x"
    ));
    assert!(matches!(
        handle_incoming_message("{\"type\":\"user_exit\"}"),
        IncomingAction::Exit
    ));
    assert!(matches!(
        handle_incoming_message("{\"type\":\"user_left\",\"id\":\"1\"}"),
        IncomingAction::Ignore
    ));
    assert!(matches!(handle_incoming_message("{}"), IncomingAction::Disconnect));
}

#[test]
fn server_message_classification() {
    assert!(matches!(
        handle_server_message("{\"type\":\"hello\",\"id\":\"4\"}"),
        ServerEvent::Hello { id } if id == "4"
    ));
    assert!(matches!(
        handle_server_message("{\"type\":\"chat\",\"id\":\"4\",\"text\":\"y\"}"),
        ServerEvent::Chat { id, text } if id == "4" && text == "y"
    ));
    // a chat without a sender id is not displayable: tolerated, ignored
    assert!(matches!(
        handle_server_message("{\"type\":\"chat\",\"text\":\"y\"}"),
        ServerEvent::Unknown
    ));
    assert!(matches!(
        handle_server_message("{\"type\":\"user_exit\"}"),
        ServerEvent::Unknown
    ));
    assert!(matches!(handle_server_message("nope"), ServerEvent::Malformed));
}

#[test]
fn id_strings_are_decimal() {
    assert_eq!(id_string(0), "0");
    assert_eq!(id_string(7), "7");
    assert_eq!(id_string(10), "10");
    assert_eq!(id_string(1234567890123), "1234567890123");
    assert_eq!(id_string(u64::MAX), "18446744073709551615");
}

#[test]
fn registration_failure_is_fatal_to_that_connection_only() {
    let mut reg: Registry<usize> = Registry::new();
    // the largest identifier is live: minting has nothing fresh to give
    assert!(reg.register(u64::MAX, 0));
    let mut s = Session::begin();
    assert!(!s.register(&mut reg, 1));
    assert_eq!(s.phase(), SessionPhase::Closed);
    // the registry is untouched and other connections go on
    assert!(reg.contains(u64::MAX));
    assert_eq!(reg.snapshot_except(0), vec![u64::MAX]);
}
