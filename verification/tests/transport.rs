//! End-to-end tests of the verified transport library: the wire codec and
//! its legacy fallback, the session worker state machine, the client handle,
//! the relay reaction policy, and the registry's pruning broadcast.

use std::sync::mpsc;

use ralph_core::attachments::{detect_attachment_kind, file_name_from_path, format_bytes,
    pending_to_realtime_attachments, realtime_to_pending_attachments, PendingAttachment};
use ralph_core::channels::{build_composer_meta, seed_channels, seed_messages, Channel};
use ralph_core::codec::{decode_payload, decode_realtime_inbound, encode_payload,
    encode_realtime_message, parse_legacy_message};
use ralph_core::protocol::{ChannelKind, Message, PresenceStatus, RealtimeAttachment,
    RealtimeCommand, RealtimeEvent, RealtimeInbound, RealtimePayload, RealtimeStatus};
use ralph_core::registry::Registry;
use ralph_core::relay::{format_timestamp_utc, handler_react, welcome_frame};
use ralph_core::search::{escape_like, search_like_pattern};
use ralph_core::session::{RealtimeClient, RealtimeWorker, WorkerAction};

fn message(author: &str, body: &str, sent_at: &str, channel_id: i64) -> Message {
    Message {
        id: 0,
        author: author.to_string(),
        body: body.to_string(),
        sent_at: sent_at.to_string(),
        channel_id,
    }
}

fn attachment(path: &str, name: &str, size: i64, kind: &str) -> RealtimeAttachment {
    RealtimeAttachment {
        file_path: path.to_string(),
        file_name: name.to_string(),
        file_size: size,
        kind: kind.to_string(),
    }
}

// ---------- the wire codec ----------

#[test]
fn encode_message_is_canonical() {
    let text = encode_realtime_message(&message("you", "hi", "09:15", 1), Vec::new());
    assert_eq!(
        text,
        "{\"type\":\"message\",\"author\":\"you\",\"body\":\"hi\",\"sent_at\":\"09:15\",\"channel_id\":1,\"client_id\":null}"
    );
}

#[test]
fn encode_message_with_attachments() {
    let atts = vec![attachment("/tmp/a.png", "a.png", 123, "image")];
    let text = encode_realtime_message(&message("you", "hi", "09:15", 1), atts);
    assert_eq!(
        text,
        "{\"type\":\"message\",\"author\":\"you\",\"body\":\"hi\",\"sent_at\":\"09:15\",\"channel_id\":1,\"client_id\":null,\"attachments\":[{\"file_path\":\"/tmp/a.png\",\"file_name\":\"a.png\",\"file_size\":123,\"kind\":\"image\"}]}"
    );
}

#[test]
fn encode_escapes_strings() {
    let text = encode_realtime_message(
        &message("a\"b", "line1\nline2\tand \\ done", "09:15", 2),
        Vec::new(),
    );
    assert_eq!(
        text,
        "{\"type\":\"message\",\"author\":\"a\\\"b\",\"body\":\"line1\\nline2\\tand \\\\ done\",\"sent_at\":\"09:15\",\"channel_id\":2,\"client_id\":null}"
    );
}

#[test]
fn round_trip_plain_message() {
    let text = encode_realtime_message(&message("alice", "hello there", "10:00", 7), Vec::new());
    match decode_realtime_inbound(&text) {
        Ok(RealtimeInbound::Message(incoming)) => {
            assert_eq!(incoming.message.author, "alice");
            assert_eq!(incoming.message.body, "hello there");
            assert_eq!(incoming.message.sent_at, "10:00");
            assert_eq!(incoming.message.channel_id, 7);
            assert_eq!(incoming.message.id, 0);
            assert!(incoming.attachments.is_empty());
        }
        other => panic!("expected a message, got {:?}", other),
    }
}

#[test]
fn round_trip_keeps_attachment_order() {
    let atts = vec![
        attachment("/tmp/one.png", "one.png", 10, "image"),
        attachment("/tmp/two.pdf", "two.pdf", 20, "document"),
        attachment("/tmp/three.bin", "three.bin", 30, "file"),
    ];
    let text = encode_realtime_message(&message("bob", "files", "11:30", 3), atts.clone());
    match decode_realtime_inbound(&text) {
        Ok(RealtimeInbound::Message(incoming)) => {
            assert_eq!(incoming.attachments, atts);
        }
        other => panic!("expected a message, got {:?}", other),
    }
}

#[test]
fn round_trip_exotic_text_and_negative_channel() {
    let body = "tabs\tquotes\" backslash\\ unicode \u{00e9}\u{4e16}\u{1f600} control\u{1}";
    let text = encode_realtime_message(&message("m\u{00fc}ller", body, "23:59", -42), Vec::new());
    match decode_realtime_inbound(&text) {
        Ok(RealtimeInbound::Message(incoming)) => {
            assert_eq!(incoming.message.author, "m\u{00fc}ller");
            assert_eq!(incoming.message.body, body);
            assert_eq!(incoming.message.channel_id, -42);
        }
        other => panic!("expected a message, got {:?}", other),
    }
}

#[test]
fn decode_accepts_whitespace_and_any_field_order() {
    let text = " { \"author\" : \"zoe\" , \"channel_id\" : 9 , \"type\" : \"message\" ,\n\t\"body\" : \"ok\" , \"sent_at\" : \"08:01\" } ";
    match decode_realtime_inbound(text) {
        Ok(RealtimeInbound::Message(incoming)) => {
            assert_eq!(incoming.message.author, "zoe");
            assert_eq!(incoming.message.channel_id, 9);
            assert_eq!(incoming.message.body, "ok");
            assert!(incoming.attachments.is_empty());
        }
        other => panic!("expected a message, got {:?}", other),
    }
}

#[test]
fn decode_ignores_unknown_fields_and_keeps_client_id() {
    let text = "{\"type\":\"message\",\"author\":\"a\",\"body\":\"b\",\"sent_at\":\"c\",\"channel_id\":1,\"client_id\":\"xyz\",\"extra\":true}";
    match decode_payload(text) {
        Some(RealtimePayload::Message { client_id, .. }) => {
            assert_eq!(client_id, Some("xyz".to_string()));
        }
        other => panic!("expected a message payload, got {:?}", other),
    }
}

#[test]
fn decode_rejects_missing_required_field() {
    // no channel_id: not a structured message, and not legacy either
    let text = "{\"type\":\"message\",\"author\":\"a\",\"body\":\"b\",\"sent_at\":\"c\"}";
    assert!(decode_payload(text).is_none());
    assert!(decode_realtime_inbound(text).is_err());
}

#[test]
fn decode_rejects_unknown_tag() {
    let text = "{\"type\":\"mystery\",\"author\":\"a\"}";
    assert!(decode_payload(text).is_none());
}

#[test]
fn decode_ack_and_auth_become_signals() {
    match decode_realtime_inbound("{\"type\":\"ack\",\"kind\":\"message\",\"detail\":\"stored\"}")
    {
        Ok(RealtimeInbound::Signal(s)) => assert_eq!(s, "Ack: message (stored)"),
        other => panic!("expected a signal, got {:?}", other),
    }
    match decode_realtime_inbound("{\"type\":\"auth\",\"token\":\"t\",\"user\":\"mara\"}") {
        Ok(RealtimeInbound::Signal(s)) => assert_eq!(s, "Auth received for mara"),
        other => panic!("expected a signal, got {:?}", other),
    }
}

#[test]
fn decode_presence() {
    match decode_realtime_inbound("{\"type\":\"presence\",\"user\":\"mara\",\"status\":\"away\"}")
    {
        Ok(RealtimeInbound::Presence { user, status }) => {
            assert_eq!(user, "mara");
            assert_eq!(status, "away");
        }
        other => panic!("expected presence, got {:?}", other),
    }
}

#[test]
fn legacy_frame_decodes_with_body_absorbing_tabs() {
    match parse_legacy_message("alice\t3\t09:15\thello\tworld") {
        Some(incoming) => {
            assert_eq!(incoming.message.author, "alice");
            assert_eq!(incoming.message.channel_id, 3);
            assert_eq!(incoming.message.sent_at, "09:15");
            assert_eq!(incoming.message.body, "hello\tworld");
            assert!(incoming.attachments.is_empty());
        }
        None => panic!("legacy frame should decode"),
    }
}

#[test]
fn legacy_frame_reaches_decode_through_fallback() {
    match decode_realtime_inbound("alice\t3\t09:15\thello\tworld") {
        Ok(RealtimeInbound::Message(incoming)) => {
            assert_eq!(incoming.message.author, "alice");
            assert_eq!(incoming.message.channel_id, 3);
            assert_eq!(incoming.message.body, "hello\tworld");
        }
        other => panic!("expected a legacy message, got {:?}", other),
    }
}

#[test]
fn legacy_frame_variants() {
    // signs and leading zeros in the channel field, as a plain integer parse
    assert_eq!(parse_legacy_message("a\t007\tt\tb").unwrap().message.channel_id, 7);
    assert_eq!(parse_legacy_message("a\t-2\tt\tb").unwrap().message.channel_id, -2);
    assert_eq!(parse_legacy_message("a\t+5\tt\tb").unwrap().message.channel_id, 5);
    // an empty body after the third tab is still a frame
    assert_eq!(parse_legacy_message("a\t1\tt\t").unwrap().message.body, "");
    // too few fields, or a channel that is not an integer, is no frame
    assert!(parse_legacy_message("a\t1\tt").is_none());
    assert!(parse_legacy_message("a\tx\tt\tb").is_none());
    assert!(parse_legacy_message("no tabs at all").is_none());
}

#[test]
fn malformed_frame_is_an_error() {
    // the decode error carries why the structured decode failed
    match decode_realtime_inbound("not json, not legacy") {
        Err(e) => assert_eq!(
            e,
            "structured decode failed: the frame is not an object of the wire grammar"
        ),
        Ok(v) => panic!("expected an error, got {:?}", v),
    }
    match decode_realtime_inbound("{\"type\":\"mystery\"}") {
        Err(e) => assert_eq!(
            e,
            "structured decode failed: unknown type tag, or a required field is missing or mistyped"
        ),
        Ok(v) => panic!("expected an error, got {:?}", v),
    }
}

#[test]
fn decode_rejects_trailing_garbage_and_bad_numbers() {
    assert!(decode_payload("{\"type\":\"ack\",\"kind\":\"k\",\"detail\":\"d\"} trailing").is_none());
    assert!(decode_payload("{\"type\":\"message\",\"author\":\"a\",\"body\":\"b\",\"sent_at\":\"c\",\"channel_id\":1.5}").is_none());
    assert!(decode_payload("{\"type\":\"message\",\"author\":\"a\",\"body\":\"b\",\"sent_at\":\"c\",\"channel_id\":99999999999999999999}").is_none());
}

#[test]
fn decode_handles_unicode_escapes() {
    let text = "{\"type\":\"ack\",\"kind\":\"k\",\"detail\":\"A\\u0042\\u00e9\\u001f\"}";
    match decode_payload(text) {
        Some(RealtimePayload::Ack { detail, .. }) => {
            assert_eq!(detail, "AB\u{e9}\u{1f}");
        }
        other => panic!("expected an ack, got {:?}", other),
    }
    // supplementary characters arrive as surrogate pairs
    let text = "{\"type\":\"ack\",\"kind\":\"k\",\"detail\":\"\\ud83d\\uDE00!\"}";
    match decode_payload(text) {
        Some(RealtimePayload::Ack { detail, .. }) => {
            assert_eq!(detail, "\u{1f600}!");
        }
        other => panic!("expected an ack, got {:?}", other),
    }
    // a lone or misordered surrogate is not a string
    let lone = "{\"type\":\"ack\",\"kind\":\"k\",\"detail\":\"\\ud83d!\"}";
    assert!(decode_payload(lone).is_none());
    let low_first = "{\"type\":\"ack\",\"kind\":\"k\",\"detail\":\"\\ude00\"}";
    assert!(decode_payload(low_first).is_none());
}

// ---------- the session worker state machine ----------

#[test]
fn connect_from_disconnected_dials_once() {
    let mut w = RealtimeWorker::new(
        "ws://127.0.0.1:9001".to_string(),
        "local-dev".to_string(),
        "you".to_string(),
    );
    let actions = w.on_command(RealtimeCommand::Connect);
    assert_eq!(w.status, RealtimeStatus::Connecting);
    assert_eq!(actions.len(), 2);
    match &actions[0] {
        WorkerAction::Emit(e) => {
            assert_eq!(e.status, RealtimeStatus::Connecting);
            assert_eq!(e.message.as_deref(), Some("Dialing ws://127.0.0.1:9001"));
        }
        other => panic!("expected an event, got {:?}", other),
    }
    assert!(matches!(actions[1], WorkerAction::Dial));
}

#[test]
fn connect_while_connecting_is_idempotent() {
    let mut w = RealtimeWorker::new("ws://x".to_string(), "t".to_string(), "u".to_string());
    let _ = w.on_command(RealtimeCommand::Connect);
    assert_eq!(w.status, RealtimeStatus::Connecting);
    // a second Connect must not dial again nor change the status
    let actions = w.on_command(RealtimeCommand::Connect);
    assert!(actions.is_empty());
    assert_eq!(w.status, RealtimeStatus::Connecting);
}

#[test]
fn dial_success_authenticates_and_reports() {
    let mut w = RealtimeWorker::new("ws://x".to_string(), "local-dev".to_string(), "you".to_string());
    let _ = w.on_command(RealtimeCommand::Connect);
    let actions = w.on_dial_result(Ok(()));
    assert_eq!(w.status, RealtimeStatus::Connected);
    assert_eq!(actions.len(), 2);
    match &actions[0] {
        WorkerAction::SendFrame(frame) => {
            assert_eq!(frame, "{\"type\":\"auth\",\"token\":\"local-dev\",\"user\":\"you\"}");
        }
        other => panic!("expected the auth frame, got {:?}", other),
    }
    match &actions[1] {
        WorkerAction::Emit(e) => {
            assert_eq!(e.status, RealtimeStatus::Connected);
            assert_eq!(e.message.as_deref(), Some("Handshake complete"));
        }
        other => panic!("expected an event, got {:?}", other),
    }
}

#[test]
fn dial_failure_returns_to_disconnected() {
    let mut w = RealtimeWorker::new("ws://x".to_string(), "t".to_string(), "u".to_string());
    let _ = w.on_command(RealtimeCommand::Connect);
    let actions = w.on_dial_result(Err("connection refused".to_string()));
    assert_eq!(w.status, RealtimeStatus::Disconnected);
    assert_eq!(actions.len(), 1);
    match &actions[0] {
        WorkerAction::Emit(e) => {
            assert_eq!(e.status, RealtimeStatus::Disconnected);
            assert_eq!(e.error.as_deref(), Some("connection refused"));
        }
        other => panic!("expected an event, got {:?}", other),
    }
}

#[test]
fn send_while_connected_writes_one_frame() {
    let mut w = RealtimeWorker::new("ws://x".to_string(), "t".to_string(), "u".to_string());
    let _ = w.on_command(RealtimeCommand::Connect);
    let _ = w.on_dial_result(Ok(()));
    let actions = w.on_command(RealtimeCommand::SendMessage {
        author: "you".to_string(),
        body: "hi".to_string(),
        sent_at: "09:15".to_string(),
        channel_id: 1,
        attachments: Vec::new(),
    });
    assert_eq!(actions.len(), 1);
    match &actions[0] {
        WorkerAction::SendFrame(frame) => {
            assert_eq!(
                frame,
                "{\"type\":\"message\",\"author\":\"you\",\"body\":\"hi\",\"sent_at\":\"09:15\",\"channel_id\":1,\"client_id\":null}"
            );
        }
        other => panic!("expected a frame, got {:?}", other),
    }
    assert_eq!(w.status, RealtimeStatus::Connected);
}

#[test]
fn send_while_disconnected_is_dropped() {
    let mut w = RealtimeWorker::new("ws://x".to_string(), "t".to_string(), "u".to_string());
    let actions = w.on_command(RealtimeCommand::SendMessage {
        author: "you".to_string(),
        body: "hi".to_string(),
        sent_at: "09:15".to_string(),
        channel_id: 1,
        attachments: Vec::new(),
    });
    assert!(actions.is_empty());
    assert_eq!(w.status, RealtimeStatus::Disconnected);
}

#[test]
fn disconnect_closes_and_reports() {
    let mut w = RealtimeWorker::new("ws://x".to_string(), "t".to_string(), "u".to_string());
    let _ = w.on_command(RealtimeCommand::Connect);
    let _ = w.on_dial_result(Ok(()));
    let actions = w.on_command(RealtimeCommand::Disconnect);
    assert_eq!(w.status, RealtimeStatus::Disconnected);
    assert_eq!(actions.len(), 2);
    assert!(matches!(actions[0], WorkerAction::CloseSocket));
    match &actions[1] {
        WorkerAction::Emit(e) => {
            assert_eq!(e.status, RealtimeStatus::Disconnected);
            assert_eq!(e.message.as_deref(), Some("Closed socket"));
        }
        other => panic!("expected an event, got {:?}", other),
    }
}

#[test]
fn would_block_is_not_fatal_but_other_read_errors_are() {
    let mut w = RealtimeWorker::new("ws://x".to_string(), "t".to_string(), "u".to_string());
    let _ = w.on_command(RealtimeCommand::Connect);
    let _ = w.on_dial_result(Ok(()));
    let none = w.on_read_error(true, "would block".to_string());
    assert!(none.is_empty());
    assert_eq!(w.status, RealtimeStatus::Connected);
    let actions = w.on_read_error(false, "connection reset".to_string());
    assert_eq!(w.status, RealtimeStatus::Disconnected);
    assert_eq!(actions.len(), 1);
    match &actions[0] {
        WorkerAction::Emit(e) => {
            assert_eq!(e.status, RealtimeStatus::Disconnected);
            assert_eq!(e.error.as_deref(), Some("connection reset"));
        }
        other => panic!("expected an event, got {:?}", other),
    }
}

#[test]
fn malformed_frame_never_drops_the_connection() {
    let mut w = RealtimeWorker::new("ws://x".to_string(), "t".to_string(), "u".to_string());
    let _ = w.on_command(RealtimeCommand::Connect);
    let _ = w.on_dial_result(Ok(()));
    let actions = w.on_frame("not json, not legacy");
    assert_eq!(w.status, RealtimeStatus::Connected);
    assert_eq!(actions.len(), 1);
    match &actions[0] {
        WorkerAction::Emit(e) => {
            assert_eq!(e.status, RealtimeStatus::Connected);
            assert!(e.error.is_some());
            assert!(e.inbound.is_none());
            assert!(e.presence.is_none());
        }
        other => panic!("expected an event, got {:?}", other),
    }
}

#[test]
fn inbound_frames_become_events() {
    let mut w = RealtimeWorker::new("ws://x".to_string(), "t".to_string(), "u".to_string());
    let _ = w.on_command(RealtimeCommand::Connect);
    let _ = w.on_dial_result(Ok(()));
    let text = encode_realtime_message(&message("mara", "hey", "09:20", 1), Vec::new());
    let actions = w.on_frame(&text);
    assert_eq!(actions.len(), 1);
    match &actions[0] {
        WorkerAction::Emit(e) => {
            assert_eq!(e.message.as_deref(), Some("Message received"));
            let inbound = e.inbound.as_ref().expect("inbound message");
            assert_eq!(inbound.message.author, "mara");
        }
        other => panic!("expected an event, got {:?}", other),
    }
    let actions = w.on_frame("{\"type\":\"presence\",\"user\":\"mara\",\"status\":\"online\"}");
    match &actions[0] {
        WorkerAction::Emit(e) => {
            assert_eq!(e.message.as_deref(), Some("Presence: mara is online"));
            let p = e.presence.as_ref().expect("presence update");
            assert_eq!(p.user, "mara");
            assert_eq!(p.status, "online");
        }
        other => panic!("expected an event, got {:?}", other),
    }
}

// ---------- the client handle ----------

#[test]
fn client_tracks_events_in_order() {
    let mut c = RealtimeClient::new("ws://x".to_string());
    assert_eq!(c.status, RealtimeStatus::Disconnected);
    let spawn = c.connect();
    assert!(spawn);
    let again = c.connect();
    assert!(!again, "the worker is spawned at most once");
    let events = vec![
        RealtimeEvent {
            status: RealtimeStatus::Connecting,
            message: Some("Dialing ws://x".to_string()),
            error: None,
            inbound: None,
            presence: None,
        },
        RealtimeEvent {
            status: RealtimeStatus::Connected,
            message: Some("Handshake complete".to_string()),
            error: None,
            inbound: None,
            presence: None,
        },
    ];
    assert_eq!(c.poll(events), 2);
    assert_eq!(c.status, RealtimeStatus::Connected);
    assert_eq!(c.last_message.as_deref(), Some("Handshake complete"));
    assert!(c.last_error.is_none());
}

#[test]
fn client_collects_inbound_and_presence() {
    let mut c = RealtimeClient::new("ws://x".to_string());
    let _ = c.connect();
    let inbound = match decode_realtime_inbound(&encode_realtime_message(
        &message("mara", "hey", "09:20", 1),
        Vec::new(),
    )) {
        Ok(RealtimeInbound::Message(m)) => m,
        other => panic!("expected a message, got {:?}", other),
    };
    let events = vec![
        RealtimeEvent {
            status: RealtimeStatus::Connected,
            message: Some("Message received".to_string()),
            error: None,
            inbound: Some(inbound),
            presence: None,
        },
        RealtimeEvent {
            status: RealtimeStatus::Connected,
            message: Some("Presence: devin is away".to_string()),
            error: None,
            inbound: None,
            presence: Some(ralph_core::protocol::PresenceUpdate {
                user: "devin".to_string(),
                status: "away".to_string(),
            }),
        },
    ];
    let _ = c.poll(events);
    let msgs = c.take_incoming();
    assert_eq!(msgs.len(), 1);
    assert_eq!(msgs[0].message.author, "mara");
    assert!(c.take_incoming().is_empty(), "drained on first take");
    let pres = c.take_presence();
    assert_eq!(pres.len(), 1);
    assert_eq!(pres[0].user, "devin");
    assert!(c.take_presence().is_empty());
}

#[test]
fn disconnect_without_worker_just_records_it() {
    let mut c = RealtimeClient::new("ws://x".to_string());
    let send = c.disconnect();
    assert!(!send);
    assert_eq!(c.status, RealtimeStatus::Disconnected);
    assert_eq!(c.last_message.as_deref(), Some("Already disconnected"));
}

#[test]
fn send_message_builds_the_command_only_with_a_worker() {
    let c = RealtimeClient::new("ws://x".to_string());
    assert!(c.send_message(&message("you", "hi", "09:15", 1), Vec::new()).is_none());
    let mut c = c;
    let _ = c.connect();
    match c.send_message(&message("you", "hi", "09:15", 1), Vec::new()) {
        Some(RealtimeCommand::SendMessage { author, body, channel_id, .. }) => {
            assert_eq!(author, "you");
            assert_eq!(body, "hi");
            assert_eq!(channel_id, 1);
        }
        other => panic!("expected a send command, got {:?}", other),
    }
}

// ---------- the relay ----------

#[test]
fn relay_acks_and_rebroadcasts_messages_verbatim() {
    let raw = encode_realtime_message(&message("you", "hi", "09:15", 1), Vec::new());
    let reaction = handler_react(&raw);
    assert_eq!(
        reaction.reply.as_deref(),
        Some("{\"type\":\"ack\",\"kind\":\"message\",\"detail\":\"stored for you in channel 1\"}")
    );
    assert_eq!(reaction.broadcast.as_deref(), Some(raw.as_str()));
}

#[test]
fn relay_welcomes_auth_and_announces_presence() {
    let reaction = handler_react("{\"type\":\"auth\",\"token\":\"local-dev\",\"user\":\"mara\"}");
    assert_eq!(
        reaction.reply.as_deref(),
        Some("{\"type\":\"ack\",\"kind\":\"auth\",\"detail\":\"welcome mara\"}")
    );
    let broadcast = reaction.broadcast.expect("presence broadcast");
    assert_eq!(broadcast, "{\"type\":\"presence\",\"user\":\"mara\",\"status\":\"online\"}");
    // and the announced presence decodes on every peer
    match decode_realtime_inbound(&broadcast) {
        Ok(RealtimeInbound::Presence { user, status }) => {
            assert_eq!(user, "mara");
            assert_eq!(status, "online");
        }
        other => panic!("expected presence, got {:?}", other),
    }
}

#[test]
fn relay_ignores_acks_and_presence() {
    let r = handler_react("{\"type\":\"ack\",\"kind\":\"k\",\"detail\":\"d\"}");
    assert!(r.reply.is_none() && r.broadcast.is_none());
    let r = handler_react("{\"type\":\"presence\",\"user\":\"u\",\"status\":\"s\"}");
    assert!(r.reply.is_none() && r.broadcast.is_none());
}

#[test]
fn relay_forwards_unparseable_frames_verbatim() {
    let r = handler_react("legacy\t1\t09:00\tstill relayed");
    assert!(r.reply.is_none());
    assert_eq!(r.broadcast.as_deref(), Some("legacy\t1\t09:00\tstill relayed"));
}

#[test]
fn relay_end_to_end_message_flow() {
    // the client encodes; the relay acks the sender and forwards verbatim;
    // another peer decodes the forwarded frame back to the same message
    let raw = encode_realtime_message(&message("you", "hi", "09:15", 1), Vec::new());
    let reaction = handler_react(&raw);
    let forwarded = reaction.broadcast.expect("verbatim broadcast");
    match decode_realtime_inbound(&forwarded) {
        Ok(RealtimeInbound::Message(incoming)) => {
            assert_eq!(incoming.message.author, "you");
            assert_eq!(incoming.message.body, "hi");
            assert_eq!(incoming.message.channel_id, 1);
        }
        other => panic!("expected the forwarded message, got {:?}", other),
    }
    match decode_realtime_inbound(&reaction.reply.expect("ack")) {
        Ok(RealtimeInbound::Signal(s)) => {
            assert_eq!(s, "Ack: message (stored for you in channel 1)");
        }
        other => panic!("expected the ack signal, got {:?}", other),
    }
}

#[test]
fn welcome_frame_is_a_message() {
    let text = welcome_frame(9 * 3600 + 5 * 60);
    match decode_realtime_inbound(&text) {
        Ok(RealtimeInbound::Message(incoming)) => {
            assert_eq!(incoming.message.author, "ralph-bot");
            assert_eq!(incoming.message.body, "Connected to mock server.");
            assert_eq!(incoming.message.sent_at, "09:05");
            assert_eq!(incoming.message.channel_id, 1);
        }
        other => panic!("expected the welcome message, got {:?}", other),
    }
}

// ---------- the registry ----------

#[test]
fn broadcast_prunes_dead_subscribers_and_delivers_to_live_ones() {
    let mut registry = Registry::new();
    let (tx1, rx1) = mpsc::channel::<String>();
    let (tx2, rx2) = mpsc::channel::<String>();
    let (tx3, rx3) = mpsc::channel::<String>();
    registry.register(tx1);
    registry.register(tx2);
    registry.register(tx3);
    assert_eq!(registry.subscriber_count(), 3);
    drop(rx2);
    let delivered = registry.broadcast_text("x");
    assert_eq!(delivered, 2, "delivered to exactly the live subscribers");
    assert_eq!(registry.subscriber_count(), 2, "the dead subscriber was removed");
    assert_eq!(rx1.try_recv().unwrap(), "x");
    assert_eq!(rx3.try_recv().unwrap(), "x");
    // the pruned list keeps working without re-pruning
    let delivered = registry.broadcast_text("y");
    assert_eq!(delivered, 2);
    assert_eq!(registry.subscriber_count(), 2);
    assert_eq!(rx1.try_recv().unwrap(), "y");
    assert_eq!(rx3.try_recv().unwrap(), "y");
}

#[test]
fn broadcast_on_empty_registry_does_nothing() {
    let mut registry = Registry::new();
    assert_eq!(registry.broadcast_text("x"), 0);
    assert_eq!(registry.subscriber_count(), 0);
}

// ---------- display helpers ----------

#[test]
fn timestamps_are_two_digit_fields() {
    assert_eq!(format_timestamp_utc(0), "00:00");
    assert_eq!(format_timestamp_utc(9 * 3600 + 15 * 60), "09:15");
    assert_eq!(format_timestamp_utc(23 * 3600 + 59 * 60 + 59), "23:59");
    assert_eq!(format_timestamp_utc(24 * 3600 + 60), "00:01");
}

#[test]
fn format_bytes_scales_by_unit() {
    assert_eq!(format_bytes(0), "0.0B");
    assert_eq!(format_bytes(512), "512.0B");
    assert_eq!(format_bytes(1024), "1.0KB");
    assert_eq!(format_bytes(1536), "1.5KB");
    assert_eq!(format_bytes(10 * 1024 * 1024), "10.0MB");
    assert_eq!(format_bytes(3 * 1024 * 1024 * 1024 + 512 * 1024 * 1024), "3.5GB");
    assert_eq!(format_bytes(-5), "-5.0B");
}

#[test]
fn like_escaping_protects_wildcards() {
    assert_eq!(escape_like("50%_done\\now"), "50\\%\\_done\\\\now");
    assert_eq!(search_like_pattern("a_b"), "%a\\_b%");
    assert_eq!(escape_like("plain"), "plain");
}

#[test]
fn attachment_kind_by_extension() {
    assert_eq!(detect_attachment_kind("/tmp/photo.PNG"), "image");
    assert_eq!(detect_attachment_kind("notes.md"), "document");
    assert_eq!(detect_attachment_kind("archive.tar.gz"), "file");
    assert_eq!(detect_attachment_kind("/tmp/.hidden"), "file");
    assert_eq!(detect_attachment_kind("no_extension"), "file");
    assert_eq!(detect_attachment_kind("dir.d/file"), "file");
    // trailing slashes and dot components do not hide the real name
    assert_eq!(detect_attachment_kind("photos.png/"), "image");
    assert_eq!(detect_attachment_kind("a/notes.pdf/."), "document");
    assert_eq!(detect_attachment_kind("a/.."), "file");
}

#[test]
fn file_names_come_from_the_last_slash() {
    assert_eq!(file_name_from_path("/tmp/a/b/photo.png"), "photo.png");
    assert_eq!(file_name_from_path("photo.png"), "photo.png");
    // trailing slashes and dot components are ignored
    assert_eq!(file_name_from_path("/ends/with/slash/"), "slash");
    assert_eq!(file_name_from_path("a/b/"), "b");
    assert_eq!(file_name_from_path("a/./"), "a");
    // with no real final component, the whole path stands in
    assert_eq!(file_name_from_path("a/.."), "a/..");
    assert_eq!(file_name_from_path("."), ".");
    assert_eq!(file_name_from_path("/"), "/");
    assert_eq!(file_name_from_path(""), "");
}

#[test]
fn attachment_conversions_round_trip_and_fill_names() {
    let pending = vec![PendingAttachment {
        file_path: "/tmp/a.png".to_string(),
        file_name: "a.png".to_string(),
        file_size: 123,
        kind: "image".to_string(),
    }];
    let wire = pending_to_realtime_attachments(&pending);
    assert_eq!(wire.len(), 1);
    assert_eq!(wire[0].file_path, "/tmp/a.png");
    assert_eq!(wire[0].file_size, 123);
    let back = realtime_to_pending_attachments(&wire);
    assert_eq!(back, pending);
    // an empty wire name is reconstructed from the path
    let wire = vec![attachment("/tmp/b/photo.png", "", 9, "image")];
    let back = realtime_to_pending_attachments(&wire);
    assert_eq!(back[0].file_name, "photo.png");
}

// ---------- labels and seeds ----------

#[test]
fn kind_and_status_labels() {
    assert_eq!(ChannelKind::Channel.as_str(), "channel");
    assert_eq!(ChannelKind::DirectMessage.as_str(), "dm");
    assert_eq!(ChannelKind::from_str("dm"), ChannelKind::DirectMessage);
    assert_eq!(ChannelKind::from_str("channel"), ChannelKind::Channel);
    assert_eq!(ChannelKind::from_str("anything else"), ChannelKind::Channel);
    assert_eq!(RealtimeStatus::Disconnected.label(), "Disconnected");
    assert_eq!(RealtimeStatus::Connecting.label(), "Connecting");
    assert_eq!(RealtimeStatus::Connected.label(), "Connected");
}

#[test]
fn presence_status_normalizes_case_insensitively() {
    assert_eq!(PresenceStatus::from_str("online"), PresenceStatus::Online);
    assert_eq!(PresenceStatus::from_str("ONLINE"), PresenceStatus::Online);
    assert_eq!(PresenceStatus::from_str("Away"), PresenceStatus::Away);
    assert_eq!(PresenceStatus::from_str("offline"), PresenceStatus::Offline);
    assert_eq!(PresenceStatus::from_str("sleeping"), PresenceStatus::Unknown);
    assert_eq!(PresenceStatus::Online.label(), "online");
    assert_eq!(PresenceStatus::Unknown.label(), "unknown");
}

#[test]
fn seeded_channels_and_messages() {
    let channels = seed_channels();
    assert_eq!(channels.len(), 4);
    assert_eq!(channels[0], (1, "general", ChannelKind::Channel));
    assert_eq!(channels[2], (3, "mara", ChannelKind::DirectMessage));
    let messages = seed_messages();
    assert_eq!(messages.len(), 8);
    assert_eq!(messages[0].author, "mara");
    assert_eq!(messages[0].channel_id, 1);
    assert_eq!(messages[7].channel_id, 4);
}

#[test]
fn composer_meta_follows_channel_kind() {
    let channels = vec![
        Channel { id: 1, name: "general".to_string(), kind: ChannelKind::Channel },
        Channel { id: 3, name: "mara".to_string(), kind: ChannelKind::DirectMessage },
    ];
    let meta = build_composer_meta(&channels);
    let general = meta.get(&1).expect("general");
    assert_eq!(general.placeholder, "Message #general");
    assert_eq!(general.typing_stub, "No one is typing.");
    let mara = meta.get(&3).expect("mara");
    assert_eq!(mara.placeholder, "Message @mara");
    assert_eq!(mara.typing_stub, "mara is typing...");
    assert!(meta.get(&2).is_none());
}

#[test]
fn payload_constructors() {
    let payload = RealtimePayload::from_message(&message("you", "hi", "09:15", 1), Vec::new());
    let text = encode_payload(&payload);
    assert!(text.starts_with("{\"type\":\"message\""));
    let incoming = payload.into_message().expect("message payload");
    assert_eq!(incoming.message.author, "you");
    assert_eq!(incoming.message.id, 0);
    let auth = RealtimePayload::Auth { token: "t".to_string(), user: "u".to_string() };
    assert!(auth.into_message().is_none());
}
