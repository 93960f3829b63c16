use ws_s::dispatch::{
    confirm_upload, format_chat, format_leave, format_receipt, handle_frame, interpret,
    interpret_binary, perform, Action, Frame, Upload,
};
use ws_s::message::{
    BinarySerializable, ExitMessage, FileTransferMessage, ListMessage, MessageType, TextMessage,
    UnifiedMessage,
};
use ws_s::registry::{Delivery, SocketManager};

const ALICE: u128 = 0xa1a2a3a4b1b2c1c2d1d2d3d4d5d6d7d8;
const BOB: u128 = 0x000102030405060708090a0b0c0d0e0f;
const CAROL: u128 = 0xffffffffffffffffffffffffffffffff;

fn three_peers() -> SocketManager<u8> {
    let mut manager = SocketManager::new();
    manager.register(ALICE, 1);
    manager.register(BOB, 2);
    manager.register(CAROL, 3);
    manager
}

fn sorted(mut list: Vec<Delivery>) -> Vec<Delivery> {
    list.sort_by_key(|d| d.target);
    list
}

fn to_all(text: &str) -> Vec<Delivery> {
    sorted(vec![
        Delivery { target: ALICE, text: text.to_string() },
        Delivery { target: BOB, text: text.to_string() },
        Delivery { target: CAROL, text: text.to_string() },
    ])
}

fn chat(sender: &str, room: i32, content: &str) -> Vec<u8> {
    TextMessage {
        sender: sender.to_string(),
        room,
        category: MessageType::Chat,
        content: content.to_string(),
    }
    .to_bytes()
}

fn file(filename: &str, content: Vec<u8>) -> Vec<u8> {
    FileTransferMessage {
        sender: "Alice".to_string(),
        filename: filename.to_string(),
        room: 42,
        content,
        category: MessageType::FileTransfer,
    }
    .to_bytes()
}

fn list(target: &str) -> Vec<u8> {
    ListMessage {
        sender: "Alice".to_string(),
        target: target.to_string(),
        room: 42,
        category: MessageType::List,
    }
    .to_bytes()
}

#[test]
fn raw_text_is_broadcast_to_all_peers_including_the_sender() {
    let mut manager = three_peers();
    let reaction = handle_frame(&mut manager, ALICE, &Frame::Text("hello".to_string()));
    assert_eq!(sorted(reaction.deliveries), to_all("hello"));
    assert_eq!(reaction.upload, None);
    assert!(!reaction.closed);
    assert_eq!(manager.len(), 3);
}

#[test]
fn raw_text_is_trimmed_before_it_is_broadcast() {
    let mut manager = three_peers();
    let reaction =
        handle_frame(&mut manager, BOB, &Frame::Text(" \t hello  world \r\n".to_string()));
    assert_eq!(sorted(reaction.deliveries), to_all("hello  world"));
    let reaction = handle_frame(
        &mut manager,
        BOB,
        &Frame::Text("\u{3000}\u{a0}wide\u{2003}\u{85}".to_string()),
    );
    assert_eq!(sorted(reaction.deliveries), to_all("wide"));
    let reaction = handle_frame(&mut manager, BOB, &Frame::Text("\u{200b}x\u{200b}".to_string()));
    assert_eq!(sorted(reaction.deliveries), to_all("\u{200b}x\u{200b}"));
    let reaction = handle_frame(&mut manager, BOB, &Frame::Text("   ".to_string()));
    assert_eq!(sorted(reaction.deliveries), to_all(""));
}

#[test]
fn a_chat_frame_is_broadcast_with_room_and_sender() {
    let mut manager = three_peers();
    let reaction = handle_frame(&mut manager, ALICE, &Frame::Binary(chat("Alice", 42, "Hi")));
    assert_eq!(sorted(reaction.deliveries), to_all("[Room 42 - Alice]: Hi"));
    assert_eq!(reaction.upload, None);
    assert!(!reaction.closed);
}

#[test]
fn a_chat_line_shows_a_negative_room_with_its_sign() {
    let message = TextMessage {
        sender: "Bob".to_string(),
        room: -7,
        category: MessageType::Chat,
        content: "x".to_string(),
    };
    assert_eq!(format_chat(&message), "[Room -7 - Bob]: x");
    let message = TextMessage { room: i32::MIN, ..message };
    assert_eq!(format_chat(&message), "[Room -2147483648 - Bob]: x");
    let message = TextMessage { room: i32::MAX, ..message };
    assert_eq!(format_chat(&message), "[Room 2147483647 - Bob]: x");
    let message = TextMessage { room: 0, ..message };
    assert_eq!(format_chat(&message), "[Room 0 - Bob]: x");
}

#[test]
fn exit_broadcasts_a_notice_removes_the_sender_and_closes() {
    let mut manager = three_peers();
    let frame = Frame::Binary(UnifiedMessage::Exit(ExitMessage {}).to_bytes());
    let reaction = handle_frame(&mut manager, ALICE, &frame);
    let notice = "User a1a2a3a4-b1b2-c1c2-d1d2-d3d4d5d6d7d8 has left the chat.";
    assert_eq!(sorted(reaction.deliveries), to_all(notice));
    assert!(reaction.closed);
    assert_eq!(reaction.upload, None);
    assert!(!manager.contains(ALICE));
    assert_eq!(manager.len(), 2);
    assert_eq!(format_leave(BOB), "User 00010203-0405-0607-0809-0a0b0c0d0e0f has left the chat.");
}

#[test]
fn a_file_transfer_is_stored_and_confirmed_to_the_sender_only() {
    let mut manager = three_peers();
    let payload = vec![9u8; 10];
    let reaction =
        handle_frame(&mut manager, ALICE, &Frame::Binary(file("a.txt", payload.clone())));
    assert!(reaction.deliveries.is_empty());
    assert!(!reaction.closed);
    let upload = reaction.upload.unwrap();
    assert_eq!(upload, Upload { path: "./uploads/a.txt".to_string(), content: payload });
    assert_eq!(
        confirm_upload(&manager, ALICE, &upload, true),
        vec![Delivery { target: ALICE, text: "10 B transferred.".to_string() }]
    );
}

#[test]
fn a_failed_store_is_reported_to_the_sender_only() {
    let manager = three_peers();
    let upload = Upload { path: "./uploads/a.txt".to_string(), content: vec![1, 2, 3] };
    assert_eq!(
        confirm_upload(&manager, BOB, &upload, false),
        vec![Delivery { target: BOB, text: "File could not be stored.".to_string() }]
    );
    assert!(confirm_upload(&manager, 12345, &upload, true).is_empty());
    assert!(confirm_upload(&manager, 12345, &upload, false).is_empty());
}

#[test]
fn a_file_without_a_name_is_dropped() {
    let mut manager = three_peers();
    let reaction = handle_frame(&mut manager, ALICE, &Frame::Binary(file("", vec![1, 2])));
    assert!(reaction.deliveries.is_empty());
    assert_eq!(reaction.upload, None);
    assert!(!reaction.closed);
    assert_eq!(manager.len(), 3);
}

#[test]
fn a_list_request_for_another_target_is_answered_with_invalid_target() {
    let mut manager = three_peers();
    let reaction = handle_frame(&mut manager, BOB, &Frame::Binary(list("other")));
    assert_eq!(
        reaction.deliveries,
        vec![Delivery { target: BOB, text: "Invalid target".to_string() }]
    );
    assert_eq!(reaction.upload, None);
    assert!(!reaction.closed);
}

#[test]
fn a_list_request_for_sockets_is_answered_with_all_identifiers() {
    let mut manager = three_peers();
    let reaction = handle_frame(&mut manager, CAROL, &Frame::Binary(list("socket")));
    assert_eq!(reaction.deliveries.len(), 1);
    assert_eq!(reaction.deliveries[0].target, CAROL);
    let mut lines: Vec<&str> = reaction.deliveries[0].text.split('\n').collect();
    lines.sort();
    assert_eq!(
        lines,
        vec![
            "00010203-0405-0607-0809-0a0b0c0d0e0f",
            "a1a2a3a4-b1b2-c1c2-d1d2-d3d4d5d6d7d8",
            "ffffffff-ffff-ffff-ffff-ffffffffffff",
        ]
    );
}

#[test]
fn a_reply_to_a_sender_that_is_gone_is_skipped() {
    let mut manager = three_peers();
    let reaction = handle_frame(&mut manager, 77, &Frame::Binary(list("other")));
    assert!(reaction.deliveries.is_empty());
    let reaction = handle_frame(&mut manager, 77, &Frame::Binary(list("socket")));
    assert!(reaction.deliveries.is_empty());
    assert_eq!(manager.len(), 3);
}

#[test]
fn frames_that_do_not_decode_are_dropped() {
    let mut manager = three_peers();
    let mut truncated = chat("Alice", 42, "Hi");
    truncated.pop();
    let mut bad_text = chat("Alice", 42, "Hi");
    bad_text[6] = 0xff;
    let frames = vec![
        Frame::Binary(vec![]),
        Frame::Binary(vec![0x00]),
        Frame::Binary(vec![0x09, 1, 2, 3]),
        Frame::Binary(vec![0x01]),
        Frame::Binary(vec![0x03, 0, 0]),
        Frame::Binary(vec![0x04, 0, 0, 0, 1, 9]),
        Frame::Binary(truncated),
        Frame::Binary(bad_text),
        Frame::Other,
    ];
    for frame in frames {
        let reaction = handle_frame(&mut manager, ALICE, &frame);
        assert!(reaction.deliveries.is_empty());
        assert_eq!(reaction.upload, None);
        assert!(!reaction.closed);
        assert_eq!(manager.len(), 3);
    }
}

#[test]
fn decisions_name_the_registry_operation() {
    assert!(matches!(interpret(1, &Frame::Text(" a ".to_string())), Action::Broadcast(t) if t == "a"));
    assert!(matches!(interpret(1, &Frame::Other), Action::Discard));
    assert!(matches!(interpret_binary(1, &[0x02]), Action::Leave(t)
        if t == "User 00000000-0000-0000-0000-000000000001 has left the chat."));
    assert!(matches!(interpret_binary(1, &list("socket")), Action::ListSockets));
    assert!(matches!(interpret_binary(1, &list("Socket")), Action::Reply(t) if t == "Invalid target"));
    assert!(matches!(interpret_binary(1, &list("")), Action::Reply(t) if t == "Invalid target"));
    assert!(matches!(interpret_binary(1, &file("f", vec![1])), Action::Store { filename, content }
        if filename == "f" && content == vec![1]));
    assert!(matches!(interpret_binary(1, &chat("A", 1, "b")), Action::Broadcast(t)
        if t == "[Room 1 - A]: b"));
    assert!(matches!(interpret_binary(1, &[]), Action::Discard));
}

#[test]
fn performing_a_reply_reaches_the_sender_only() {
    let mut manager = three_peers();
    let reaction = perform(&mut manager, BOB, Action::Reply("ok".to_string()));
    assert_eq!(reaction.deliveries, vec![Delivery { target: BOB, text: "ok".to_string() }]);
    let reaction = perform(&mut manager, BOB, Action::Discard);
    assert!(reaction.deliveries.is_empty());
}

#[test]
fn leaving_twice_removes_once() {
    let mut manager = three_peers();
    let first = perform(&mut manager, BOB, Action::Leave("bye".to_string()));
    assert_eq!(first.deliveries.len(), 3);
    let second = perform(&mut manager, BOB, Action::Leave("bye".to_string()));
    assert_eq!(second.deliveries.len(), 2);
    assert!(second.deliveries.iter().all(|d| d.target != BOB));
    assert_eq!(manager.len(), 2);
}

#[test]
fn receipts_state_the_size_in_binary_units() {
    assert_eq!(format_receipt(10), "10 B transferred.");
    assert_eq!(format_receipt(2048), "2.00 KiB transferred.");
}
