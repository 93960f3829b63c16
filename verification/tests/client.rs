use ws_s::bindings::{
    convert_from_bytes, convert_to_bytes, deserialize_text_message, serialize_exit_message,
    serialize_exit_message_string, serialize_list_message, serialize_text_message,
};
use ws_s::client::{file_message, introduction, plan_input, Command, ROOM};
use ws_s::dispatch::{handle_frame, Frame};
use ws_s::message::{
    BinaryDeserializable, BinaryMessage, BinarySerializable, ExitMessage, ListMessage,
    MessageType, TextMessage, UnifiedMessage,
};
use ws_s::registry::SocketManager;

#[test]
fn a_plain_line_is_chat_text() {
    match plan_input("Ann", "  hello   there \n") {
        Command::Send(UnifiedMessage::ChatMessage(m)) => {
            assert_eq!(
                m,
                TextMessage {
                    sender: "Ann".to_string(),
                    room: 42,
                    category: MessageType::Chat,
                    content: "hello   there".to_string(),
                }
            );
        }
        _ => panic!("a plain line is sent as chat"),
    }
    assert_eq!(ROOM, 42);
}

#[test]
fn exit_sends_the_exit_notice() {
    assert!(matches!(plan_input("Ann", "/exit\n"), Command::Send(UnifiedMessage::Exit(_))));
    assert!(matches!(plan_input("Ann", "  /exit now\n"), Command::Send(UnifiedMessage::Exit(_))));
}

#[test]
fn file_asks_for_a_file() {
    assert!(matches!(plan_input("Ann", "/file\n"), Command::PickFile));
}

#[test]
fn list_asks_for_sockets_unless_told_otherwise() {
    match plan_input("Ann", "/list\n") {
        Command::Send(UnifiedMessage::ListMessage(m)) => {
            assert_eq!(m.target, "socket");
            assert_eq!(m.sender, "Ann");
            assert_eq!(m.room, 42);
            assert_eq!(m.category, MessageType::List);
        }
        _ => panic!("a list command sends a list request"),
    }
    match plan_input("Ann", "/list\u{3000}rooms extra\n") {
        Command::Send(UnifiedMessage::ListMessage(m)) => assert_eq!(m.target, "rooms"),
        _ => panic!("a list command sends a list request"),
    }
}

#[test]
fn an_empty_line_sends_nothing() {
    assert!(matches!(plan_input("Ann", "\n"), Command::Nothing));
    assert!(matches!(plan_input("Ann", ""), Command::Nothing));
    assert!(matches!(plan_input("Ann", " \u{3000} "), Command::Nothing));
}

#[test]
fn a_line_with_an_open_quote_is_invalid() {
    assert!(matches!(plan_input("Ann", "say \"hi\n"), Command::Invalid(e) if !e.is_empty()));
}

#[test]
fn a_picked_file_travels_as_a_file_transfer() {
    match file_message("Ann", "a.txt".to_string(), vec![1, 2, 3]) {
        UnifiedMessage::FileTransferMessage(m) => {
            assert_eq!(m.sender, "Ann");
            assert_eq!(m.filename, "a.txt");
            assert_eq!(m.room, 42);
            assert_eq!(m.content, vec![1, 2, 3]);
            assert_eq!(m.category, MessageType::FileTransfer);
        }
        _ => panic!("a picked file is a file transfer"),
    }
}

#[test]
fn a_client_introduces_itself_in_plain_text() {
    assert!(matches!(introduction("Ann Lee"), Frame::Text(t) if t == "I am Ann Lee"));
}

#[test]
fn plain_functions_encode_as_the_message_types_do() {
    let bytes = serialize_text_message("Alice".to_string(), 42, 0x01, "Hi".to_string());
    assert_eq!(
        bytes,
        TextMessage {
            sender: "Alice".to_string(),
            room: 42,
            category: MessageType::Chat,
            content: "Hi".to_string(),
        }
        .to_bytes()
    );
    let bytes = serialize_text_message("Alice".to_string(), 42, 0x77, "Hi".to_string());
    assert_eq!(bytes[0], 0x00);
    let decoded = deserialize_text_message(&bytes).unwrap();
    assert_eq!(decoded.category, MessageType::Unknown);
    assert_eq!(decoded.content, "Hi");
}

#[test]
fn a_failed_decode_says_why() {
    assert_eq!(
        deserialize_text_message(&[1, 0, 0]).unwrap_err(),
        "Failed to deserialize: Failed to read room"
    );
    assert_eq!(
        deserialize_text_message(&[]).unwrap_err(),
        "Failed to deserialize: Failed to read category"
    );
}

#[test]
fn a_list_request_without_a_target_asks_for_sockets() {
    let expected = |target: &str| {
        ListMessage {
            sender: "Ann".to_string(),
            target: target.to_string(),
            room: 3,
            category: MessageType::List,
        }
        .to_bytes()
    };
    assert_eq!(serialize_list_message("Ann".to_string(), 3, None), expected("socket"));
    assert_eq!(
        serialize_list_message("Ann".to_string(), 3, Some(String::new())),
        expected("socket")
    );
    assert_eq!(
        serialize_list_message("Ann".to_string(), 3, Some("rooms".to_string())),
        expected("rooms")
    );
    let decoded = ListMessage::from_bytes(&serialize_list_message("Ann".to_string(), 3, None));
    assert_eq!(decoded.unwrap().target, "socket");
}

#[test]
fn exit_for_callers_without_message_types() {
    assert_eq!(serialize_exit_message_string(), "exit");
    assert_eq!(serialize_exit_message(), vec![0x02]);
}

#[test]
fn the_exit_frame_is_the_frame_of_an_exit_notice() {
    assert_eq!(serialize_exit_message(), ExitMessage {}.to_bytes());
    assert_eq!(serialize_exit_message(), UnifiedMessage::Exit(ExitMessage {}).to_bytes());
    assert!(matches!(
        UnifiedMessage::from_bytes(&serialize_exit_message()),
        Ok(UnifiedMessage::Exit(_))
    ));
}

#[test]
fn the_exit_frame_makes_the_sender_leave() {
    let mut manager: SocketManager<u8> = SocketManager::new();
    manager.register(1, 0);
    manager.register(2, 0);
    let reaction = handle_frame(&mut manager, 1, &Frame::Binary(serialize_exit_message()));
    assert!(reaction.closed);
    assert_eq!(reaction.deliveries.len(), 2);
    assert!(!manager.contains(1));
    assert!(manager.contains(2));
}

#[test]
fn a_message_that_does_not_fit_is_told_apart_before_it_is_sent() {
    match plan_input("Ann", "hello\n") {
        Command::Send(message) => assert!(message.fits()),
        _ => panic!("a plain line is sent as chat"),
    }
    match plan_input(&"n".repeat(256), "hello\n") {
        Command::Send(message) => assert!(!message.fits()),
        _ => panic!("a plain line is sent as chat"),
    }
    assert!(UnifiedMessage::Exit(ExitMessage {}).fits());
    assert!(file_message("Ann", "a.txt".to_string(), vec![1]).fits());
    assert!(!file_message("Ann", "f".repeat(256), vec![1]).fits());
    let wrong_category = TextMessage {
        sender: "Ann".to_string(),
        room: 1,
        category: MessageType::List,
        content: "x".to_string(),
    };
    assert!(wrong_category.fits());
    assert!(!UnifiedMessage::ChatMessage(wrong_category).fits());
    let binary = BinaryMessage {
        sender: "Ann".to_string(),
        room: 1,
        category: MessageType::Chat,
        content: vec![1],
    };
    assert!(!UnifiedMessage::BinaryMessage(binary).fits());
}

#[test]
fn tags_convert_both_ways() {
    assert_eq!(convert_to_bytes(MessageType::FileTransfer), 3);
    assert_eq!(convert_from_bytes(3), MessageType::FileTransfer);
    assert_eq!(convert_from_bytes(0), MessageType::Unknown);
    for tag in 0u8..=4 {
        assert_eq!(convert_to_bytes(convert_from_bytes(tag)), tag);
    }
}
