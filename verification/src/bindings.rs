//! The codec as plain functions on plain values, for callers that cannot
//! hold the message types, such as a script in a browser.

use crate::message::{
    is_tag, kind_of, BinaryDeserializable, BinarySerializable, ExitMessage, ListMessage,
    ListMessageView, MessageType, TextMessage, TextMessageView, UnifiedMessageView,
};
use vstd::prelude::*;
use vstd::string::*;

verus! {

/// The word that asks a peer to leave, for the text path.
pub fn serialize_exit_message_string() -> (word: String)
    ensures
        word@ == "exit"@,
{
    "exit".to_string()
}

/// The frame that says goodbye: the exit tag alone, which decodes as an
/// exit notice.
pub fn serialize_exit_message() -> (bytes: Vec<u8>)
    ensures
        bytes@ == seq![2u8],
        bytes@ == UnifiedMessageView::Exit.frame(),
        UnifiedMessageView::parse(bytes@) == Ok::<UnifiedMessageView, Seq<char>>(
            UnifiedMessageView::Exit,
        ),
{
    let bytes = (ExitMessage {  }).to_bytes();
    proof {
        assert(bytes@ =~= seq![2u8]);
    }
    bytes
}

/// Encodes a chat message whose category is given by its tag byte; a byte
/// that is no tag stands for `Unknown`.
pub fn serialize_text_message(sender: String, room: i32, category: u8, content: String) -> (bytes:
    Vec<u8>)
    ensures
        bytes@ == (TextMessageView {
            sender: sender@,
            room,
            category: kind_of(category),
            content: content@,
        }).frame(),
{
    let message = TextMessage {
        sender,
        room,
        category: crate::message::get_type(&category),
        content,
    };
    message.to_bytes()
}

/// The error text of a chat message that does not decode.
pub open spec fn deserialize_failure(reason: Seq<char>) -> Seq<char> {
    "Failed to deserialize: "@ + reason
}

/// Decodes a chat message; the error says that decoding failed, and why.
pub fn deserialize_text_message(data: &[u8]) -> (r: Result<TextMessage, String>)
    ensures
        match TextMessageView::parse(data@) {
            Ok(v) => r matches Ok(m) && m@ == v,
            Err(reason) => r matches Err(e) && e@ == deserialize_failure(reason),
        },
{
    match TextMessage::from_bytes(data) {
        Ok(message) => Ok(message),
        Err(reason) => {
            let mut text = "Failed to deserialize: ".to_string();
            text.append(reason.as_str());
            Err(text)
        },
    }
}

/// The target of a list request: the one given, or `"socket"` where none or
/// an empty one is given.
pub open spec fn list_target(target: Option<String>) -> Seq<char> {
    match target {
        Some(t) => if t@.len() == 0 {
            "socket"@
        } else {
            t@
        },
        None => "socket"@,
    }
}

/// Encodes a list request.
pub fn serialize_list_message(sender: String, room: i32, target: Option<String>) -> (bytes: Vec<u8>)
    ensures
        bytes@ == (ListMessageView {
            sender: sender@,
            target: list_target(target),
            room,
            category: MessageType::List,
        }).frame(),
{
    let target = match target {
        None => "socket".to_string(),
        Some(t) => if t.as_str().is_empty() {
            "socket".to_string()
        } else {
            t
        },
    };
    let message = ListMessage { sender, target, room, category: MessageType::List };
    message.to_bytes()
}

/// The tag byte of a kind.
pub fn convert_to_bytes(message_type: MessageType) -> (tag: u8)
    ensures
        tag == message_type.tag(),
{
    message_type.to_bytes()
}

/// The kind of a tag byte.
pub fn convert_from_bytes(data: u8) -> (kind: MessageType)
    requires
        is_tag(data),
    ensures
        kind == kind_of(data),
{
    crate::message::get_type(&data)
}

} // verus!
