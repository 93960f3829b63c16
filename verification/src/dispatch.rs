//! The dispatcher: what the relay does with one frame that a connection
//! sent.
//!
//! A text frame is chat text as it stands. A binary frame is decoded by its
//! leading tag. The decision names the registry operation; performing it
//! on the registry gives the deliveries to make, the file to store, and
//! whether the connection's receive loop ends.

use crate::message::{
    kind_of, BinaryDeserializable, FileTransferMessage, FileTransferMessageView, ListMessage,
    ListMessageView, MessageType, TextMessage, TextMessageView,
};
use crate::registry::{reaches_each, Delivery, SocketManager};
use crate::text::{
    byte_count, format_bytes, identifier_lines, identifier_list, identifier_string,
    identifier_text, joined, signed_text, signed_decimal, trim, trimmed,
};
use vstd::prelude::*;
use vstd::string::*;

verus! {

/// One frame as the transport delivers it.
pub enum Frame {
    /// Raw text.
    Text(String),
    /// An encoded message.
    Binary(Vec<u8>),
    /// Anything else that a transport may deliver, such as a ping.
    Other,
}

/// The contents of a [`Frame`].
pub enum FrameView {
    Text(Seq<char>),
    Binary(Seq<u8>),
    Other,
}

impl View for Frame {
    type V = FrameView;

    open spec fn view(&self) -> FrameView {
        match self {
            Frame::Text(text) => FrameView::Text(text@),
            Frame::Binary(data) => FrameView::Binary(data@),
            Frame::Other => FrameView::Other,
        }
    }
}

/// What to do with a frame.
pub enum Action {
    /// Deliver the text to every registered connection, the sender included.
    Broadcast(String),
    /// Deliver the notice to every registered connection, then remove the
    /// sender and end its receive loop.
    Leave(String),
    /// Store the content under the file name in the upload directory, then
    /// confirm to the sender.
    Store { filename: String, content: Vec<u8> },
    /// Deliver the text to the sender alone.
    Reply(String),
    /// Deliver the list of registered connections to the sender alone.
    ListSockets,
    /// Drop the frame.
    Discard,
}

/// The contents of an [`Action`].
pub enum ActionView {
    Broadcast(Seq<char>),
    Leave(Seq<char>),
    Store { filename: Seq<char>, content: Seq<u8> },
    Reply(Seq<char>),
    ListSockets,
    Discard,
}

impl View for Action {
    type V = ActionView;

    open spec fn view(&self) -> ActionView {
        match self {
            Action::Broadcast(text) => ActionView::Broadcast(text@),
            Action::Leave(notice) => ActionView::Leave(notice@),
            Action::Store { filename, content } => ActionView::Store {
                filename: filename@,
                content: content@,
            },
            Action::Reply(text) => ActionView::Reply(text@),
            Action::ListSockets => ActionView::ListSockets,
            Action::Discard => ActionView::Discard,
        }
    }
}

/// The line that a chat message is broadcast as.
pub open spec fn chat_line(room: i32, sender: Seq<char>, content: Seq<char>) -> Seq<char> {
    "[Room "@ + signed_decimal(room as int) + " - "@ + sender + "]: "@ + content
}

/// The notice that a connection has left.
pub open spec fn leave_notice(id: u128) -> Seq<char> {
    "User "@ + identifier_text(id) + " has left the chat."@
}

/// The confirmation of a stored file of `size` bytes.
pub open spec fn receipt(size: nat) -> Seq<char> {
    byte_count(size) + " transferred."@
}

/// The path under which a file is stored in the upload directory.
pub open spec fn upload_path(filename: Seq<char>) -> Seq<char> {
    "./uploads"@ + "/"@ + filename
}

/// What to do with a binary frame that connection `id` sent. A frame that
/// does not decode is dropped, and so is a file without a name.
pub open spec fn decide_binary(id: u128, data: Seq<u8>) -> ActionView {
    if data.len() == 0 {
        ActionView::Discard
    } else {
        match kind_of(data[0]) {
            MessageType::Chat => match TextMessageView::parse(data) {
                Ok(m) => ActionView::Broadcast(chat_line(m.room, m.sender, m.content)),
                Err(_) => ActionView::Discard,
            },
            MessageType::Exit => ActionView::Leave(leave_notice(id)),
            MessageType::FileTransfer => match FileTransferMessageView::parse(data) {
                Ok(m) => if m.filename.len() == 0 {
                    ActionView::Discard
                } else {
                    ActionView::Store { filename: m.filename, content: m.content }
                },
                Err(_) => ActionView::Discard,
            },
            MessageType::List => match ListMessageView::parse(data) {
                Ok(m) => if m.target == "socket"@ {
                    ActionView::ListSockets
                } else {
                    ActionView::Reply("Invalid target"@)
                },
                Err(_) => ActionView::Discard,
            },
            MessageType::Unknown => ActionView::Discard,
        }
    }
}

/// What to do with a frame that connection `id` sent.
pub open spec fn decide(id: u128, frame: FrameView) -> ActionView {
    match frame {
        FrameView::Text(text) => ActionView::Broadcast(trimmed(text)),
        FrameView::Binary(data) => decide_binary(id, data),
        FrameView::Other => ActionView::Discard,
    }
}

/// Writes the line that a chat message is broadcast as.
pub fn format_chat(message: &TextMessage) -> (line: String)
    ensures
        line@ == chat_line(message.room, message.sender@, message.content@),
{
    let mut line = "[Room ".to_string();
    line.append(signed_text(message.room).as_str());
    line.append(" - ");
    line.append(message.sender.as_str());
    line.append("]: ");
    line.append(message.content.as_str());
    line
}

/// Writes the notice that a connection has left.
pub fn format_leave(id: u128) -> (notice: String)
    ensures
        notice@ == leave_notice(id),
{
    let mut notice = "User ".to_string();
    notice.append(identifier_string(id).as_str());
    notice.append(" has left the chat.");
    notice
}

/// Writes the confirmation of a stored file of `size` bytes.
pub fn format_receipt(size: u64) -> (text: String)
    ensures
        text@ == receipt(size as nat),
{
    let mut text = format_bytes(size);
    text.append(" transferred.");
    text
}

/// Decides what to do with a binary frame that connection `id` sent.
pub fn interpret_binary(id: u128, data: &[u8]) -> (action: Action)
    ensures
        action@ == decide_binary(id, data@),
{
    if data.len() == 0 {
        return Action::Discard;
    }
    match crate::message::get_type(&data[0]) {
        MessageType::Chat => match TextMessage::from_bytes(data) {
            Ok(message) => Action::Broadcast(format_chat(&message)),
            Err(_) => Action::Discard,
        },
        MessageType::Exit => Action::Leave(format_leave(id)),
        MessageType::FileTransfer => match FileTransferMessage::from_bytes(data) {
            Ok(message) => {
                if message.filename.as_str().is_empty() {
                    Action::Discard
                } else {
                    Action::Store { filename: message.filename, content: message.content }
                }
            },
            Err(_) => Action::Discard,
        },
        MessageType::List => match ListMessage::from_bytes(data) {
            Ok(message) => {
                let wanted = "socket".to_string();
                if message.target == wanted {
                    Action::ListSockets
                } else {
                    Action::Reply("Invalid target".to_string())
                }
            },
            Err(_) => Action::Discard,
        },
        MessageType::Unknown => Action::Discard,
    }
}

/// Decides what to do with a frame that connection `id` sent.
pub fn interpret(id: u128, frame: &Frame) -> (action: Action)
    ensures
        action@ == decide(id, frame@),
{
    match frame {
        Frame::Text(text) => Action::Broadcast(trim(text.as_str()).to_string()),
        Frame::Binary(data) => interpret_binary(id, data.as_slice()),
        Frame::Other => Action::Discard,
    }
}

/// A file to store in the upload directory.
#[derive(Debug, PartialEq, Eq)]
pub struct Upload {
    pub path: String,
    pub content: Vec<u8>,
}

/// What performing an action asks of the connection's owner.
pub struct Reaction {
    /// The texts to queue, each on the handle of its target.
    pub deliveries: Vec<Delivery>,
    /// The file to store, if the action was a file transfer.
    pub upload: Option<Upload>,
    /// Whether the sender's receive loop ends.
    pub closed: bool,
}

/// The deliveries are the list of a registry's connections, sent to
/// connection `id` alone, or none at all if `id` is not registered.
pub open spec fn lists_to(list: Seq<Delivery>, ids: Set<u128>, id: u128) -> bool {
    if ids.contains(id) {
        &&& list.len() == 1
        &&& list[0].target == id
        &&& exists|order: Seq<u128>|
            order.no_duplicates() && order.to_set() == ids && #[trigger] joined(
                identifier_lines(order),
            ) == list[0].text@
    } else {
        list.len() == 0
    }
}

/// The deliveries are `text`, sent to connection `id` alone, or none at all
/// if `id` is not registered.
pub open spec fn replies_to(list: Seq<Delivery>, ids: Set<u128>, id: u128, text: Seq<char>) -> bool {
    if ids.contains(id) {
        list.len() == 1 && list[0].target == id && list[0].text@ == text
    } else {
        list.len() == 0
    }
}

/// Whether `reaction` and the registry `after` are what performing `action`
/// for connection `id` on the registry `before` gives.
pub open spec fn performed<H>(
    before: Map<u128, H>,
    after: Map<u128, H>,
    id: u128,
    action: ActionView,
    reaction: Reaction,
) -> bool {
    match action {
        ActionView::Broadcast(text) => {
            &&& after == before
            &&& reaches_each(reaction.deliveries@, before.dom(), text)
            &&& reaction.upload is None
            &&& !reaction.closed
        },
        ActionView::Leave(notice) => {
            &&& after == before.remove(id)
            &&& reaches_each(reaction.deliveries@, before.dom(), notice)
            &&& reaction.upload is None
            &&& reaction.closed
        },
        ActionView::Store { filename, content } => {
            &&& after == before
            &&& reaction.deliveries@.len() == 0
            &&& reaction.upload matches Some(upload) && upload.path@ == upload_path(filename)
                && upload.content@ == content
            &&& !reaction.closed
        },
        ActionView::Reply(text) => {
            &&& after == before
            &&& replies_to(reaction.deliveries@, before.dom(), id, text)
            &&& reaction.upload is None
            &&& !reaction.closed
        },
        ActionView::ListSockets => {
            &&& after == before
            &&& lists_to(reaction.deliveries@, before.dom(), id)
            &&& reaction.upload is None
            &&& !reaction.closed
        },
        ActionView::Discard => {
            &&& after == before
            &&& reaction.deliveries@.len() == 0
            &&& reaction.upload is None
            &&& !reaction.closed
        },
    }
}

/// The deliveries of a text to the sender alone.
fn reply<H>(manager: &SocketManager<H>, id: u128, text: String) -> (list: Vec<Delivery>)
    ensures
        replies_to(list@, manager@.dom(), id, text@),
{
    let mut list: Vec<Delivery> = Vec::new();
    match manager.direct_message(id, text) {
        Some(delivery) => {
            list.push(delivery);
        },
        None => {},
    }
    list
}

/// Performs an action for connection `id` on the registry.
pub fn perform<H>(manager: &mut SocketManager<H>, id: u128, action: Action) -> (reaction: Reaction)
    ensures
        performed(old(manager)@, final(manager)@, id, action@, reaction),
{
    match action {
        Action::Broadcast(text) => Reaction {
            deliveries: manager.broadcast(text.as_str()),
            upload: None,
            closed: false,
        },
        Action::Leave(notice) => {
            let deliveries = manager.broadcast(notice.as_str());
            let _ = manager.remove(id);
            Reaction { deliveries, upload: None, closed: true }
        },
        Action::Store { filename, content } => {
            let mut path = "./uploads".to_string();
            path.append("/");
            path.append(filename.as_str());
            Reaction {
                deliveries: Vec::new(),
                upload: Some(Upload { path, content }),
                closed: false,
            }
        },
        Action::Reply(text) => Reaction {
            deliveries: reply(manager, id, text),
            upload: None,
            closed: false,
        },
        Action::ListSockets => {
            let order = manager.enumerate();
            let deliveries = reply(manager, id, identifier_list(&order));
            proof {
                if manager@.dom().contains(id) {
                    assert(joined(identifier_lines(order@)) == deliveries@[0].text@);
                }
            }
            Reaction { deliveries, upload: None, closed: false }
        },
        Action::Discard => Reaction { deliveries: Vec::new(), upload: None, closed: false },
    }
}

/// Decides what to do with a frame that connection `id` sent, and performs
/// it on the registry.
pub fn handle_frame<H>(manager: &mut SocketManager<H>, id: u128, frame: &Frame) -> (reaction:
    Reaction)
    ensures
        performed(old(manager)@, final(manager)@, id, decide(id, frame@), reaction),
{
    perform(manager, id, interpret(id, frame))
}

/// The notice that a file could not be stored.
pub open spec fn failure_notice() -> Seq<char> {
    "File could not be stored."@
}

/// What the file sink's answer means for the sender: the confirmation with
/// the size of the stored file, or the notice that storing failed. The
/// list is empty if the sender is no longer registered.
pub fn confirm_upload<H>(manager: &SocketManager<H>, id: u128, upload: &Upload, stored: bool) -> (list:
    Vec<Delivery>)
    ensures
        stored ==> replies_to(list@, manager@.dom(), id, receipt(upload.content@.len())),
        !stored ==> replies_to(list@, manager@.dom(), id, failure_notice()),
{
    if stored {
        reply(manager, id, format_receipt(upload.content.len() as u64))
    } else {
        reply(manager, id, "File could not be stored.".to_string())
    }
}

} // verus!
