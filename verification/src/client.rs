//! What a client makes of a line that its user typed.

use crate::dispatch::Frame;
use crate::message::{
    ExitMessage, FileTransferMessage, FileTransferMessageView, ListMessage, ListMessageView,
    MessageType, TextMessage, TextMessageView, UnifiedMessage, UnifiedMessageView,
};
use crate::text::{trim, trimmed};
use crate::utils::parsing::{
    arguments, cleaned, parse_arguments,
    replace_full_width_spaces_to_half_width_spaces_if_not_in_quotes, texts_of,
};
use vstd::prelude::*;
use vstd::string::*;

verus! {

/// The room that a client talks in.
pub const ROOM: i32 = 42;

/// What to do with a typed line.
pub enum Command {
    /// Send this message.
    Send(UnifiedMessage),
    /// Let the user pick a file, and send it.
    PickFile,
    /// The line holds nothing to send.
    Nothing,
    /// The line cannot be read; the text says why.
    Invalid(String),
}

/// The contents of a [`Command`].
pub enum CommandView {
    Send(UnifiedMessageView),
    PickFile,
    Nothing,
    Invalid(Seq<char>),
}

impl View for Command {
    type V = CommandView;

    open spec fn view(&self) -> CommandView {
        match self {
            Command::Send(m) => CommandView::Send(m@),
            Command::PickFile => CommandView::PickFile,
            Command::Nothing => CommandView::Nothing,
            Command::Invalid(text) => CommandView::Invalid(text@),
        }
    }
}

/// What a line means: its first argument is looked at as a command, and a
/// line that starts with none is chat text, sent as typed but for the white
/// space around it.
pub open spec fn planned(name: Seq<char>, input: Seq<char>) -> CommandView {
    match arguments(cleaned(input)) {
        Err(text) => CommandView::Invalid(text),
        Ok(tokens) => if tokens.len() == 0 {
            CommandView::Nothing
        } else if tokens[0] == "/exit"@ {
            CommandView::Send(UnifiedMessageView::Exit)
        } else if tokens[0] == "/file"@ {
            CommandView::PickFile
        } else if tokens[0] == "/list"@ {
            CommandView::Send(
                UnifiedMessageView::ListMessage(
                    ListMessageView {
                        sender: name,
                        target: if tokens.len() > 1 {
                            tokens[1]
                        } else {
                            "socket"@
                        },
                        room: ROOM,
                        category: MessageType::List,
                    },
                ),
            )
        } else {
            CommandView::Send(
                UnifiedMessageView::ChatMessage(
                    TextMessageView {
                        sender: name,
                        room: ROOM,
                        category: MessageType::Chat,
                        content: trimmed(input),
                    },
                ),
            )
        },
    }
}

/// Decides what to do with a typed line.
pub fn plan_input(name: &str, input: &str) -> (command: Command)
    ensures
        command@ == planned(name@, input@),
{
    let line = replace_full_width_spaces_to_half_width_spaces_if_not_in_quotes(input);
    let tokens = match parse_arguments(line.as_str()) {
        Ok(tokens) => tokens,
        Err(text) => {
            return Command::Invalid(text);
        },
    };
    if tokens.len() == 0 {
        return Command::Nothing;
    }
    proof {
        assert(texts_of(tokens@)[0] == tokens@[0]@);
        if tokens@.len() > 1 {
            assert(texts_of(tokens@)[1] == tokens@[1]@);
        }
    }
    let exit = "/exit".to_string();
    let file = "/file".to_string();
    let list = "/list".to_string();
    if tokens[0] == exit {
        Command::Send(UnifiedMessage::Exit(ExitMessage {  }))
    } else if tokens[0] == file {
        Command::PickFile
    } else if tokens[0] == list {
        let target = if tokens.len() > 1 {
            tokens[1].as_str().to_string()
        } else {
            "socket".to_string()
        };
        Command::Send(
            UnifiedMessage::ListMessage(
                ListMessage {
                    sender: name.to_string(),
                    target,
                    room: ROOM,
                    category: MessageType::List,
                },
            ),
        )
    } else {
        Command::Send(
            UnifiedMessage::ChatMessage(
                TextMessage {
                    sender: name.to_string(),
                    room: ROOM,
                    category: MessageType::Chat,
                    content: trim(input).to_string(),
                },
            ),
        )
    }
}

/// The message that carries a picked file.
pub fn file_message(name: &str, filename: String, content: Vec<u8>) -> (message: UnifiedMessage)
    ensures
        message@ == UnifiedMessageView::FileTransferMessage(
            FileTransferMessageView {
                sender: name@,
                filename: filename@,
                room: ROOM,
                content: content@,
                category: MessageType::FileTransfer,
            },
        ),
{
    UnifiedMessage::FileTransferMessage(
        FileTransferMessage {
            category: MessageType::FileTransfer,
            room: ROOM,
            filename,
            sender: name.to_string(),
            content,
        },
    )
}

/// The first frame that a client sends: its name, as plain text.
pub fn introduction(name: &str) -> (frame: Frame)
    ensures
        frame@ == crate::dispatch::FrameView::Text("I am "@ + name@),
{
    let mut text = "I am ".to_string();
    text.append(name);
    Frame::Text(text)
}

} // verus!
