//! The messages that peers exchange, and their binary wire format.
//!
//! Every framed message starts with its tag byte and the room number, and
//! ends with a checksum byte that is written but not checked on reading. An
//! exit notice is the tag byte alone.

use crate::wire::{
    be16_at, be32_at, content_at, header, lemma_content_at, lemma_field_bounds, lemma_long_blob_at,
    lemma_long_frame, lemma_long_frame_found, lemma_name_at, lemma_pair_frame_found,
    lemma_sealed, lemma_short_blob_at, lemma_short_frame_found, lemma_word_round_trip, lemma_pair_frame, lemma_short_frame,
    long_blob_at, long_frame, name_at, pair_frame, prefixed16, prefixed32, prefixed8, put_name,
    put_prefixed16, put_prefixed32, put_header, read_content, read_long_blob, read_name, read_room,
    read_short_blob, seal, short_blob_at, short_frame, signed_of, wrapping_sum, Field, Taken,
};
use vstd::prelude::*;
use vstd::utf8::*;

verus! {

/// The kind of a message; its tag is the first byte of every frame.
#[derive(Debug, Clone, Copy, PartialEq, Eq, Structural)]
pub enum MessageType {
    Chat,
    Exit,
    FileTransfer,
    List,
    Unknown,
}

/// The kind that a tag byte stands for; `Unknown` for every byte that is no
/// tag.
pub open spec fn kind_of(tag: u8) -> MessageType {
    if tag == 1 {
        MessageType::Chat
    } else if tag == 2 {
        MessageType::Exit
    } else if tag == 3 {
        MessageType::FileTransfer
    } else if tag == 4 {
        MessageType::List
    } else {
        MessageType::Unknown
    }
}

/// Whether a byte is the tag of some kind, `Unknown` included.
pub open spec fn is_tag(tag: u8) -> bool {
    tag <= 4
}

impl MessageType {
    /// The tag byte of this kind.
    pub open spec fn tag(self) -> u8 {
        match self {
            MessageType::Chat => 1,
            MessageType::Exit => 2,
            MessageType::FileTransfer => 3,
            MessageType::List => 4,
            MessageType::Unknown => 0,
        }
    }

    /// The tag byte of this kind.
    pub fn to_bytes(&self) -> (tag: u8)
        ensures
            tag == self.tag(),
    {
        match self {
            MessageType::Chat => 0x01,
            MessageType::Exit => 0x02,
            MessageType::FileTransfer => 0x03,
            MessageType::List => 0x04,
            MessageType::Unknown => 0x00,
        }
    }

    /// The kind of a tag byte; an error for a byte that is no tag.
    pub fn from_bytes(data: &u8) -> (r: Result<Self, String>)
        ensures
            is_tag(*data) ==> r == Ok::<Self, String>(kind_of(*data)),
            !is_tag(*data) ==> r is Err && r->Err_0@ == "Invalid message category (1)"@,
    {
        let tag: u8 = *data;
        if tag == 0x01 {
            Ok(MessageType::Chat)
        } else if tag == 0x02 {
            Ok(MessageType::Exit)
        } else if tag == 0x03 {
            Ok(MessageType::FileTransfer)
        } else if tag == 0x04 {
            Ok(MessageType::List)
        } else if tag == 0x00 {
            Ok(MessageType::Unknown)
        } else {
            Err("Invalid message category (1)".to_string())
        }
    }

    /// The name under which this kind is logged.
    pub fn name(&self) -> (name: &'static str)
        ensures
            name@ == match *self {
                MessageType::Chat => "ChatMessage"@,
                MessageType::Exit => "Exit"@,
                MessageType::FileTransfer => "FileTransfer"@,
                MessageType::List => "List"@,
                MessageType::Unknown => "Unknown"@,
            },
    {
        match self {
            MessageType::Chat => "ChatMessage",
            MessageType::Exit => "Exit",
            MessageType::FileTransfer => "FileTransfer",
            MessageType::List => "List",
            MessageType::Unknown => "Unknown",
        }
    }
}

/// The kind of a tag byte, `Unknown` for every byte that is no tag.
pub fn get_type(b: &u8) -> (kind: MessageType)
    ensures
        kind == kind_of(*b),
{
    let tag: u8 = *b;
    if tag == 0x01 {
        MessageType::Chat
    } else if tag == 0x02 {
        MessageType::Exit
    } else if tag == 0x03 {
        MessageType::FileTransfer
    } else if tag == 0x04 {
        MessageType::List
    } else {
        MessageType::Unknown
    }
}

/// Every kind is the kind of its own tag.
pub proof fn lemma_tag_round_trip(kind: MessageType)
    ensures
        is_tag(kind.tag()),
        kind_of(kind.tag()) == kind,
{
}

/// Whether what a decoder returned is what the format prescribes: the
/// message with the prescribed contents, or the prescribed error text.
pub open spec fn answers<M: View>(got: Result<M, String>, want: Result<M::V, Seq<char>>) -> bool {
    match want {
        Ok(v) => got matches Ok(m) && m@ == v,
        Err(text) => got matches Err(e) && e@ == text,
    }
}

/// A message that has a wire form.
pub trait BinarySerializable {
    /// The bytes that stand for this message on the wire.
    spec fn frame(&self) -> Seq<u8>;

    /// Encodes the message; there is no input on which this fails.
    fn to_bytes(&self) -> (bytes: Vec<u8>)
        ensures
            bytes@ == self.frame(),
    ;
}

/// A message that can be read back from its wire form.
pub trait BinaryDeserializable: Sized + View {
    /// What a buffer decodes to: the contents of a message, or the text of
    /// the error that tells which field could not be read.
    spec fn parsed(data: Seq<u8>) -> Result<Self::V, Seq<char>>;

    /// Decodes a buffer. Bytes behind the checksum are ignored, and the
    /// checksum itself is read but not compared.
    fn from_bytes(data: &[u8]) -> (r: Result<Self, String>)
        ensures
            answers(r, Self::parsed(data@)),
    ;
}

/// A message that can be sent and received: it encodes and decodes as
/// the two traits above prescribe.
pub trait SendMessage: BinarySerializable + BinaryDeserializable {

}

/// A chat utterance in a room.
#[derive(Debug, Eq, PartialEq)]
pub struct TextMessage {
    pub sender: String,
    pub room: i32,
    pub category: MessageType,
    pub content: String,
}

/// The contents of a [`TextMessage`].
pub struct TextMessageView {
    pub sender: Seq<char>,
    pub room: i32,
    pub category: MessageType,
    pub content: Seq<char>,
}

impl View for TextMessage {
    type V = TextMessageView;

    open spec fn view(&self) -> TextMessageView {
        TextMessageView {
            sender: self.sender@,
            room: self.room,
            category: self.category,
            content: self.content@,
        }
    }
}

impl TextMessageView {
    /// The frame of a chat message: header, sender, then the content behind
    /// a two-byte length, and the checksum.
    pub open spec fn frame(self) -> Seq<u8> {
        short_frame(
            self.category.tag(),
            self.room,
            encode_utf8(self.sender),
            encode_utf8(self.content),
        )
    }

    /// The length prefixes can hold the lengths of the fields.
    pub open spec fn fits(self) -> bool {
        encode_utf8(self.sender).len() <= 0xff && encode_utf8(self.content).len() <= 0xffff
    }

    /// What a buffer decodes to as a chat message.
    pub open spec fn parse(b: Seq<u8>) -> Result<TextMessageView, Seq<char>> {
        if b.len() < 1 {
            Err("Failed to read category"@)
        } else if !is_tag(b[0]) {
            Err("Invalid message category (1)"@)
        } else if b.len() < 5 {
            Err("Failed to read room"@)
        } else {
            match name_at(b, 5) {
                Field::NoLength => Err("Failed to read author length"@),
                Field::NoData => Err("Failed to read author"@),
                Field::NotText => Err("Invalid UTF-8 in author"@),
                Field::Got(sender, next) => match content_at(b, next) {
                    Field::NoLength => Err("Failed to read message length"@),
                    Field::NoData => Err("Failed to read message"@),
                    Field::NotText => Err("Invalid UTF-8 in message"@),
                    Field::Got(content, end) => if b.len() < end + 1 {
                        Err("Failed to read checksum"@)
                    } else {
                        Ok(
                            TextMessageView {
                                sender,
                                room: signed_of(be32_at(b, 1)),
                                category: kind_of(b[0]),
                                content,
                            },
                        )
                    },
                },
            }
        }
    }
}

impl TextMessage {
    /// Whether the length prefixes can hold the lengths of the fields, so
    /// that the frame decodes to this message again.
    pub fn fits(&self) -> (fits: bool)
        ensures
            fits == self@.fits(),
    {
        self.sender.as_str().as_bytes().len() <= 0xff && self.content.as_str().as_bytes().len()
            <= 0xffff
    }
}

impl BinarySerializable for TextMessage {
    open spec fn frame(&self) -> Seq<u8> {
        self@.frame()
    }

    fn to_bytes(&self) -> (bytes: Vec<u8>) {
        let mut buffer: Vec<u8> = Vec::new();
        put_header(&mut buffer, self.category.to_bytes(), self.room);
        put_name(&mut buffer, self.sender.as_str());
        put_prefixed16(&mut buffer, self.content.as_str().as_bytes());
        proof {
            reveal(short_frame);
            assert(buffer@ =~= header(self.category.tag(), self.room) + prefixed8(
                encode_utf8(self.sender@),
            ) + prefixed16(encode_utf8(self.content@)));
        }
        seal(&mut buffer);
        buffer
    }
}

impl BinaryDeserializable for TextMessage {
    open spec fn parsed(data: Seq<u8>) -> Result<TextMessageView, Seq<char>> {
        TextMessageView::parse(data)
    }

    fn from_bytes(data: &[u8]) -> (r: Result<Self, String>) {
        if data.len() < 1 {
            return Err("Failed to read category".to_string());
        }
        let category = MessageType::from_bytes(&data[0])?;
        if data.len() < 5 {
            return Err("Failed to read room".to_string());
        }
        let room = read_room(data, 1);
        let (sender, next) = match read_name(data, 5) {
            Taken::Got(text, next) => (text, next),
            Taken::NoLength => { return Err("Failed to read author length".to_string()); },
            Taken::NoData => { return Err("Failed to read author".to_string()); },
            Taken::NotText => { return Err("Invalid UTF-8 in author".to_string()); },
        };
        let (content, end) = match read_content(data, next) {
            Taken::Got(text, end) => (text, end),
            Taken::NoLength => { return Err("Failed to read message length".to_string()); },
            Taken::NoData => { return Err("Failed to read message".to_string()); },
            Taken::NotText => { return Err("Invalid UTF-8 in message".to_string()); },
        };
        if data.len() - end < 1 {
            return Err("Failed to read checksum".to_string());
        }
        Ok(TextMessage { sender, room, category, content })
    }
}

/// Decoding the frame of a chat message that fits gives the message back.
pub proof fn lemma_text_round_trip(m: TextMessageView)
    requires
        m.fits(),
    ensures
        TextMessageView::parse(m.frame()) == Ok::<TextMessageView, Seq<char>>(m),
{
    lemma_short_frame(m.category.tag(), m.room, encode_utf8(m.sender), encode_utf8(m.content));
    lemma_tag_round_trip(m.category);
    lemma_name_at(m.frame(), 5, m.sender);
    lemma_content_at(m.frame(), 6 + encode_utf8(m.sender).len() as int, m.content);
}

/// Whatever decodes as a chat message fits its length prefixes, and the
/// buffer starts with the frame of the message but for the checksum byte,
/// which may be any byte.
pub proof fn lemma_text_parsed_is_framed(b: Seq<u8>, m: TextMessageView)
    requires
        TextMessageView::parse(b) == Ok::<TextMessageView, Seq<char>>(m),
    ensures
        m.fits(),
        m.frame().len() <= b.len(),
        b.subrange(0, m.frame().len() - 1) == m.frame().drop_last(),
{
    let n = b[5] as int;
    lemma_field_bounds(b, 5);
    lemma_field_bounds(b, 6 + n);
    lemma_word_round_trip(b, 1);
    let sender = encode_utf8(m.sender);
    let content = encode_utf8(m.content);
    lemma_short_frame(m.category.tag(), m.room, sender, content);
    lemma_short_frame_found(b, m.category.tag(), m.room, sender, content);
}

/// No strict prefix of the frame of a chat message that fits decodes.
pub proof fn lemma_text_truncated(m: TextMessageView, keep: int)
    requires
        m.fits(),
        0 <= keep < m.frame().len(),
    ensures
        TextMessageView::parse(m.frame().subrange(0, keep)) is Err,
{
    lemma_short_frame(m.category.tag(), m.room, encode_utf8(m.sender), encode_utf8(m.content));
    let cut = m.frame().subrange(0, keep);
    lemma_field_bounds(cut, 5);
    lemma_field_bounds(cut, 6 + encode_utf8(m.sender).len() as int);
}

/// An opaque payload in a room, laid out like a chat message.
#[derive(Debug, Eq, PartialEq)]
pub struct BinaryMessage {
    pub sender: String,
    pub room: i32,
    pub category: MessageType,
    pub content: Vec<u8>,
}

/// The contents of a [`BinaryMessage`].
pub struct BinaryMessageView {
    pub sender: Seq<char>,
    pub room: i32,
    pub category: MessageType,
    pub content: Seq<u8>,
}

impl View for BinaryMessage {
    type V = BinaryMessageView;

    open spec fn view(&self) -> BinaryMessageView {
        BinaryMessageView {
            sender: self.sender@,
            room: self.room,
            category: self.category,
            content: self.content@,
        }
    }
}

impl BinaryMessageView {
    /// The frame of a payload message: header, sender, then the payload
    /// behind a two-byte length, and the checksum.
    pub open spec fn frame(self) -> Seq<u8> {
        short_frame(self.category.tag(), self.room, encode_utf8(self.sender), self.content)
    }

    /// The length prefixes can hold the lengths of the fields.
    pub open spec fn fits(self) -> bool {
        encode_utf8(self.sender).len() <= 0xff && self.content.len() <= 0xffff
    }

    /// What a buffer decodes to as a payload message.
    pub open spec fn parse(b: Seq<u8>) -> Result<BinaryMessageView, Seq<char>> {
        if b.len() < 1 {
            Err("Failed to read category"@)
        } else if !is_tag(b[0]) {
            Err("Invalid message category (1)"@)
        } else if b.len() < 5 {
            Err("Failed to read room"@)
        } else {
            match name_at(b, 5) {
                Field::NoLength => Err("Failed to read author length"@),
                Field::NoData => Err("Failed to read author"@),
                Field::NotText => Err("Invalid UTF-8 in author"@),
                Field::Got(sender, next) => match short_blob_at(b, next) {
                    Field::NoLength => Err("Failed to read message length"@),
                    Field::NoData | Field::NotText => Err("Failed to read message"@),
                    Field::Got(content, end) => if b.len() < end + 1 {
                        Err("Failed to read checksum"@)
                    } else {
                        Ok(
                            BinaryMessageView {
                                sender,
                                room: signed_of(be32_at(b, 1)),
                                category: kind_of(b[0]),
                                content,
                            },
                        )
                    },
                },
            }
        }
    }
}

impl BinaryMessage {
    /// Whether the length prefixes can hold the lengths of the fields, so
    /// that the frame decodes to this message again.
    pub fn fits(&self) -> (fits: bool)
        ensures
            fits == self@.fits(),
    {
        self.sender.as_str().as_bytes().len() <= 0xff && self.content.len() <= 0xffff
    }
}

impl BinarySerializable for BinaryMessage {
    open spec fn frame(&self) -> Seq<u8> {
        self@.frame()
    }

    fn to_bytes(&self) -> (bytes: Vec<u8>) {
        let mut buffer: Vec<u8> = Vec::new();
        put_header(&mut buffer, self.category.to_bytes(), self.room);
        put_name(&mut buffer, self.sender.as_str());
        put_prefixed16(&mut buffer, self.content.as_slice());
        proof {
            reveal(short_frame);
            assert(buffer@ =~= header(self.category.tag(), self.room) + prefixed8(
                encode_utf8(self.sender@),
            ) + prefixed16(self.content@));
        }
        seal(&mut buffer);
        buffer
    }
}

impl BinaryDeserializable for BinaryMessage {
    open spec fn parsed(data: Seq<u8>) -> Result<BinaryMessageView, Seq<char>> {
        BinaryMessageView::parse(data)
    }

    fn from_bytes(data: &[u8]) -> (r: Result<Self, String>) {
        if data.len() < 1 {
            return Err("Failed to read category".to_string());
        }
        let category = MessageType::from_bytes(&data[0])?;
        if data.len() < 5 {
            return Err("Failed to read room".to_string());
        }
        let room = read_room(data, 1);
        let (sender, next) = match read_name(data, 5) {
            Taken::Got(text, next) => (text, next),
            Taken::NoLength => { return Err("Failed to read author length".to_string()); },
            Taken::NoData => { return Err("Failed to read author".to_string()); },
            Taken::NotText => { return Err("Invalid UTF-8 in author".to_string()); },
        };
        let (content, end) = match read_short_blob(data, next) {
            Taken::Got(raw, end) => (raw, end),
            Taken::NoLength => { return Err("Failed to read message length".to_string()); },
            Taken::NoData | Taken::NotText => {
                return Err("Failed to read message".to_string());
            },
        };
        if data.len() - end < 1 {
            return Err("Failed to read checksum".to_string());
        }
        Ok(BinaryMessage { sender, room, category, content })
    }
}

/// Decoding the frame of a payload message that fits gives the message back.
pub proof fn lemma_binary_round_trip(m: BinaryMessageView)
    requires
        m.fits(),
    ensures
        BinaryMessageView::parse(m.frame()) == Ok::<BinaryMessageView, Seq<char>>(m),
{
    lemma_short_frame(m.category.tag(), m.room, encode_utf8(m.sender), m.content);
    lemma_tag_round_trip(m.category);
    lemma_name_at(m.frame(), 5, m.sender);
    lemma_short_blob_at(m.frame(), 6 + encode_utf8(m.sender).len() as int, m.content);
}

/// Whatever decodes as a payload message fits its length prefixes, and the
/// buffer starts with the frame of the message but for the checksum byte,
/// which may be any byte.
pub proof fn lemma_binary_parsed_is_framed(b: Seq<u8>, m: BinaryMessageView)
    requires
        BinaryMessageView::parse(b) == Ok::<BinaryMessageView, Seq<char>>(m),
    ensures
        m.fits(),
        m.frame().len() <= b.len(),
        b.subrange(0, m.frame().len() - 1) == m.frame().drop_last(),
{
    let n = b[5] as int;
    lemma_field_bounds(b, 5);
    lemma_field_bounds(b, 6 + n);
    lemma_word_round_trip(b, 1);
    let sender = encode_utf8(m.sender);
    lemma_short_frame(m.category.tag(), m.room, sender, m.content);
    lemma_short_frame_found(b, m.category.tag(), m.room, sender, m.content);
}

/// No strict prefix of the frame of a payload message that fits decodes.
pub proof fn lemma_binary_truncated(m: BinaryMessageView, keep: int)
    requires
        m.fits(),
        0 <= keep < m.frame().len(),
    ensures
        BinaryMessageView::parse(m.frame().subrange(0, keep)) is Err,
{
    lemma_short_frame(m.category.tag(), m.room, encode_utf8(m.sender), m.content);
    let cut = m.frame().subrange(0, keep);
    lemma_field_bounds(cut, 5);
    lemma_field_bounds(cut, 6 + encode_utf8(m.sender).len() as int);
}

/// A file on its way to the upload directory.
#[derive(Debug)]
pub struct FileTransferMessage {
    pub sender: String,
    pub filename: String,
    pub room: i32,
    pub content: Vec<u8>,
    pub category: MessageType,
}

/// The contents of a [`FileTransferMessage`].
pub struct FileTransferMessageView {
    pub sender: Seq<char>,
    pub filename: Seq<char>,
    pub room: i32,
    pub content: Seq<u8>,
    pub category: MessageType,
}

impl View for FileTransferMessage {
    type V = FileTransferMessageView;

    open spec fn view(&self) -> FileTransferMessageView {
        FileTransferMessageView {
            sender: self.sender@,
            filename: self.filename@,
            room: self.room,
            content: self.content@,
            category: self.category,
        }
    }
}

impl FileTransferMessageView {
    /// The frame of a file transfer: header with the file-transfer tag,
    /// sender, file name, then the payload behind a four-byte length, and
    /// the checksum.
    pub open spec fn frame(self) -> Seq<u8> {
        long_frame(
            MessageType::FileTransfer.tag(),
            self.room,
            encode_utf8(self.sender),
            encode_utf8(self.filename),
            self.content,
        )
    }

    /// The length prefixes can hold the lengths of the fields, and the
    /// category is the one that the frame's tag states.
    pub open spec fn fits(self) -> bool {
        &&& encode_utf8(self.sender).len() <= 0xff
        &&& encode_utf8(self.filename).len() <= 0xff
        &&& self.content.len() <= 0xffff_ffff
        &&& self.category == MessageType::FileTransfer
    }

    /// What a buffer decodes to as a file transfer.
    pub open spec fn parse(b: Seq<u8>) -> Result<FileTransferMessageView, Seq<char>> {
        if b.len() < 1 {
            Err("Failed to read category"@)
        } else if !is_tag(b[0]) {
            Err("Invalid message category (1)"@)
        } else if b.len() < 5 {
            Err("Failed to read room"@)
        } else {
            match name_at(b, 5) {
                Field::NoLength => Err("Failed to read sender length"@),
                Field::NoData => Err("Failed to read sender"@),
                Field::NotText => Err("Invalid UTF-8 in sender"@),
                Field::Got(sender, next) => match name_at(b, next) {
                    Field::NoLength => Err("Failed to read filename length"@),
                    Field::NoData => Err("Failed to read filename"@),
                    Field::NotText => Err("Invalid UTF-8 in filename"@),
                    Field::Got(filename, then) => match long_blob_at(b, then) {
                        Field::NoLength => Err("Failed to read content length"@),
                        Field::NoData | Field::NotText => Err("Failed to read content"@),
                        Field::Got(content, end) => if b.len() < end + 1 {
                            Err("Failed to read checksum"@)
                        } else {
                            Ok(
                                FileTransferMessageView {
                                    sender,
                                    filename,
                                    room: signed_of(be32_at(b, 1)),
                                    content,
                                    category: kind_of(b[0]),
                                },
                            )
                        },
                    },
                },
            }
        }
    }
}

impl FileTransferMessage {
    /// Whether the length prefixes can hold the lengths of the fields and
    /// the category is that of a file transfer, so that the frame decodes to
    /// this message again.
    pub fn fits(&self) -> (fits: bool)
        ensures
            fits == self@.fits(),
    {
        self.sender.as_str().as_bytes().len() <= 0xff && self.filename.as_str().as_bytes().len()
            <= 0xff && self.content.len() as u64 <= 0xffff_ffff && self.category
            == MessageType::FileTransfer
    }
}

impl BinarySerializable for FileTransferMessage {
    open spec fn frame(&self) -> Seq<u8> {
        self@.frame()
    }

    fn to_bytes(&self) -> (bytes: Vec<u8>) {
        let mut buffer: Vec<u8> = Vec::new();
        put_header(&mut buffer, 0x03, self.room);
        put_name(&mut buffer, self.sender.as_str());
        put_name(&mut buffer, self.filename.as_str());
        put_prefixed32(&mut buffer, self.content.as_slice());
        proof {
            reveal(long_frame);
            assert(buffer@ =~= header(MessageType::FileTransfer.tag(), self.room) + prefixed8(
                encode_utf8(self.sender@),
            ) + prefixed8(encode_utf8(self.filename@)) + prefixed32(self.content@));
        }
        seal(&mut buffer);
        buffer
    }
}

impl BinaryDeserializable for FileTransferMessage {
    open spec fn parsed(data: Seq<u8>) -> Result<FileTransferMessageView, Seq<char>> {
        FileTransferMessageView::parse(data)
    }

    fn from_bytes(data: &[u8]) -> (r: Result<Self, String>) {
        if data.len() < 1 {
            return Err("Failed to read category".to_string());
        }
        let category = MessageType::from_bytes(&data[0])?;
        if data.len() < 5 {
            return Err("Failed to read room".to_string());
        }
        let room = read_room(data, 1);
        let (sender, next) = match read_name(data, 5) {
            Taken::Got(text, next) => (text, next),
            Taken::NoLength => { return Err("Failed to read sender length".to_string()); },
            Taken::NoData => { return Err("Failed to read sender".to_string()); },
            Taken::NotText => { return Err("Invalid UTF-8 in sender".to_string()); },
        };
        let (filename, then) = match read_name(data, next) {
            Taken::Got(text, then) => (text, then),
            Taken::NoLength => { return Err("Failed to read filename length".to_string()); },
            Taken::NoData => { return Err("Failed to read filename".to_string()); },
            Taken::NotText => { return Err("Invalid UTF-8 in filename".to_string()); },
        };
        let (content, end) = match read_long_blob(data, then) {
            Taken::Got(raw, end) => (raw, end),
            Taken::NoLength => { return Err("Failed to read content length".to_string()); },
            Taken::NoData | Taken::NotText => {
                return Err("Failed to read content".to_string());
            },
        };
        if data.len() - end < 1 {
            return Err("Failed to read checksum".to_string());
        }
        Ok(FileTransferMessage { sender, filename, room, content, category })
    }
}

/// Decoding the frame of a file transfer that fits gives the message back.
pub proof fn lemma_file_round_trip(m: FileTransferMessageView)
    requires
        m.fits(),
    ensures
        FileTransferMessageView::parse(m.frame()) == Ok::<FileTransferMessageView, Seq<char>>(m),
{
    lemma_long_frame(
        MessageType::FileTransfer.tag(),
        m.room,
        encode_utf8(m.sender),
        encode_utf8(m.filename),
        m.content,
    );
    lemma_name_at(m.frame(), 5, m.sender);
    lemma_name_at(m.frame(), 6 + encode_utf8(m.sender).len() as int, m.filename);
    lemma_long_blob_at(
        m.frame(),
        7 + encode_utf8(m.sender).len() as int + encode_utf8(m.filename).len() as int,
        m.content,
    );
}

/// Whatever decodes as a file transfer with the tag of one fits its length
/// prefixes, and the buffer starts with the frame of the message but for
/// the checksum byte, which may be any byte.
pub proof fn lemma_file_parsed_is_framed(b: Seq<u8>, m: FileTransferMessageView)
    requires
        FileTransferMessageView::parse(b) == Ok::<FileTransferMessageView, Seq<char>>(m),
        m.category == MessageType::FileTransfer,
    ensures
        m.fits(),
        m.frame().len() <= b.len(),
        b.subrange(0, m.frame().len() - 1) == m.frame().drop_last(),
{
    let n = b[5] as int;
    lemma_field_bounds(b, 5);
    let k = b[6 + n] as int;
    lemma_field_bounds(b, 6 + n);
    lemma_field_bounds(b, 7 + n + k);
    lemma_word_round_trip(b, 1);
    let sender = encode_utf8(m.sender);
    let filename = encode_utf8(m.filename);
    let tag = MessageType::FileTransfer.tag();
    lemma_long_frame(tag, m.room, sender, filename, m.content);
    lemma_long_frame_found(b, tag, m.room, sender, filename, m.content);
}

/// No strict prefix of the frame of a file transfer that fits decodes.
pub proof fn lemma_file_truncated(m: FileTransferMessageView, keep: int)
    requires
        m.fits(),
        0 <= keep < m.frame().len(),
    ensures
        FileTransferMessageView::parse(m.frame().subrange(0, keep)) is Err,
{
    lemma_long_frame(
        MessageType::FileTransfer.tag(),
        m.room,
        encode_utf8(m.sender),
        encode_utf8(m.filename),
        m.content,
    );
    let cut = m.frame().subrange(0, keep);
    lemma_field_bounds(cut, 5);
    lemma_field_bounds(cut, 6 + encode_utf8(m.sender).len() as int);
    lemma_field_bounds(
        cut,
        7 + encode_utf8(m.sender).len() as int + encode_utf8(m.filename).len() as int,
    );
}

/// A request to list something; `"socket"` asks for the live connections.
#[derive(Debug)]
pub struct ListMessage {
    pub sender: String,
    pub target: String,
    pub room: i32,
    pub category: MessageType,
}

/// The contents of a [`ListMessage`].
pub struct ListMessageView {
    pub sender: Seq<char>,
    pub target: Seq<char>,
    pub room: i32,
    pub category: MessageType,
}

impl View for ListMessage {
    type V = ListMessageView;

    open spec fn view(&self) -> ListMessageView {
        ListMessageView {
            sender: self.sender@,
            target: self.target@,
            room: self.room,
            category: self.category,
        }
    }
}

impl ListMessageView {
    /// The frame of a list request: header with the list tag, sender,
    /// target, and the checksum.
    pub open spec fn frame(self) -> Seq<u8> {
        pair_frame(
            MessageType::List.tag(),
            self.room,
            encode_utf8(self.sender),
            encode_utf8(self.target),
        )
    }

    /// The length prefixes can hold the lengths of the fields, and the
    /// category is the one that the frame's tag states.
    pub open spec fn fits(self) -> bool {
        &&& encode_utf8(self.sender).len() <= 0xff
        &&& encode_utf8(self.target).len() <= 0xff
        &&& self.category == MessageType::List
    }

    /// What a buffer decodes to as a list request.
    pub open spec fn parse(b: Seq<u8>) -> Result<ListMessageView, Seq<char>> {
        if b.len() < 1 {
            Err("Failed to read category"@)
        } else if !is_tag(b[0]) {
            Err("Invalid message category (1)"@)
        } else if b.len() < 5 {
            Err("Failed to read room"@)
        } else {
            match name_at(b, 5) {
                Field::NoLength => Err("Failed to read sender length"@),
                Field::NoData => Err("Failed to read sender"@),
                Field::NotText => Err("Invalid UTF-8 in sender"@),
                Field::Got(sender, next) => match name_at(b, next) {
                    Field::NoLength => Err("Failed to read target length"@),
                    Field::NoData => Err("Failed to read target"@),
                    Field::NotText => Err("Invalid UTF-8 in target"@),
                    Field::Got(target, end) => if b.len() < end + 1 {
                        Err("Failed to read checksum"@)
                    } else {
                        Ok(
                            ListMessageView {
                                sender,
                                target,
                                room: signed_of(be32_at(b, 1)),
                                category: kind_of(b[0]),
                            },
                        )
                    },
                },
            }
        }
    }
}

impl ListMessage {
    /// Whether the length prefixes can hold the lengths of the fields and
    /// the category is that of a list request, so that the frame decodes to
    /// this message again.
    pub fn fits(&self) -> (fits: bool)
        ensures
            fits == self@.fits(),
    {
        self.sender.as_str().as_bytes().len() <= 0xff && self.target.as_str().as_bytes().len()
            <= 0xff && self.category == MessageType::List
    }
}

impl BinarySerializable for ListMessage {
    open spec fn frame(&self) -> Seq<u8> {
        self@.frame()
    }

    fn to_bytes(&self) -> (bytes: Vec<u8>) {
        let mut buffer: Vec<u8> = Vec::new();
        put_header(&mut buffer, 0x04, self.room);
        put_name(&mut buffer, self.sender.as_str());
        put_name(&mut buffer, self.target.as_str());
        proof {
            reveal(pair_frame);
            assert(buffer@ =~= header(MessageType::List.tag(), self.room) + prefixed8(
                encode_utf8(self.sender@),
            ) + prefixed8(encode_utf8(self.target@)));
        }
        seal(&mut buffer);
        buffer
    }
}

impl BinaryDeserializable for ListMessage {
    open spec fn parsed(data: Seq<u8>) -> Result<ListMessageView, Seq<char>> {
        ListMessageView::parse(data)
    }

    fn from_bytes(data: &[u8]) -> (r: Result<Self, String>) {
        if data.len() < 1 {
            return Err("Failed to read category".to_string());
        }
        let category = MessageType::from_bytes(&data[0])?;
        if data.len() < 5 {
            return Err("Failed to read room".to_string());
        }
        let room = read_room(data, 1);
        let (sender, next) = match read_name(data, 5) {
            Taken::Got(text, next) => (text, next),
            Taken::NoLength => { return Err("Failed to read sender length".to_string()); },
            Taken::NoData => { return Err("Failed to read sender".to_string()); },
            Taken::NotText => { return Err("Invalid UTF-8 in sender".to_string()); },
        };
        let (target, end) = match read_name(data, next) {
            Taken::Got(text, end) => (text, end),
            Taken::NoLength => { return Err("Failed to read target length".to_string()); },
            Taken::NoData => { return Err("Failed to read target".to_string()); },
            Taken::NotText => { return Err("Invalid UTF-8 in target".to_string()); },
        };
        if data.len() - end < 1 {
            return Err("Failed to read checksum".to_string());
        }
        Ok(ListMessage { sender, target, room, category })
    }
}

/// Decoding the frame of a list request that fits gives the message back.
pub proof fn lemma_list_round_trip(m: ListMessageView)
    requires
        m.fits(),
    ensures
        ListMessageView::parse(m.frame()) == Ok::<ListMessageView, Seq<char>>(m),
{
    lemma_pair_frame(MessageType::List.tag(), m.room, encode_utf8(m.sender), encode_utf8(m.target));
    lemma_name_at(m.frame(), 5, m.sender);
    lemma_name_at(m.frame(), 6 + encode_utf8(m.sender).len() as int, m.target);
}

/// Whatever decodes as a list request with the tag of one fits its length
/// prefixes, and the buffer starts with the frame of the message but for
/// the checksum byte, which may be any byte.
pub proof fn lemma_list_parsed_is_framed(b: Seq<u8>, m: ListMessageView)
    requires
        ListMessageView::parse(b) == Ok::<ListMessageView, Seq<char>>(m),
        m.category == MessageType::List,
    ensures
        m.fits(),
        m.frame().len() <= b.len(),
        b.subrange(0, m.frame().len() - 1) == m.frame().drop_last(),
{
    let n = b[5] as int;
    lemma_field_bounds(b, 5);
    lemma_field_bounds(b, 6 + n);
    lemma_word_round_trip(b, 1);
    let sender = encode_utf8(m.sender);
    let target = encode_utf8(m.target);
    let tag = MessageType::List.tag();
    lemma_pair_frame(tag, m.room, sender, target);
    lemma_pair_frame_found(b, tag, m.room, sender, target);
}

/// No strict prefix of the frame of a list request that fits decodes.
pub proof fn lemma_list_truncated(m: ListMessageView, keep: int)
    requires
        m.fits(),
        0 <= keep < m.frame().len(),
    ensures
        ListMessageView::parse(m.frame().subrange(0, keep)) is Err,
{
    lemma_pair_frame(MessageType::List.tag(), m.room, encode_utf8(m.sender), encode_utf8(m.target));
    let cut = m.frame().subrange(0, keep);
    lemma_field_bounds(cut, 5);
    lemma_field_bounds(cut, 6 + encode_utf8(m.sender).len() as int);
}

/// The last byte of the frame of a chat message is the wraparound sum of
/// all the bytes before it.
pub proof fn lemma_text_checksum(m: TextMessageView)
    ensures
        m.frame().len() > 0,
        m.frame().last() == wrapping_sum(m.frame().drop_last()),
{
    reveal(short_frame);
    lemma_sealed(
        header(m.category.tag(), m.room) + prefixed8(encode_utf8(m.sender)) + prefixed16(
            encode_utf8(m.content),
        ),
    );
}

/// The last byte of the frame of a payload message is the wraparound sum of
/// all the bytes before it.
pub proof fn lemma_binary_checksum(m: BinaryMessageView)
    ensures
        m.frame().len() > 0,
        m.frame().last() == wrapping_sum(m.frame().drop_last()),
{
    reveal(short_frame);
    lemma_sealed(
        header(m.category.tag(), m.room) + prefixed8(encode_utf8(m.sender)) + prefixed16(
            m.content,
        ),
    );
}

/// The last byte of the frame of a file transfer is the wraparound sum of
/// all the bytes before it.
pub proof fn lemma_file_checksum(m: FileTransferMessageView)
    ensures
        m.frame().len() > 0,
        m.frame().last() == wrapping_sum(m.frame().drop_last()),
{
    reveal(long_frame);
    lemma_sealed(
        header(MessageType::FileTransfer.tag(), m.room) + prefixed8(encode_utf8(m.sender))
            + prefixed8(encode_utf8(m.filename)) + prefixed32(m.content),
    );
}

/// The last byte of the frame of a list request is the wraparound sum of
/// all the bytes before it.
pub proof fn lemma_list_checksum(m: ListMessageView)
    ensures
        m.frame().len() > 0,
        m.frame().last() == wrapping_sum(m.frame().drop_last()),
{
    reveal(pair_frame);
    lemma_sealed(
        header(MessageType::List.tag(), m.room) + prefixed8(encode_utf8(m.sender)) + prefixed8(
            encode_utf8(m.target),
        ),
    );
}

/// The notice that a peer leaves: on the wire, the exit tag and nothing
/// else.
pub struct ExitMessage {}

impl BinarySerializable for ExitMessage {
    open spec fn frame(&self) -> Seq<u8> {
        seq![MessageType::Exit.tag()]
    }

    fn to_bytes(&self) -> (bytes: Vec<u8>) {
        let mut buffer: Vec<u8> = Vec::new();
        buffer.push(0x02);
        proof {
            assert(buffer@ =~= seq![MessageType::Exit.tag()]);
        }
        buffer
    }
}

/// Any of the messages that travel on a connection.
pub enum UnifiedMessage {
    ChatMessage(TextMessage),
    BinaryMessage(BinaryMessage),
    FileTransferMessage(FileTransferMessage),
    ListMessage(ListMessage),
    Exit(ExitMessage),
}

/// The contents of a [`UnifiedMessage`].
pub enum UnifiedMessageView {
    ChatMessage(TextMessageView),
    BinaryMessage(BinaryMessageView),
    FileTransferMessage(FileTransferMessageView),
    ListMessage(ListMessageView),
    Exit,
}

impl View for UnifiedMessage {
    type V = UnifiedMessageView;

    open spec fn view(&self) -> UnifiedMessageView {
        match self {
            UnifiedMessage::ChatMessage(m) => UnifiedMessageView::ChatMessage(m@),
            UnifiedMessage::BinaryMessage(m) => UnifiedMessageView::BinaryMessage(m@),
            UnifiedMessage::FileTransferMessage(m) => UnifiedMessageView::FileTransferMessage(m@),
            UnifiedMessage::ListMessage(m) => UnifiedMessageView::ListMessage(m@),
            UnifiedMessage::Exit(_) => UnifiedMessageView::Exit,
        }
    }
}

impl UnifiedMessageView {
    /// The frame of the message inside.
    pub open spec fn frame(self) -> Seq<u8> {
        match self {
            UnifiedMessageView::ChatMessage(m) => m.frame(),
            UnifiedMessageView::BinaryMessage(m) => m.frame(),
            UnifiedMessageView::FileTransferMessage(m) => m.frame(),
            UnifiedMessageView::ListMessage(m) => m.frame(),
            UnifiedMessageView::Exit => seq![MessageType::Exit.tag()],
        }
    }

    /// The message is one that decoding by the leading tag gives back: its
    /// fields fit their length prefixes and its category is that of its
    /// variant. A payload message has no tag of its own, so it is none.
    pub open spec fn fits(self) -> bool {
        match self {
            UnifiedMessageView::ChatMessage(m) => m.fits() && m.category == MessageType::Chat,
            UnifiedMessageView::BinaryMessage(_) => false,
            UnifiedMessageView::FileTransferMessage(m) => m.fits(),
            UnifiedMessageView::ListMessage(m) => m.fits(),
            UnifiedMessageView::Exit => true,
        }
    }

    /// What a buffer decodes to: the leading tag selects the layout. A buffer
    /// that starts with the exit tag is an exit notice, whatever follows.
    pub open spec fn parse(b: Seq<u8>) -> Result<UnifiedMessageView, Seq<char>> {
        if b.len() == 0 {
            Err("Input data is empty."@)
        } else if !is_tag(b[0]) {
            Err("Invalid message category (1)"@)
        } else {
            match kind_of(b[0]) {
                MessageType::Chat => match TextMessageView::parse(b) {
                    Ok(m) => Ok(UnifiedMessageView::ChatMessage(m)),
                    Err(e) => Err(e),
                },
                MessageType::Exit => Ok(UnifiedMessageView::Exit),
                MessageType::FileTransfer => match FileTransferMessageView::parse(b) {
                    Ok(m) => Ok(UnifiedMessageView::FileTransferMessage(m)),
                    Err(e) => Err(e),
                },
                MessageType::List => match ListMessageView::parse(b) {
                    Ok(m) => Ok(UnifiedMessageView::ListMessage(m)),
                    Err(e) => Err(e),
                },
                MessageType::Unknown => Err("Invalid message category (2)"@),
            }
        }
    }
}

impl UnifiedMessage {
    /// Whether decoding by the leading tag gives this message back from its
    /// frame. A sender tests this before it encodes.
    pub fn fits(&self) -> (fits: bool)
        ensures
            fits == self@.fits(),
    {
        match self {
            UnifiedMessage::ChatMessage(m) => m.fits() && m.category == MessageType::Chat,
            UnifiedMessage::BinaryMessage(_) => false,
            UnifiedMessage::FileTransferMessage(m) => m.fits(),
            UnifiedMessage::ListMessage(m) => m.fits(),
            UnifiedMessage::Exit(_) => true,
        }
    }
}

impl BinarySerializable for UnifiedMessage {
    open spec fn frame(&self) -> Seq<u8> {
        self@.frame()
    }

    fn to_bytes(&self) -> (bytes: Vec<u8>) {
        match self {
            UnifiedMessage::ChatMessage(msg) => msg.to_bytes(),
            UnifiedMessage::BinaryMessage(msg) => msg.to_bytes(),
            UnifiedMessage::FileTransferMessage(msg) => msg.to_bytes(),
            UnifiedMessage::ListMessage(msg) => msg.to_bytes(),
            UnifiedMessage::Exit(msg) => msg.to_bytes(),
        }
    }
}

impl BinaryDeserializable for UnifiedMessage {
    open spec fn parsed(data: Seq<u8>) -> Result<UnifiedMessageView, Seq<char>> {
        UnifiedMessageView::parse(data)
    }

    fn from_bytes(data: &[u8]) -> (r: Result<Self, String>) {
        if data.len() == 0 {
            return Err("Input data is empty.".to_string());
        }
        let category = MessageType::from_bytes(&data[0])?;
        match category {
            MessageType::Chat => {
                let message = TextMessage::from_bytes(data)?;
                Ok(UnifiedMessage::ChatMessage(message))
            },
            MessageType::Exit => Ok(UnifiedMessage::Exit(ExitMessage {  })),
            MessageType::FileTransfer => {
                let message = FileTransferMessage::from_bytes(data)?;
                Ok(UnifiedMessage::FileTransferMessage(message))
            },
            MessageType::List => {
                let message = ListMessage::from_bytes(data)?;
                Ok(UnifiedMessage::ListMessage(message))
            },
            MessageType::Unknown => Err("Invalid message category (2)".to_string()),
        }
    }
}

/// Decoding by the leading tag gives every message that fits back from its
/// frame.
pub proof fn lemma_unified_round_trip(m: UnifiedMessageView)
    requires
        m.fits(),
    ensures
        UnifiedMessageView::parse(m.frame()) == Ok::<UnifiedMessageView, Seq<char>>(m),
{
    match m {
        UnifiedMessageView::ChatMessage(t) => {
            lemma_text_round_trip(t);
            lemma_short_frame(t.category.tag(), t.room, encode_utf8(t.sender), encode_utf8(t.content));
        },
        UnifiedMessageView::BinaryMessage(_) => {},
        UnifiedMessageView::FileTransferMessage(f) => {
            lemma_file_round_trip(f);
            lemma_long_frame(
                MessageType::FileTransfer.tag(),
                f.room,
                encode_utf8(f.sender),
                encode_utf8(f.filename),
                f.content,
            );
        },
        UnifiedMessageView::ListMessage(l) => {
            lemma_list_round_trip(l);
            lemma_pair_frame(MessageType::List.tag(), l.room, encode_utf8(l.sender), encode_utf8(l.target));
        },
        UnifiedMessageView::Exit => {},
    }
}

/// But for an exit notice, which is its tag alone, the last byte of the
/// frame of a message is the wraparound sum of all the bytes before it.
pub proof fn lemma_unified_checksum(m: UnifiedMessageView)
    requires
        !(m is Exit),
    ensures
        m.frame().len() > 0,
        m.frame().last() == wrapping_sum(m.frame().drop_last()),
{
    match m {
        UnifiedMessageView::ChatMessage(t) => {
            lemma_text_checksum(t);
        },
        UnifiedMessageView::BinaryMessage(b) => {
            lemma_binary_checksum(b);
        },
        UnifiedMessageView::FileTransferMessage(f) => {
            lemma_file_checksum(f);
        },
        UnifiedMessageView::ListMessage(l) => {
            lemma_list_checksum(l);
        },
        UnifiedMessageView::Exit => {},
    }
}

/// No strict prefix of the frame of a message that fits decodes, the empty
/// prefix of an exit notice included.
pub proof fn lemma_unified_truncated(m: UnifiedMessageView, keep: int)
    requires
        m.fits(),
        0 <= keep < m.frame().len(),
    ensures
        UnifiedMessageView::parse(m.frame().subrange(0, keep)) is Err,
{
    match m {
        UnifiedMessageView::ChatMessage(t) => {
            lemma_text_truncated(t, keep);
            lemma_short_frame(t.category.tag(), t.room, encode_utf8(t.sender), encode_utf8(t.content));
        },
        UnifiedMessageView::BinaryMessage(_) => {},
        UnifiedMessageView::FileTransferMessage(f) => {
            lemma_file_truncated(f, keep);
            lemma_long_frame(
                MessageType::FileTransfer.tag(),
                f.room,
                encode_utf8(f.sender),
                encode_utf8(f.filename),
                f.content,
            );
        },
        UnifiedMessageView::ListMessage(l) => {
            lemma_list_truncated(l, keep);
            lemma_pair_frame(MessageType::List.tag(), l.room, encode_utf8(l.sender), encode_utf8(l.target));
        },
        UnifiedMessageView::Exit => {},
    }
}

} // verus!
