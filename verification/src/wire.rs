//! Byte-level building blocks of the wire format: the checksum trailer,
//! big-endian integers, and length-prefixed fields.

use vstd::prelude::*;
use vstd::slice::*;
use vstd::string::*;
use vstd::utf8::*;

verus! {

/// The 8-bit wraparound sum of `bytes`.
pub open spec fn wrapping_sum(bytes: Seq<u8>) -> u8
    decreases bytes.len(),
{
    if bytes.len() == 0 {
        0u8
    } else {
        ((wrapping_sum(bytes.drop_last()) + bytes.last()) % 256) as u8
    }
}

/// A frame body followed by its checksum trailer.
pub open spec fn sealed(body: Seq<u8>) -> Seq<u8> {
    body.push(wrapping_sum(body))
}

/// The two's-complement word of a signed 32-bit number.
pub open spec fn word_of(room: i32) -> int {
    if room >= 0 {
        room as int
    } else {
        room + 0x1_0000_0000
    }
}

/// The signed 32-bit number that a two's-complement word stands for.
pub open spec fn signed_of(word: int) -> i32 {
    if word < 0x8000_0000 {
        word as i32
    } else {
        (word - 0x1_0000_0000) as i32
    }
}

/// The low two bytes of `value`, most significant first.
#[verifier::opaque]
pub open spec fn be16(value: int) -> Seq<u8> {
    seq![((value / 0x100) % 0x100) as u8, (value % 0x100) as u8]
}

/// The low four bytes of `value`, most significant first.
#[verifier::opaque]
pub open spec fn be32(value: int) -> Seq<u8> {
    seq![
        ((value / 0x100 / 0x100 / 0x100) % 0x100) as u8,
        ((value / 0x100 / 0x100) % 0x100) as u8,
        ((value / 0x100) % 0x100) as u8,
        (value % 0x100) as u8,
    ]
}

/// The number that the two bytes at `at` spell, most significant first.
pub open spec fn be16_at(b: Seq<u8>, at: int) -> int {
    b[at] * 0x100 + b[at + 1]
}

/// The number that the four bytes at `at` spell, most significant first.
pub open spec fn be32_at(b: Seq<u8>, at: int) -> int {
    b[at] * 0x100_0000 + b[at + 1] * 0x1_0000 + b[at + 2] * 0x100 + b[at + 3]
}

/// Raw bytes behind a one-byte length prefix, which holds the low eight
/// bits of their count.
#[verifier::opaque]
pub open spec fn prefixed8(raw: Seq<u8>) -> Seq<u8> {
    seq![(raw.len() % 0x100) as u8] + raw
}

/// Raw bytes behind a two-byte length prefix, which holds the low sixteen
/// bits of their count.
#[verifier::opaque]
pub open spec fn prefixed16(raw: Seq<u8>) -> Seq<u8> {
    be16(raw.len() as int) + raw
}

/// Raw bytes behind a four-byte length prefix, which holds the low
/// thirty-two bits of their count.
#[verifier::opaque]
pub open spec fn prefixed32(raw: Seq<u8>) -> Seq<u8> {
    be32(raw.len() as int) + raw
}

/// A text field on the wire: its UTF-8 bytes behind a one-byte length
/// prefix.
pub open spec fn name_field(text: Seq<char>) -> Seq<u8> {
    prefixed8(encode_utf8(text))
}

/// Where a field with a one-byte prefix lies in a buffer built around it.
pub proof fn lemma_prefixed8_at(pre: Seq<u8>, raw: Seq<u8>, post: Seq<u8>)
    requires
        raw.len() <= 0xff,
    ensures
        prefixed8(raw).len() == 1 + raw.len(),
        ({
            let b = pre + prefixed8(raw) + post;
            let at = pre.len() as int;
            &&& b[at] == raw.len()
            &&& b.subrange(at + 1, at + 1 + raw.len()) == raw
        }),
{
    reveal(prefixed8);
    let b = pre + prefixed8(raw) + post;
    let at = pre.len() as int;
    assert(b[at] == prefixed8(raw)[0]);
    assert(b.subrange(at + 1, at + 1 + raw.len()) =~= raw);
}

/// Where a field with a two-byte prefix lies in a buffer built around it.
pub proof fn lemma_prefixed16_at(pre: Seq<u8>, raw: Seq<u8>, post: Seq<u8>)
    requires
        raw.len() <= 0xffff,
    ensures
        prefixed16(raw).len() == 2 + raw.len(),
        ({
            let b = pre + prefixed16(raw) + post;
            let at = pre.len() as int;
            &&& be16_at(b, at) == raw.len()
            &&& b.subrange(at + 2, at + 2 + raw.len()) == raw
        }),
{
    reveal(prefixed16);
    reveal(be16);
    let b = pre + prefixed16(raw) + post;
    let at = pre.len() as int;
    let n = raw.len() as int;
    assert(b[at] == be16(n)[0]);
    assert(b[at + 1] == be16(n)[1]);
    assert(b.subrange(at + 2, at + 2 + raw.len()) =~= raw);
}

/// Where a field with a four-byte prefix lies in a buffer built around it.
pub proof fn lemma_prefixed32_at(pre: Seq<u8>, raw: Seq<u8>, post: Seq<u8>)
    requires
        raw.len() <= 0xffff_ffff,
    ensures
        prefixed32(raw).len() == 4 + raw.len(),
        ({
            let b = pre + prefixed32(raw) + post;
            let at = pre.len() as int;
            &&& be32_at(b, at) == raw.len()
            &&& b.subrange(at + 4, at + 4 + raw.len()) == raw
        }),
{
    reveal(prefixed32);
    reveal(be32);
    let b = pre + prefixed32(raw) + post;
    let at = pre.len() as int;
    let n = raw.len() as int;
    assert(b[at] == be32(n)[0]);
    assert(b[at + 1] == be32(n)[1]);
    assert(b[at + 2] == be32(n)[2]);
    assert(b[at + 3] == be32(n)[3]);
    assert(b.subrange(at + 4, at + 4 + raw.len()) =~= raw);
}

/// A buffer that starts with a header holds the tag first and then the
/// room's two's-complement word, which stands for the room number.
pub proof fn lemma_header_at(tag: u8, room: i32, post: Seq<u8>)
    ensures
        header(tag, room).len() == 5,
        (header(tag, room) + post)[0] == tag,
        be32_at(header(tag, room) + post, 1) == word_of(room),
        signed_of(word_of(room)) == room,
{
    reveal(header);
    reveal(be32);
    let b = header(tag, room) + post;
    let w = word_of(room);
    assert(b[0] == tag);
    assert(b[1] == be32(w)[0]);
    assert(b[2] == be32(w)[1]);
    assert(b[3] == be32(w)[2]);
    assert(b[4] == be32(w)[3]);
}

/// The start of every framed message: the tag byte and the room number.
#[verifier::opaque]
pub open spec fn header(tag: u8, room: i32) -> Seq<u8> {
    seq![tag] + be32(word_of(room))
}

/// A frame with a sender and a payload behind a two-byte length.
#[verifier::opaque]
pub open spec fn short_frame(tag: u8, room: i32, sender: Seq<u8>, content: Seq<u8>) -> Seq<u8> {
    sealed(header(tag, room) + prefixed8(sender) + prefixed16(content))
}

/// A frame with a sender, a second name, and a payload behind a four-byte
/// length.
#[verifier::opaque]
pub open spec fn long_frame(
    tag: u8,
    room: i32,
    sender: Seq<u8>,
    name: Seq<u8>,
    content: Seq<u8>,
) -> Seq<u8> {
    sealed(header(tag, room) + prefixed8(sender) + prefixed8(name) + prefixed32(content))
}

/// A frame with a sender and a second name.
#[verifier::opaque]
pub open spec fn pair_frame(tag: u8, room: i32, sender: Seq<u8>, name: Seq<u8>) -> Seq<u8> {
    sealed(header(tag, room) + prefixed8(sender) + prefixed8(name))
}

/// The last byte of a sealed frame is the wraparound sum of the others.
pub proof fn lemma_sealed(body: Seq<u8>)
    ensures
        sealed(body).len() == body.len() + 1,
        sealed(body).drop_last() == body,
        sealed(body).last() == wrapping_sum(sealed(body).drop_last()),
{
    assert(sealed(body).drop_last() =~= body);
}

/// How a frame with a two-byte payload length is laid out.
pub proof fn lemma_short_frame(tag: u8, room: i32, sender: Seq<u8>, content: Seq<u8>)
    requires
        sender.len() <= 0xff,
        content.len() <= 0xffff,
    ensures
        ({
            let b = short_frame(tag, room, sender, content);
            let n = sender.len() as int;
            let l = content.len() as int;
            &&& b.len() == 9 + n + l
            &&& b[0] == tag
            &&& be32_at(b, 1) == word_of(room)
            &&& b[5] == n
            &&& b.subrange(6, 6 + n) == sender
            &&& be16_at(b, 6 + n) == l
            &&& b.subrange(8 + n, 8 + n + l) == content
        }),
{
    reveal(short_frame);
    let b = short_frame(tag, room, sender, content);
    let head = header(tag, room);
    let first = prefixed8(sender);
    let last = prefixed16(content);
    let sum = seq![wrapping_sum(head + first + last)];
    lemma_header_at(tag, room, first + last + sum);
    lemma_prefixed8_at(head, sender, last + sum);
    lemma_prefixed16_at(head + first, content, sum);
    assert(b =~= head + (first + last + sum));
    assert(b =~= head + first + (last + sum));
    assert(b =~= (head + first) + last + sum);
}

/// How a frame with two names and a four-byte payload length is laid out.
pub proof fn lemma_long_frame(
    tag: u8,
    room: i32,
    sender: Seq<u8>,
    name: Seq<u8>,
    content: Seq<u8>,
)
    requires
        sender.len() <= 0xff,
        name.len() <= 0xff,
        content.len() <= 0xffff_ffff,
    ensures
        ({
            let b = long_frame(tag, room, sender, name, content);
            let n = sender.len() as int;
            let f = name.len() as int;
            let l = content.len() as int;
            &&& b.len() == 12 + n + f + l
            &&& b[0] == tag
            &&& be32_at(b, 1) == word_of(room)
            &&& b[5] == n
            &&& b.subrange(6, 6 + n) == sender
            &&& b[6 + n] == f
            &&& b.subrange(7 + n, 7 + n + f) == name
            &&& be32_at(b, 7 + n + f) == l
            &&& b.subrange(11 + n + f, 11 + n + f + l) == content
        }),
{
    reveal(long_frame);
    let b = long_frame(tag, room, sender, name, content);
    let head = header(tag, room);
    let first = prefixed8(sender);
    let second = prefixed8(name);
    let last = prefixed32(content);
    let sum = seq![wrapping_sum(head + first + second + last)];
    lemma_header_at(tag, room, first + second + last + sum);
    lemma_prefixed8_at(head, sender, second + last + sum);
    lemma_prefixed8_at(head + first, name, last + sum);
    lemma_prefixed32_at(head + first + second, content, sum);
    assert(b =~= head + (first + second + last + sum));
    assert(b =~= head + first + (second + last + sum));
    assert(b =~= (head + first) + second + (last + sum));
    assert(b =~= (head + first + second) + last + sum);
}

/// How a frame with two names is laid out.
pub proof fn lemma_pair_frame(tag: u8, room: i32, sender: Seq<u8>, name: Seq<u8>)
    requires
        sender.len() <= 0xff,
        name.len() <= 0xff,
    ensures
        ({
            let b = pair_frame(tag, room, sender, name);
            let n = sender.len() as int;
            let t = name.len() as int;
            &&& b.len() == 8 + n + t
            &&& b[0] == tag
            &&& be32_at(b, 1) == word_of(room)
            &&& b[5] == n
            &&& b.subrange(6, 6 + n) == sender
            &&& b[6 + n] == t
            &&& b.subrange(7 + n, 7 + n + t) == name
        }),
{
    reveal(pair_frame);
    let b = pair_frame(tag, room, sender, name);
    let head = header(tag, room);
    let first = prefixed8(sender);
    let second = prefixed8(name);
    let sum = seq![wrapping_sum(head + first + second)];
    lemma_header_at(tag, room, first + second + sum);
    lemma_prefixed8_at(head, sender, second + sum);
    lemma_prefixed8_at(head + first, name, sum);
    assert(b =~= head + (first + second + sum));
    assert(b =~= head + first + (second + sum));
    assert(b =~= (head + first) + second + sum);
}

/// What reading a length-prefixed field at some offset of a buffer gives.
pub enum Field<T> {
    /// The field's value, and the offset just behind it.
    Got(T, int),
    /// The buffer ends before the length prefix does.
    NoLength,
    /// The buffer ends before the declared length is reached.
    NoData,
    /// The bytes are not UTF-8.
    NotText,
}

/// Reads at `at` a field with a one-byte length prefix that holds text.
#[verifier::opaque]
pub open spec fn name_at(b: Seq<u8>, at: int) -> Field<Seq<char>> {
    if b.len() < at + 1 {
        Field::NoLength
    } else if b.len() < at + 1 + b[at] {
        Field::NoData
    } else if !valid_utf8(b.subrange(at + 1, at + 1 + b[at])) {
        Field::NotText
    } else {
        Field::Got(decode_utf8(b.subrange(at + 1, at + 1 + b[at])), at + 1 + b[at])
    }
}

/// A buffer that holds the UTF-8 bytes of `text` behind their count at `at`
/// reads as `text` there.
pub proof fn lemma_name_at(b: Seq<u8>, at: int, text: Seq<char>)
    requires
        0 <= at,
        at + 1 + encode_utf8(text).len() <= b.len(),
        b[at] == encode_utf8(text).len(),
        b.subrange(at + 1, at + 1 + encode_utf8(text).len()) == encode_utf8(text),
    ensures
        name_at(b, at) == Field::Got(text, at + 1 + encode_utf8(text).len()),
{
    reveal(name_at);
    encode_utf8_valid_utf8(text);
    encode_utf8_decode_utf8(text);
}

/// Reads at `at` a field of raw bytes with a two-byte length prefix.
#[verifier::opaque]
pub open spec fn short_blob_at(b: Seq<u8>, at: int) -> Field<Seq<u8>> {
    if b.len() < at + 2 {
        Field::NoLength
    } else if b.len() < at + 2 + be16_at(b, at) {
        Field::NoData
    } else {
        Field::Got(b.subrange(at + 2, at + 2 + be16_at(b, at)), at + 2 + be16_at(b, at))
    }
}

/// Reads at `at` a field of raw bytes with a four-byte length prefix.
#[verifier::opaque]
pub open spec fn long_blob_at(b: Seq<u8>, at: int) -> Field<Seq<u8>> {
    if b.len() < at + 4 {
        Field::NoLength
    } else if b.len() < at + 4 + be32_at(b, at) {
        Field::NoData
    } else {
        Field::Got(b.subrange(at + 4, at + 4 + be32_at(b, at)), at + 4 + be32_at(b, at))
    }
}

/// Reads at `at` a field of text with a two-byte length prefix.
#[verifier::opaque]
pub open spec fn content_at(b: Seq<u8>, at: int) -> Field<Seq<char>> {
    match short_blob_at(b, at) {
        Field::Got(raw, next) => if valid_utf8(raw) {
            Field::Got(decode_utf8(raw), next)
        } else {
            Field::NotText
        },
        Field::NoLength => Field::NoLength,
        Field::NoData => Field::NoData,
        Field::NotText => Field::NotText,
    }
}

/// A buffer that holds the UTF-8 bytes of `text` behind their two-byte
/// count at `at` reads as `text` there.
pub proof fn lemma_content_at(b: Seq<u8>, at: int, text: Seq<char>)
    requires
        0 <= at,
        at + 2 + encode_utf8(text).len() <= b.len(),
        be16_at(b, at) == encode_utf8(text).len(),
        b.subrange(at + 2, at + 2 + encode_utf8(text).len()) == encode_utf8(text),
    ensures
        content_at(b, at) == Field::Got(text, at + 2 + encode_utf8(text).len()),
{
    reveal(content_at);
    reveal(short_blob_at);
    encode_utf8_valid_utf8(text);
    encode_utf8_decode_utf8(text);
}

/// A buffer that holds `raw` behind its two-byte count at `at` reads as
/// `raw` there.
pub proof fn lemma_short_blob_at(b: Seq<u8>, at: int, raw: Seq<u8>)
    requires
        0 <= at,
        at + 2 + raw.len() <= b.len(),
        be16_at(b, at) == raw.len(),
        b.subrange(at + 2, at + 2 + raw.len()) == raw,
    ensures
        short_blob_at(b, at) == Field::Got(raw, at + 2 + raw.len()),
{
    reveal(short_blob_at);
}

/// A buffer that holds `raw` behind its four-byte count at `at` reads as
/// `raw` there.
pub proof fn lemma_long_blob_at(b: Seq<u8>, at: int, raw: Seq<u8>)
    requires
        0 <= at,
        at + 4 + raw.len() <= b.len(),
        be32_at(b, at) == raw.len(),
        b.subrange(at + 4, at + 4 + raw.len()) == raw,
    ensures
        long_blob_at(b, at) == Field::Got(raw, at + 4 + raw.len()),
{
    reveal(long_blob_at);
}

/// A field that was read lies inside the buffer, ends where its length
/// prefix says, and holds the bytes between: as they are, or as the text
/// that they encode.
pub proof fn lemma_field_bounds(b: Seq<u8>, at: int)
    ensures
        name_at(b, at) matches Field::Got(text, next) ==> at + 1 <= b.len() && next == at + 1
            + b[at] && next <= b.len() && encode_utf8(text) == b.subrange(at + 1, next),
        content_at(b, at) matches Field::Got(text, next) ==> at + 2 <= b.len() && next == at + 2
            + be16_at(b, at) && next <= b.len() && encode_utf8(text) == b.subrange(at + 2, next),
        short_blob_at(b, at) matches Field::Got(raw, next) ==> at + 2 <= b.len() && next == at + 2
            + be16_at(b, at) && next <= b.len() && raw == b.subrange(at + 2, next),
        long_blob_at(b, at) matches Field::Got(raw, next) ==> at + 4 <= b.len() && next == at + 4
            + be32_at(b, at) && next <= b.len() && raw == b.subrange(at + 4, next),
{
    reveal(name_at);
    reveal(content_at);
    reveal(short_blob_at);
    reveal(long_blob_at);
    if name_at(b, at) is Got {
        decode_utf8_encode_utf8(b.subrange(at + 1, at + 1 + b[at]));
    }
    if content_at(b, at) is Got {
        decode_utf8_encode_utf8(b.subrange(at + 2, at + 2 + be16_at(b, at)));
    }
}

/// Two buffers that spell the same number in two bytes hold the same two
/// bytes there; likewise in four bytes.
pub proof fn lemma_same_number_same_bytes(b: Seq<u8>, f: Seq<u8>, at: int)
    ensures
        be16_at(b, at) == be16_at(f, at) ==> b[at] == f[at] && b[at + 1] == f[at + 1],
        be32_at(b, at) == be32_at(f, at) ==> b[at] == f[at] && b[at + 1] == f[at + 1] && b[at + 2]
            == f[at + 2] && b[at + 3] == f[at + 3],
{
}

/// A buffer that is laid out like the frame of some fields starts with the
/// frame of these fields, but for the checksum byte.
pub proof fn lemma_short_frame_found(
    b: Seq<u8>,
    tag: u8,
    room: i32,
    sender: Seq<u8>,
    content: Seq<u8>,
)
    requires
        ({
            let n = sender.len() as int;
            let l = content.len() as int;
            &&& n <= 0xff
            &&& l <= 0xffff
            &&& 8 + n + l <= b.len()
            &&& b[0] == tag
            &&& be32_at(b, 1) == word_of(room)
            &&& b[5] == n
            &&& b.subrange(6, 6 + n) == sender
            &&& be16_at(b, 6 + n) == l
            &&& b.subrange(8 + n, 8 + n + l) == content
        }),
    ensures
        b.subrange(0, 8 + sender.len() as int + content.len() as int) == short_frame(
            tag,
            room,
            sender,
            content,
        ).drop_last(),
{
    let n = sender.len() as int;
    let l = content.len() as int;
    let f = short_frame(tag, room, sender, content);
    lemma_short_frame(tag, room, sender, content);
    lemma_same_number_same_bytes(b, f, 1);
    lemma_same_number_same_bytes(b, f, 6 + n);
    assert forall|i: int| 0 <= i < 8 + n + l implies b[i] == f[i] by {
        if 6 <= i < 6 + n {
            assert(f[i] == f.subrange(6, 6 + n)[i - 6]);
            assert(b[i] == b.subrange(6, 6 + n)[i - 6]);
        } else if 8 + n <= i {
            assert(f[i] == f.subrange(8 + n, 8 + n + l)[i - 8 - n]);
            assert(b[i] == b.subrange(8 + n, 8 + n + l)[i - 8 - n]);
        }
    }
    assert(b.subrange(0, 8 + n + l) =~= f.drop_last());
}

/// A buffer that is laid out like the frame of some fields starts with the
/// frame of these fields, but for the checksum byte.
pub proof fn lemma_long_frame_found(
    b: Seq<u8>,
    tag: u8,
    room: i32,
    sender: Seq<u8>,
    name: Seq<u8>,
    content: Seq<u8>,
)
    requires
        ({
            let n = sender.len() as int;
            let k = name.len() as int;
            let l = content.len() as int;
            &&& n <= 0xff
            &&& k <= 0xff
            &&& l <= 0xffff_ffff
            &&& 11 + n + k + l <= b.len()
            &&& b[0] == tag
            &&& be32_at(b, 1) == word_of(room)
            &&& b[5] == n
            &&& b.subrange(6, 6 + n) == sender
            &&& b[6 + n] == k
            &&& b.subrange(7 + n, 7 + n + k) == name
            &&& be32_at(b, 7 + n + k) == l
            &&& b.subrange(11 + n + k, 11 + n + k + l) == content
        }),
    ensures
        b.subrange(0, 11 + sender.len() as int + name.len() as int + content.len() as int)
            == long_frame(tag, room, sender, name, content).drop_last(),
{
    let n = sender.len() as int;
    let k = name.len() as int;
    let l = content.len() as int;
    let f = long_frame(tag, room, sender, name, content);
    lemma_long_frame(tag, room, sender, name, content);
    lemma_same_number_same_bytes(b, f, 1);
    lemma_same_number_same_bytes(b, f, 7 + n + k);
    assert forall|i: int| 0 <= i < 11 + n + k + l implies b[i] == f[i] by {
        if 6 <= i < 6 + n {
            assert(f[i] == f.subrange(6, 6 + n)[i - 6]);
            assert(b[i] == b.subrange(6, 6 + n)[i - 6]);
        } else if 7 + n <= i < 7 + n + k {
            assert(f[i] == f.subrange(7 + n, 7 + n + k)[i - 7 - n]);
            assert(b[i] == b.subrange(7 + n, 7 + n + k)[i - 7 - n]);
        } else if 11 + n + k <= i {
            assert(f[i] == f.subrange(11 + n + k, 11 + n + k + l)[i - 11 - n - k]);
            assert(b[i] == b.subrange(11 + n + k, 11 + n + k + l)[i - 11 - n - k]);
        }
    }
    assert(b.subrange(0, 11 + n + k + l) =~= f.drop_last());
}

/// A buffer that is laid out like the frame of some fields starts with the
/// frame of these fields, but for the checksum byte.
pub proof fn lemma_pair_frame_found(
    b: Seq<u8>,
    tag: u8,
    room: i32,
    sender: Seq<u8>,
    name: Seq<u8>,
)
    requires
        ({
            let n = sender.len() as int;
            let k = name.len() as int;
            &&& n <= 0xff
            &&& k <= 0xff
            &&& 7 + n + k <= b.len()
            &&& b[0] == tag
            &&& be32_at(b, 1) == word_of(room)
            &&& b[5] == n
            &&& b.subrange(6, 6 + n) == sender
            &&& b[6 + n] == k
            &&& b.subrange(7 + n, 7 + n + k) == name
        }),
    ensures
        b.subrange(0, 7 + sender.len() as int + name.len() as int) == pair_frame(
            tag,
            room,
            sender,
            name,
        ).drop_last(),
{
    let n = sender.len() as int;
    let k = name.len() as int;
    let f = pair_frame(tag, room, sender, name);
    lemma_pair_frame(tag, room, sender, name);
    lemma_same_number_same_bytes(b, f, 1);
    assert forall|i: int| 0 <= i < 7 + n + k implies b[i] == f[i] by {
        if 6 <= i < 6 + n {
            assert(f[i] == f.subrange(6, 6 + n)[i - 6]);
            assert(b[i] == b.subrange(6, 6 + n)[i - 6]);
        } else if 7 + n <= i {
            assert(f[i] == f.subrange(7 + n, 7 + n + k)[i - 7 - n]);
            assert(b[i] == b.subrange(7 + n, 7 + n + k)[i - 7 - n]);
        }
    }
    assert(b.subrange(0, 7 + n + k) =~= f.drop_last());
}

/// The word of the number that a word of four bytes stands for is that
/// word again.
pub proof fn lemma_word_round_trip(b: Seq<u8>, at: int)
    ensures
        word_of(signed_of(be32_at(b, at))) == be32_at(b, at),
{
}

/// What an executable reader hands back: the value and the offset behind it,
/// or the reason why there is none.
pub enum Taken<T> {
    Got(T, usize),
    NoLength,
    NoData,
    NotText,
}

impl Taken<String> {
    /// The reader's result says what `field` says.
    pub open spec fn is_text(self, field: Field<Seq<char>>) -> bool {
        match field {
            Field::Got(text, next) => self matches Taken::Got(s, n) && s@ == text && n == next,
            Field::NoLength => self is NoLength,
            Field::NoData => self is NoData,
            Field::NotText => self is NotText,
        }
    }
}

impl Taken<Vec<u8>> {
    /// The reader's result says what `field` says.
    pub open spec fn is_blob(self, field: Field<Seq<u8>>) -> bool {
        match field {
            Field::Got(raw, next) => self matches Taken::Got(v, n) && v@ == raw && n == next,
            Field::NoLength => self is NoLength,
            Field::NoData => self is NoData,
            Field::NotText => self is NotText,
        }
    }
}

/// `String::from_utf8` of std: it accepts exactly the byte sequences that
/// are well-formed UTF-8, and the text it gives back is their decoding.
#[verifier::external_body]
fn text_from_utf8(bytes: Vec<u8>) -> (text: Option<String>)
    ensures
        text is Some <==> valid_utf8(bytes@),
        text matches Some(s) ==> s@ == decode_utf8(bytes@),
{
    match String::from_utf8(bytes) {
        Ok(s) => Some(s),
        Err(_) => None,
    }
}

/// Copies `count` bytes of `data`, starting at `at`.
fn copy_range(data: &[u8], at: usize, count: usize) -> (out: Vec<u8>)
    requires
        at + count <= data@.len(),
    ensures
        out@ == data@.subrange(at as int, at + count),
{
    proof {
        axiom_spec_len(data);
    }
    slice_to_vec(slice_subrange(data, at, at + count))
}

/// Reads the text field with a one-byte length prefix that starts at `at`.
pub fn read_name(data: &[u8], at: usize) -> (r: Taken<String>)
    requires
        at <= data@.len(),
    ensures
        r.is_text(name_at(data@, at as int)),
        r matches Taken::Got(_, next) ==> next <= data@.len(),
{
    proof {
        reveal(name_at);
    }
    if data.len() - at < 1 {
        return Taken::NoLength;
    }
    let count: usize = data[at] as usize;
    if data.len() - at - 1 < count {
        return Taken::NoData;
    }
    match text_from_utf8(copy_range(data, at + 1, count)) {
        Some(text) => Taken::Got(text, at + 1 + count),
        None => Taken::NotText,
    }
}

/// Reads the raw field with a two-byte length prefix that starts at `at`.
pub fn read_short_blob(data: &[u8], at: usize) -> (r: Taken<Vec<u8>>)
    requires
        at <= data@.len(),
    ensures
        r.is_blob(short_blob_at(data@, at as int)),
        r matches Taken::Got(_, next) ==> next <= data@.len(),
{
    proof {
        reveal(short_blob_at);
    }
    if data.len() - at < 2 {
        return Taken::NoLength;
    }
    let count: usize = (data[at] as usize) * 0x100 + (data[at + 1] as usize);
    if data.len() - at - 2 < count {
        return Taken::NoData;
    }
    Taken::Got(copy_range(data, at + 2, count), at + 2 + count)
}

/// Reads the raw field with a four-byte length prefix that starts at `at`.
pub fn read_long_blob(data: &[u8], at: usize) -> (r: Taken<Vec<u8>>)
    requires
        at <= data@.len(),
    ensures
        r.is_blob(long_blob_at(data@, at as int)),
        r matches Taken::Got(_, next) ==> next <= data@.len(),
{
    proof {
        reveal(long_blob_at);
    }
    if data.len() - at < 4 {
        return Taken::NoLength;
    }
    let count: u64 = (data[at] as u64) * 0x100_0000 + (data[at + 1] as u64) * 0x1_0000 + (
    data[at + 2] as u64) * 0x100 + (data[at + 3] as u64);
    if ((data.len() - at - 4) as u64) < count {
        return Taken::NoData;
    }
    Taken::Got(copy_range(data, at + 4, count as usize), at + 4 + count as usize)
}

/// Reads the text field with a two-byte length prefix that starts at `at`.
pub fn read_content(data: &[u8], at: usize) -> (r: Taken<String>)
    requires
        at <= data@.len(),
    ensures
        r.is_text(content_at(data@, at as int)),
        r matches Taken::Got(_, next) ==> next <= data@.len(),
{
    proof {
        reveal(content_at);
    }
    match read_short_blob(data, at) {
        Taken::Got(raw, next) => match text_from_utf8(raw) {
            Some(text) => Taken::Got(text, next),
            None => Taken::NotText,
        },
        Taken::NoLength => Taken::NoLength,
        Taken::NoData => Taken::NoData,
        Taken::NotText => Taken::NotText,
    }
}

/// Reads the signed 32-bit number that starts at `at`.
pub fn read_room(data: &[u8], at: usize) -> (room: i32)
    requires
        at + 4 <= data@.len(),
    ensures
        room == signed_of(be32_at(data@, at as int)),
{
    let word: u32 = (data[at] as u32) * 0x100_0000 + (data[at + 1] as u32) * 0x1_0000 + (
    data[at + 2] as u32) * 0x100 + (data[at + 3] as u32);
    if word < 0x8000_0000 {
        word as i32
    } else {
        (word as i64 - 0x1_0000_0000) as i32
    }
}

/// Appends the tag byte and the room number, the latter as four bytes,
/// most significant first.
pub fn put_header(buffer: &mut Vec<u8>, tag: u8, room: i32)
    ensures
        final(buffer)@ == old(buffer)@ + header(tag, room),
{
    let word: u32 = if room >= 0 {
        room as u32
    } else {
        (room as i64 + 0x1_0000_0000) as u32
    };
    buffer.push(tag);
    put_be32(buffer, word as usize);
    proof {
        reveal(header);
        assert(buffer@ =~= old(buffer)@ + header(tag, room));
    }
}

/// Appends the low two bytes of `value`, most significant first.
pub fn put_be16(buffer: &mut Vec<u8>, value: usize)
    ensures
        final(buffer)@ == old(buffer)@ + be16(value as int),
{
    buffer.push(((value / 0x100) % 0x100) as u8);
    buffer.push((value % 0x100) as u8);
    proof {
        reveal(be16);
        assert(buffer@ =~= old(buffer)@ + be16(value as int));
    }
}

/// Appends the low four bytes of `value`, most significant first.
pub fn put_be32(buffer: &mut Vec<u8>, value: usize)
    ensures
        final(buffer)@ == old(buffer)@ + be32(value as int),
{
    buffer.push(((value / 0x100 / 0x100 / 0x100) % 0x100) as u8);
    buffer.push(((value / 0x100 / 0x100) % 0x100) as u8);
    buffer.push(((value / 0x100) % 0x100) as u8);
    buffer.push((value % 0x100) as u8);
    proof {
        reveal(be32);
        assert(buffer@ =~= old(buffer)@ + be32(value as int));
    }
}

/// Appends raw bytes.
pub fn put_bytes(buffer: &mut Vec<u8>, bytes: &[u8])
    ensures
        final(buffer)@ == old(buffer)@ + bytes@,
{
    buffer.extend_from_slice(bytes);
    proof {
        assert(buffer@ =~= old(buffer)@ + bytes@);
    }
}

/// Appends raw bytes behind a one-byte length prefix.
pub fn put_prefixed8(buffer: &mut Vec<u8>, raw: &[u8])
    ensures
        final(buffer)@ == old(buffer)@ + prefixed8(raw@),
{
    buffer.push((raw.len() % 0x100) as u8);
    put_bytes(buffer, raw);
    proof {
        reveal(prefixed8);
        assert(buffer@ =~= old(buffer)@ + prefixed8(raw@));
    }
}

/// Appends raw bytes behind a two-byte length prefix.
pub fn put_prefixed16(buffer: &mut Vec<u8>, raw: &[u8])
    ensures
        final(buffer)@ == old(buffer)@ + prefixed16(raw@),
{
    put_be16(buffer, raw.len());
    put_bytes(buffer, raw);
    proof {
        reveal(prefixed16);
        assert(buffer@ =~= old(buffer)@ + prefixed16(raw@));
    }
}

/// Appends raw bytes behind a four-byte length prefix.
pub fn put_prefixed32(buffer: &mut Vec<u8>, raw: &[u8])
    ensures
        final(buffer)@ == old(buffer)@ + prefixed32(raw@),
{
    put_be32(buffer, raw.len());
    put_bytes(buffer, raw);
    proof {
        reveal(prefixed32);
        assert(buffer@ =~= old(buffer)@ + prefixed32(raw@));
    }
}

/// Appends a text field: the low eight bits of its byte count, then its
/// UTF-8 bytes.
pub fn put_name(buffer: &mut Vec<u8>, text: &str)
    ensures
        final(buffer)@ == old(buffer)@ + name_field(text@),
{
    put_prefixed8(buffer, text.as_bytes());
}

/// Computes the checksum of a buffer.
pub fn checksum(bytes: &Vec<u8>) -> (sum: u8)
    ensures
        sum == wrapping_sum(bytes@),
{
    let mut sum: u8 = 0;
    let mut i: usize = 0;
    while i < bytes.len()
        invariant
            i <= bytes.len(),
            sum == wrapping_sum(bytes@.subrange(0, i as int)),
        decreases bytes.len() - i,
    {
        proof {
            assert(bytes@.subrange(0, i + 1).drop_last() =~= bytes@.subrange(0, i as int));
        }
        sum = sum.wrapping_add(bytes[i]);
        i += 1;
    }
    proof {
        assert(bytes@.subrange(0, i as int) =~= bytes@);
    }
    sum
}

/// Whether the last byte of a frame is the wraparound sum of the bytes
/// before it. Decoding does not ask for this; a receiver that wants to
/// reject damaged frames tests it first.
pub fn has_valid_checksum(frame: &[u8]) -> (valid: bool)
    ensures
        valid == (frame@.len() > 0 && frame@.last() == wrapping_sum(frame@.drop_last())),
{
    let n = frame.len();
    if n == 0 {
        return false;
    }
    let mut sum: u8 = 0;
    let mut i: usize = 0;
    while i < n - 1
        invariant
            n == frame@.len(),
            n > 0,
            i <= n - 1,
            sum == wrapping_sum(frame@.subrange(0, i as int)),
        decreases n - i,
    {
        proof {
            assert(frame@.subrange(0, i + 1).drop_last() =~= frame@.subrange(0, i as int));
        }
        sum = sum.wrapping_add(frame[i]);
        i += 1;
    }
    proof {
        assert(frame@.subrange(0, i as int) =~= frame@.drop_last());
    }
    frame[n - 1] == sum
}

/// Appends the checksum of what `buffer` holds.
pub fn seal(buffer: &mut Vec<u8>)
    ensures
        final(buffer)@ == sealed(old(buffer)@),
{
    let sum = checksum(buffer);
    buffer.push(sum);
}

} // verus!
