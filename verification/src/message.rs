//! The messages of the chat and their wire form.
//!
//! A payload is the variant's tag as a little-endian `u32` (0 text, 1 file,
//! 2 image) followed by the variant's fields in order. A string is its UTF-8
//! bytes and a byte string its bytes, each behind its length as a
//! little-endian `u64`. A frame is a payload behind its length as a
//! big-endian `u32`; the length counts the payload only.

use crate::frame::{
    frame_at_front, frame_of, lemma_frame_round_trip, take_front, FrameReader,
};
use crate::wire::{
    get_u32_le, get_u64_le, lemma_u32_le_of_bytes, lemma_u32_le_round_trip,
    lemma_u64_le_of_bytes, lemma_u64_le_round_trip, put_u32_be, put_u32_le, put_u64_le,
    u32_from_le, u32_le, u64_from_le, u64_le,
};
use std::collections::VecDeque;
use vstd::prelude::*;
use vstd::slice::{slice_subrange, slice_to_vec};
use vstd::utf8::{
    decode_utf8, decode_utf8_encode_utf8, encode_utf8, encode_utf8_decode_utf8,
    encode_utf8_valid_utf8, valid_utf8,
};

verus! {

/// What travels between the peers of a chat.
#[derive(Debug, PartialEq, Eq)]
pub enum Message {
    /// A line of text.
    Text(String),
    /// A file: its name and its content.
    File(String, Vec<u8>),
    /// An image in any format, as it lay on the sender's disk.
    Image(Vec<u8>),
}

/// A message as a mathematical value.
pub enum MessageView {
    Text(Seq<char>),
    File(Seq<char>, Seq<u8>),
    Image(Seq<u8>),
}

impl View for Message {
    type V = MessageView;

    open spec fn view(&self) -> MessageView {
        match self {
            Message::Text(body) => MessageView::Text(body@),
            Message::File(name, content) => MessageView::File(name@, content@),
            Message::Image(content) => MessageView::Image(content@),
        }
    }
}

impl Clone for Message {
    /// A message of the same kind with the same fields.
    fn clone(&self) -> (r: Self)
        ensures
            r@ == self@,
    {
        match self {
            Message::Text(body) => Message::Text(body.clone()),
            Message::File(name, content) => Message::File(name.clone(), content.clone()),
            Message::Image(content) => Message::Image(content.clone()),
        }
    }
}

/// Why a message could not be composed, sent or received.
#[derive(Debug, Clone, Copy, PartialEq, Eq, Structural)]
pub enum ChatLibError {
    /// The message has no wire form, or the bytes are no message.
    ComposeError,
    /// The stream refused the bytes.
    SendError,
    /// The stream ended before a whole frame had arrived.
    ReadError,
}

impl ChatLibError {
    /// The sentence that describes the error.
    pub open spec fn text(self) -> Seq<char> {
        match self {
            ChatLibError::ComposeError => "Cannot compose the message"@,
            ChatLibError::SendError => "Cannot send the message"@,
            ChatLibError::ReadError => "Cannot receive the message"@,
        }
    }

    /// The sentence that describes the error.
    pub fn to_string(&self) -> (r: String)
        ensures
            r@ == self.text(),
    {
        match self {
            ChatLibError::ComposeError => String::from_str("Cannot compose the message"),
            ChatLibError::SendError => String::from_str("Cannot send the message"),
            ChatLibError::ReadError => String::from_str("Cannot receive the message"),
        }
    }
}

/// The tag that opens the payload of a text message.
pub const TAG_TEXT: u32 = 0;

/// The tag that opens the payload of a file message.
pub const TAG_FILE: u32 = 1;

/// The tag that opens the payload of an image message.
pub const TAG_IMAGE: u32 = 2;

/// The longest payload that a frame can carry.
pub const MAX_PAYLOAD: usize = 0xFFFF_FFFF;

/// A byte string on the wire: its length, then its bytes.
pub open spec fn blob_bytes(blob: Seq<u8>) -> Seq<u8> {
    u64_le(blob.len() as u64) + blob
}

/// A string on the wire: its UTF-8 bytes as a byte string.
pub open spec fn text_bytes(text: Seq<char>) -> Seq<u8> {
    blob_bytes(encode_utf8(text))
}

impl MessageView {
    /// The payload that carries the message.
    pub open spec fn encoding(self) -> Seq<u8> {
        match self {
            MessageView::Text(body) => u32_le(TAG_TEXT) + text_bytes(body),
            MessageView::File(name, content) => u32_le(TAG_FILE) + text_bytes(name) + blob_bytes(
                content,
            ),
            MessageView::Image(content) => u32_le(TAG_IMAGE) + blob_bytes(content),
        }
    }

    /// Whether the length of each field can be written down in a payload.
    pub open spec fn well_formed(self) -> bool {
        match self {
            MessageView::Text(body) => encode_utf8(body).len() <= u64::MAX,
            MessageView::File(name, content) => encode_utf8(name).len() <= u64::MAX
                && content.len() <= u64::MAX,
            MessageView::Image(content) => content.len() <= u64::MAX,
        }
    }

    /// Whether a frame can carry the message: its payload is no longer than
    /// the frame's 32-bit length can say.
    pub open spec fn representable(self) -> bool {
        self.encoding().len() <= MAX_PAYLOAD
    }
}

/// The payload is the tag, the lengths and the fields, and nothing else.
pub proof fn lemma_encoding_len(m: MessageView)
    ensures
        m.encoding().len() == match m {
            MessageView::Text(body) => 12 + encode_utf8(body).len(),
            MessageView::File(name, content) => 20 + encode_utf8(name).len() + content.len(),
            MessageView::Image(content) => 12 + content.len(),
        },
{
    lemma_u32_le_round_trip(TAG_TEXT, Seq::empty());
    lemma_u32_le_round_trip(TAG_FILE, Seq::empty());
    lemma_u32_le_round_trip(TAG_IMAGE, Seq::empty());
    match m {
        MessageView::Text(body) => {
            lemma_u64_le_round_trip(encode_utf8(body).len() as u64, Seq::empty());
        },
        MessageView::File(name, content) => {
            lemma_u64_le_round_trip(encode_utf8(name).len() as u64, Seq::empty());
            lemma_u64_le_round_trip(content.len() as u64, Seq::empty());
        },
        MessageView::Image(content) => {
            lemma_u64_le_round_trip(content.len() as u64, Seq::empty());
        },
    }
}

/// The byte string that starts at `at`, and the place where it ends; `None`
/// where the bytes end before the byte string does.
pub open spec fn blob_at(data: Seq<u8>, at: int) -> Option<(Seq<u8>, int)> {
    if 0 <= at && at + 8 <= data.len() && at + 8 + u64_from_le(data.subrange(at, at + 8))
        <= data.len() {
        let end = at + 8 + u64_from_le(data.subrange(at, at + 8));
        Some((data.subrange(at + 8, end), end))
    } else {
        None
    }
}

/// The string that starts at `at`, and the place where it ends; `None` where
/// the bytes end before the string does or the string is not UTF-8.
pub open spec fn text_at(data: Seq<u8>, at: int) -> Option<(Seq<char>, int)> {
    match blob_at(data, at) {
        Some((raw, end)) => if valid_utf8(raw) {
            Some((decode_utf8(raw), end))
        } else {
            None
        },
        None => None,
    }
}

/// The message that a payload carries; `None` where the bytes are no
/// message. Bytes that follow the message are not looked at.
pub open spec fn decoding(data: Seq<u8>) -> Option<MessageView> {
    if data.len() < 4 {
        None
    } else if u32_from_le(data.subrange(0, 4)) == TAG_TEXT {
        match text_at(data, 4) {
            Some((body, _)) => Some(MessageView::Text(body)),
            None => None,
        }
    } else if u32_from_le(data.subrange(0, 4)) == TAG_FILE {
        match text_at(data, 4) {
            Some((name, end)) => match blob_at(data, end) {
                Some((content, _)) => Some(MessageView::File(name, content)),
                None => None,
            },
            None => None,
        }
    } else if u32_from_le(data.subrange(0, 4)) == TAG_IMAGE {
        match blob_at(data, 4) {
            Some((content, _)) => Some(MessageView::Image(content)),
            None => None,
        }
    } else {
        None
    }
}

/// Appends `bytes` to `out`.
fn put_bytes(out: &mut Vec<u8>, bytes: &[u8])
    ensures
        final(out)@ == old(out)@ + bytes@,
{
    let mut i: usize = 0;
    while i < bytes.len()
        invariant
            i <= bytes@.len(),
            out@ == old(out)@ + bytes@.subrange(0, i as int),
        decreases bytes@.len() - i,
    {
        out.push(bytes[i]);
        i += 1;
        assert(out@ =~= old(out)@ + bytes@.subrange(0, i as int));
    }
    assert(bytes@.subrange(0, i as int) =~= bytes@);
}

/// Appends a byte string in its wire form to `out`.
fn put_blob(out: &mut Vec<u8>, blob: &[u8])
    ensures
        final(out)@ == old(out)@ + blob_bytes(blob@),
{
    put_u64_le(out, blob.len() as u64);
    put_bytes(out, blob);
    assert(out@ =~= old(out)@ + blob_bytes(blob@));
}

/// `String::from_utf8` of std: the string that the bytes spell where they are
/// well-formed UTF-8, and nothing where they are not.
#[verifier::external_body]
fn string_from_utf8(bytes: Vec<u8>) -> (r: Option<String>)
    ensures
        match r {
            Some(text) => valid_utf8(bytes@) && text@ == decode_utf8(bytes@),
            None => !valid_utf8(bytes@),
        },
{
    String::from_utf8(bytes).ok()
}

/// Reads the byte string that starts at `at`.
fn read_blob(data: &[u8], at: usize) -> (r: Option<(Vec<u8>, usize)>)
    requires
        at <= data@.len(),
    ensures
        match r {
            Some((blob, end)) => blob_at(data@, at as int) == Some((blob@, end as int)),
            None => blob_at(data@, at as int) is None,
        },
{
    let len: usize = data.len();
    if len - at < 8 {
        return None;
    }
    let n: u64 = get_u64_le(data, at);
    let room: usize = len - at - 8;
    if n > room as u64 {
        return None;
    }
    let start: usize = at + 8;
    let end: usize = start + n as usize;
    let blob = slice_to_vec(slice_subrange(data, start, end));
    Some((blob, end))
}

/// Reads the string that starts at `at`.
fn read_text(data: &[u8], at: usize) -> (r: Option<(String, usize)>)
    requires
        at <= data@.len(),
    ensures
        match r {
            Some((text, end)) => text_at(data@, at as int) == Some((text@, end as int)),
            None => text_at(data@, at as int) is None,
        },
{
    match read_blob(data, at) {
        Some((raw, end)) => match string_from_utf8(raw) {
            Some(text) => Some((text, end)),
            None => None,
        },
        None => None,
    }
}

impl Message {
    /// The number of bytes of the payload, where a frame can carry it.
    fn payload_len(&self) -> (r: Option<usize>)
        ensures
            match r {
                Some(n) => self@.representable() && n == self@.encoding().len(),
                None => !self@.representable(),
            },
    {
        proof {
            lemma_encoding_len(self@);
        }
        match self {
            Message::Text(body) => {
                let n: usize = body.as_str().as_bytes().len();
                if n <= MAX_PAYLOAD - 12 {
                    Some(n + 12)
                } else {
                    None
                }
            },
            Message::File(name, content) => {
                let n: usize = name.as_str().as_bytes().len();
                let m: usize = content.len();
                if n <= MAX_PAYLOAD - 20 && m <= MAX_PAYLOAD - 20 - n {
                    Some(n + m + 20)
                } else {
                    None
                }
            },
            Message::Image(content) => {
                let m: usize = content.len();
                if m <= MAX_PAYLOAD - 12 {
                    Some(m + 12)
                } else {
                    None
                }
            },
        }
    }

    /// The payload that carries the message, or `ComposeError` where no frame
    /// can carry it.
    pub fn serialize(&self) -> (r: Result<Vec<u8>, ChatLibError>)
        ensures
            match r {
                Ok(payload) => self@.representable() && payload@ == self@.encoding(),
                Err(e) => e == ChatLibError::ComposeError && !self@.representable(),
            },
    {
        if self.payload_len().is_none() {
            return Err(ChatLibError::ComposeError);
        }
        let mut out: Vec<u8> = Vec::new();
        match self {
            Message::Text(body) => {
                put_u32_le(&mut out, TAG_TEXT);
                put_blob(&mut out, body.as_str().as_bytes());
            },
            Message::File(name, content) => {
                put_u32_le(&mut out, TAG_FILE);
                put_blob(&mut out, name.as_str().as_bytes());
                put_blob(&mut out, content.as_slice());
            },
            Message::Image(content) => {
                put_u32_le(&mut out, TAG_IMAGE);
                put_blob(&mut out, content.as_slice());
            },
        }
        assert(out@ =~= self@.encoding());
        Ok(out)
    }

    /// The frame that carries the message: its payload behind the payload's
    /// length. `ComposeError` where no frame can carry it.
    pub fn frame(&self) -> (r: Result<Vec<u8>, ChatLibError>)
        ensures
            match r {
                Ok(bytes) => self@.representable() && bytes@ == frame_of(self@.encoding()),
                Err(e) => e == ChatLibError::ComposeError && !self@.representable(),
            },
    {
        match self.serialize() {
            Ok(payload) => {
                let mut out: Vec<u8> = Vec::new();
                put_u32_be(&mut out, payload.len() as u32);
                put_bytes(&mut out, payload.as_slice());
                Ok(out)
            },
            Err(e) => Err(e),
        }
    }

    /// Writes the message's frame to the back of `stream`, or fails with
    /// `ComposeError` and writes nothing where no frame can carry it.
    pub fn write_to_stream(&self, stream: &mut VecDeque<u8>) -> (r: Result<(), ChatLibError>)
        ensures
            match r {
                Ok(_) => self@.representable() && final(stream)@ == old(stream)@ + frame_of(
                    self@.encoding(),
                ),
                Err(e) => e == ChatLibError::ComposeError && !self@.representable()
                    && final(stream)@ == old(stream)@,
            },
    {
        match self.frame() {
            Ok(bytes) => {
                let mut i: usize = 0;
                while i < bytes.len()
                    invariant
                        i <= bytes@.len(),
                        stream@ == old(stream)@ + bytes@.subrange(0, i as int),
                    decreases bytes@.len() - i,
                {
                    stream.push_back(bytes[i]);
                    i += 1;
                    assert(stream@ =~= old(stream)@ + bytes@.subrange(0, i as int));
                }
                assert(bytes@.subrange(0, i as int) =~= bytes@);
                Ok(())
            },
            Err(e) => Err(e),
        }
    }

    /// Reads one frame from the front of `stream` and gives the message that
    /// it carries.
    ///
    /// Where the stream begins with a whole frame, the frame is taken from it
    /// and decoded: the message, or `ComposeError` where the payload carries
    /// none. Where the stream ends before the header or the payload does, the
    /// result is `ReadError` and the stream is left empty.
    pub fn read_from_stream(stream: &mut VecDeque<u8>) -> (r: Result<Message, ChatLibError>)
        ensures
            match frame_at_front(old(stream)@) {
                Some((payload, rest)) => final(stream)@ == rest && match r {
                    Ok(message) => decoding(payload) == Some(message@),
                    Err(e) => e == ChatLibError::ComposeError && decoding(payload) is None,
                },
                None => r == Err::<Message, ChatLibError>(ChatLibError::ReadError)
                    && final(stream)@.len() == 0,
            },
    {
        let mut reader = FrameReader::new();
        let header = take_front(stream, reader.wanted());
        match reader.accept(header.as_slice()) {
            Some(ended) => {
                return ended;
            },
            None => {},
        }
        let ghost whole = old(stream)@;
        let ghost body = stream@;
        let n: usize = reader.wanted();
        let payload = take_front(stream, n);
        proof {
            if body.len() >= n {
                assert(payload@ =~= whole.subrange(4, 4 + n));
                assert(stream@ =~= whole.subrange(4 + n, whole.len() as int));
            }
        }
        match reader.accept(payload.as_slice()) {
            Some(ended) => ended,
            None => Err(ChatLibError::ReadError),
        }
    }

    /// The message that the payload `data` carries, or `ComposeError` where
    /// the bytes are no message: the tag is unknown, a field ends after the
    /// bytes do, or a string is not UTF-8.
    pub fn try_from(data: &[u8]) -> (r: Result<Message, ChatLibError>)
        ensures
            match r {
                Ok(message) => decoding(data@) == Some(message@),
                Err(e) => e == ChatLibError::ComposeError && decoding(data@) is None,
            },
    {
        if data.len() < 4 {
            return Err(ChatLibError::ComposeError);
        }
        let tag: u32 = get_u32_le(data, 0);
        if tag == TAG_TEXT {
            match read_text(data, 4) {
                Some((body, _)) => Ok(Message::Text(body)),
                None => Err(ChatLibError::ComposeError),
            }
        } else if tag == TAG_FILE {
            match read_text(data, 4) {
                Some((name, end)) => match read_blob(data, end) {
                    Some((content, _)) => Ok(Message::File(name, content)),
                    None => Err(ChatLibError::ComposeError),
                },
                None => Err(ChatLibError::ComposeError),
            }
        } else if tag == TAG_IMAGE {
            match read_blob(data, 4) {
                Some((content, _)) => Ok(Message::Image(content)),
                None => Err(ChatLibError::ComposeError),
            }
        } else {
            Err(ChatLibError::ComposeError)
        }
    }
}

/// A byte string in its wire form is read back as it was written, between
/// whatever stands before and behind it.
pub proof fn lemma_blob_round_trip(before: Seq<u8>, blob: Seq<u8>, after: Seq<u8>)
    requires
        blob.len() <= u64::MAX,
    ensures
        blob_at(before + blob_bytes(blob) + after, before.len() as int) == Some(
            (blob, (before.len() + 8 + blob.len()) as int),
        ),
{
    let data = before + blob_bytes(blob) + after;
    let at = before.len() as int;
    lemma_u64_le_round_trip(blob.len() as u64, Seq::empty());
    assert(data.subrange(at, at + 8) =~= u64_le(blob.len() as u64) + Seq::<u8>::empty());
    assert(data.subrange(at + 8, at + 8 + blob.len()) =~= blob);
}

/// A string in its wire form is read back as it was written, between
/// whatever stands before and behind it.
pub proof fn lemma_text_round_trip(before: Seq<u8>, text: Seq<char>, after: Seq<u8>)
    requires
        encode_utf8(text).len() <= u64::MAX,
    ensures
        text_at(before + text_bytes(text) + after, before.len() as int) == Some(
            (text, (before.len() + 8 + encode_utf8(text).len()) as int),
        ),
{
    lemma_blob_round_trip(before, encode_utf8(text), after);
    encode_utf8_valid_utf8(text);
    encode_utf8_decode_utf8(text);
}

/// Decoding undoes encoding: the payload of a message, followed by any
/// bytes, carries that message.
pub proof fn lemma_decode_encode(m: MessageView, rest: Seq<u8>)
    requires
        m.well_formed(),
    ensures
        decoding(m.encoding() + rest) == Some(m),
{
    let data = m.encoding() + rest;
    lemma_encoding_len(m);
    match m {
        MessageView::Text(body) => {
            let tag = u32_le(TAG_TEXT);
            lemma_u32_le_round_trip(TAG_TEXT, Seq::empty());
            assert(data.subrange(0, 4) =~= tag + Seq::<u8>::empty());
            lemma_text_round_trip(tag, body, rest);
            assert(data =~= tag + text_bytes(body) + rest);
            assert(u32_from_le(data.subrange(0, 4)) == TAG_TEXT);
            assert(text_at(data, 4) is Some);
        },
        MessageView::File(name, content) => {
            let tag = u32_le(TAG_FILE);
            lemma_u32_le_round_trip(TAG_FILE, Seq::empty());
            assert(data.subrange(0, 4) =~= tag + Seq::<u8>::empty());
            lemma_text_round_trip(tag, name, blob_bytes(content) + rest);
            assert(data =~= tag + text_bytes(name) + (blob_bytes(content) + rest));
            lemma_blob_round_trip(tag + text_bytes(name), content, rest);
            assert(data =~= (tag + text_bytes(name)) + blob_bytes(content) + rest);
            assert(u32_from_le(data.subrange(0, 4)) == TAG_FILE);
            assert(text_at(data, 4) is Some);
            let (_, mid) = text_at(data, 4)->0;
            lemma_u64_le_round_trip(encode_utf8(name).len() as u64, Seq::empty());
            assert((tag + text_bytes(name)).len() == mid);
        },
        MessageView::Image(content) => {
            let tag = u32_le(TAG_IMAGE);
            lemma_u32_le_round_trip(TAG_IMAGE, Seq::empty());
            assert(data.subrange(0, 4) =~= tag + Seq::<u8>::empty());
            lemma_blob_round_trip(tag, content, rest);
            assert(data =~= tag + blob_bytes(content) + rest);
            assert(u32_from_le(data.subrange(0, 4)) == TAG_IMAGE);
            assert(blob_at(data, 4) is Some);
        },
    }
}

/// A message that a frame can carry has fields whose lengths can be written
/// down.
pub proof fn lemma_representable_is_well_formed(m: MessageView)
    requires
        m.representable(),
    ensures
        m.well_formed(),
{
    lemma_encoding_len(m);
}

/// Round trip: decoding the payload of a message that a frame can carry
/// gives the message back.
pub proof fn lemma_round_trip(m: MessageView)
    requires
        m.representable(),
    ensures
        decoding(m.encoding()) == Some(m),
{
    lemma_representable_is_well_formed(m);
    lemma_decode_encode(m, Seq::empty());
    assert(m.encoding() + Seq::<u8>::empty() =~= m.encoding());
}

/// What `write_to_stream` appends, `read_from_stream` gives back: a stream
/// that begins with the frame of a message yields that frame's payload, the
/// payload carries the message, and what followed the frame is left.
pub proof fn lemma_written_is_read(m: MessageView, rest: Seq<u8>)
    requires
        m.representable(),
    ensures
        frame_at_front(frame_of(m.encoding()) + rest) == Some((m.encoding(), rest)),
        decoding(m.encoding()) == Some(m),
{
    lemma_round_trip(m);
    lemma_frame_round_trip(m.encoding(), rest);
}

/// A byte string that was read stands in its wire form where it was read.
pub proof fn lemma_blob_at_is_blob_bytes(data: Seq<u8>, at: int)
    requires
        blob_at(data, at) is Some,
    ensures
        ({
            let (blob, end) = blob_at(data, at)->0;
            &&& at + 8 + blob.len() == end
            &&& end <= data.len()
            &&& blob.len() <= u64::MAX
            &&& data.subrange(at, end) == blob_bytes(blob)
        }),
{
    let (blob, end) = blob_at(data, at)->0;
    lemma_u64_le_of_bytes(data.subrange(at, at + 8));
    assert(data.subrange(at, at + 8).subrange(0, 8) =~= data.subrange(at, at + 8));
    assert(data.subrange(at, end) =~= blob_bytes(blob));
}

/// Encoding undoes decoding: where bytes carry a message, they begin with
/// that message's payload.
pub proof fn lemma_encode_decode(data: Seq<u8>)
    requires
        decoding(data) is Some,
    ensures
        decoding(data)->0.well_formed(),
        decoding(data)->0.encoding().len() <= data.len(),
        data.subrange(0, decoding(data)->0.encoding().len() as int) == decoding(data)->0.encoding(),
{
    let m = decoding(data)->0;
    let tag = u32_from_le(data.subrange(0, 4));
    lemma_u32_le_of_bytes(data.subrange(0, 4));
    assert(data.subrange(0, 4).subrange(0, 4) =~= data.subrange(0, 4));
    if tag == TAG_TEXT {
        let (raw, end) = blob_at(data, 4)->0;
        lemma_blob_at_is_blob_bytes(data, 4);
        decode_utf8_encode_utf8(raw);
        assert(data.subrange(0, end) =~= data.subrange(0, 4) + data.subrange(4, end));
    } else if tag == TAG_FILE {
        let (raw, mid) = blob_at(data, 4)->0;
        lemma_blob_at_is_blob_bytes(data, 4);
        decode_utf8_encode_utf8(raw);
        let (content, end) = blob_at(data, mid)->0;
        lemma_blob_at_is_blob_bytes(data, mid);
        assert(data.subrange(0, end) =~= data.subrange(0, 4) + data.subrange(4, mid)
            + data.subrange(mid, end));
    } else {
        let (content, end) = blob_at(data, 4)->0;
        lemma_blob_at_is_blob_bytes(data, 4);
        assert(data.subrange(0, end) =~= data.subrange(0, 4) + data.subrange(4, end));
    }
    lemma_encoding_len(m);
}

} // verus!
