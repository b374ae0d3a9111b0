//! Frames: one payload behind its length, and the reading of one from a
//! source that hands out bytes on request.

use crate::message::{decoding, ChatLibError, Message, MAX_PAYLOAD};
use crate::wire::{
    get_u32_be, lemma_u32_be_of_bytes, lemma_u32_be_round_trip, u32_be, u32_from_be,
};
use std::collections::VecDeque;
use vstd::prelude::*;

verus! {

/// The number of bytes of a frame's header.
pub const HEADER_LEN: usize = 4;

/// A payload behind its length.
pub open spec fn frame_of(payload: Seq<u8>) -> Seq<u8> {
    u32_be(payload.len() as u32) + payload
}

/// The payload of the frame with which `stream` begins, and what follows the
/// frame; `None` where the stream ends before the frame does.
pub open spec fn frame_at_front(stream: Seq<u8>) -> Option<(Seq<u8>, Seq<u8>)> {
    if stream.len() >= HEADER_LEN && HEADER_LEN + u32_from_be(stream.subrange(0, 4))
        <= stream.len() {
        let end = HEADER_LEN + u32_from_be(stream.subrange(0, 4));
        Some((stream.subrange(4, end), stream.subrange(end, stream.len() as int)))
    } else {
        None
    }
}

/// The header of a frame says how long its payload is, and nothing stands
/// between the two.
pub proof fn lemma_frame_integrity(payload: Seq<u8>)
    requires
        payload.len() <= MAX_PAYLOAD,
    ensures
        frame_of(payload).len() == HEADER_LEN + payload.len(),
        frame_of(payload).subrange(0, 4) == u32_be(payload.len() as u32),
        u32_from_be(frame_of(payload).subrange(0, 4)) == payload.len(),
        frame_of(payload).subrange(4, frame_of(payload).len() as int) == payload,
{
    let header = u32_be(payload.len() as u32);
    lemma_u32_be_round_trip(payload.len() as u32, Seq::empty());
    assert(frame_of(payload).subrange(0, 4) =~= header);
    assert(header + Seq::<u8>::empty() =~= header);
    assert(frame_of(payload).subrange(4, frame_of(payload).len() as int) =~= payload);
}

/// A frame is read back as the payload it was made of, and what followed it
/// is left.
pub proof fn lemma_frame_round_trip(payload: Seq<u8>, rest: Seq<u8>)
    requires
        payload.len() <= MAX_PAYLOAD,
    ensures
        frame_at_front(frame_of(payload) + rest) == Some((payload, rest)),
{
    let stream = frame_of(payload) + rest;
    lemma_frame_integrity(payload);
    assert(stream.subrange(0, 4) =~= frame_of(payload).subrange(0, 4));
    assert(stream.subrange(4, 4 + payload.len() as int) =~= payload);
    assert(stream.subrange(4 + payload.len() as int, stream.len() as int) =~= rest);
}

/// A stream from which a frame was read began with that frame.
pub proof fn lemma_frame_at_front_is_frame(stream: Seq<u8>)
    requires
        frame_at_front(stream) is Some,
    ensures
        ({
            let (payload, rest) = frame_at_front(stream)->0;
            &&& payload.len() <= MAX_PAYLOAD
            &&& stream == frame_of(payload) + rest
        }),
{
    let (payload, rest) = frame_at_front(stream)->0;
    lemma_u32_be_of_bytes(stream.subrange(0, 4));
    assert(stream.subrange(0, 4).subrange(0, 4) =~= stream.subrange(0, 4));
    assert(stream =~= frame_of(payload) + rest);
}

/// Where the reading of one frame stands. The reader says how many bytes it
/// wants next; whoever owns the source fetches them and hands them over.
#[derive(Debug, Clone, Copy, PartialEq, Eq, Structural)]
pub enum FrameReader {
    /// The header is awaited.
    Header,
    /// The header said how long the payload is; the payload is awaited.
    Payload(u32),
}

impl FrameReader {
    /// A reader at the start of a frame.
    pub fn new() -> (r: Self)
        ensures
            r == FrameReader::Header,
    {
        FrameReader::Header
    }

    /// The number of bytes that the reader wants next.
    pub open spec fn spec_wanted(&self) -> usize {
        match self {
            FrameReader::Header => HEADER_LEN,
            FrameReader::Payload(n) => *n as usize,
        }
    }

    /// The number of bytes that the reader wants next.
    #[verifier::when_used_as_spec(spec_wanted)]
    pub fn wanted(&self) -> (n: usize)
        ensures
            n == self.spec_wanted(),
    {
        match self {
            FrameReader::Header => HEADER_LEN,
            FrameReader::Payload(n) => *n as usize,
        }
    }

    /// Takes what the source gave when asked for `wanted()` bytes: that many
    /// bytes, or fewer where the source ended first.
    ///
    /// Fewer bytes than wanted end the frame with `ReadError`. A whole header
    /// makes the reader await the payload, and nothing is returned yet. A
    /// whole payload ends the frame with the message that it carries, or with
    /// `ComposeError` where it carries none. Once a frame has ended the
    /// reader is at the start of the next.
    pub fn accept(&mut self, bytes: &[u8]) -> (r: Option<Result<Message, ChatLibError>>)
        ensures
            bytes@.len() != old(self).wanted() ==> r == Some(
                Err::<Message, ChatLibError>(ChatLibError::ReadError),
            ) && *final(self) == FrameReader::Header,
            bytes@.len() == old(self).wanted() && *old(self) is Header ==> r is None && *final(self)
                == FrameReader::Payload(u32_from_be(bytes@)),
            bytes@.len() == old(self).wanted() && *old(self) is Payload ==> *final(self)
                == FrameReader::Header && r is Some && match r->0 {
                Ok(message) => decoding(bytes@) == Some(message@),
                Err(e) => e == ChatLibError::ComposeError && decoding(bytes@) is None,
            },
    {
        if bytes.len() != self.wanted() {
            *self = FrameReader::Header;
            return Some(Err(ChatLibError::ReadError));
        }
        match *self {
            FrameReader::Header => {
                assert(bytes@.subrange(0, 4) =~= bytes@);
                *self = FrameReader::Payload(get_u32_be(bytes, 0));
                None
            },
            FrameReader::Payload(_) => {
                *self = FrameReader::Header;
                Some(Message::try_from(bytes))
            },
        }
    }
}

/// Takes `n` bytes from the front of `stream`, or all of them where there are
/// fewer.
pub fn take_front(stream: &mut VecDeque<u8>, n: usize) -> (taken: Vec<u8>)
    ensures
        old(stream)@.len() >= n ==> taken@ == old(stream)@.subrange(0, n as int) && final(stream)@
            == old(stream)@.subrange(n as int, old(stream)@.len() as int),
        old(stream)@.len() < n ==> taken@ == old(stream)@ && final(stream)@.len() == 0,
{
    let mut taken: Vec<u8> = Vec::new();
    let ghost whole = stream@;
    while taken.len() < n && stream.len() > 0
        invariant
            taken@.len() <= n,
            taken@.len() <= whole.len(),
            taken@ == whole.subrange(0, taken@.len() as int),
            stream@ == whole.subrange(taken@.len() as int, whole.len() as int),
        decreases stream@.len(),
    {
        let byte = stream.pop_front();
        match byte {
            Some(b) => {
                taken.push(b);
            },
            None => {},
        }
        assert(taken@ =~= whole.subrange(0, taken@.len() as int));
        assert(stream@ =~= whole.subrange(taken@.len() as int, whole.len() as int));
    }
    assert(whole.subrange(0, whole.len() as int) =~= whole);
    taken
}

} // verus!
