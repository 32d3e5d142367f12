//! Binary frames in between the messages of one connection.

use crate::buf::{bytes_as_slice, bytes_contents, bytes_mut_contents};
use crate::rtp::packet::{be16, u16_at};
use crate::rtsp::buffer::ReadLine;
use crate::rtsp::error::{Error, ErrorView};
use crate::rtsp::parse::{Feed, Message};
use crate::rtsp::request::Request;
use crate::rtsp::response::Response;
use bytes::{Bytes, BytesMut};
use vstd::prelude::*;

verus! {

/// The byte that begins every interleaved frame: `$`.
pub const MAGIC: u8 = 0x24;

pub type ChannelId = u8;

/// The longest payload that an interleaved frame can carry.
pub const INTERLEAVED_PAYLOAD_MAX: usize = 65535;

/// Something that has a wire form.
pub trait Serialize: View + Sized {
    /// The wire form, or why there is none.
    spec fn wire_form(v: Self::V) -> Result<Seq<u8>, ErrorView>;

    /// Appends the wire form to `dst`. Where there is none, `dst` is left as it was.
    fn serialize(self, dst: &mut BytesMut) -> (r: Result<(), Error>)
        ensures
            match Self::wire_form(self@) {
                Ok(wire) => r is Ok && bytes_mut_contents(*final(dst)) == bytes_mut_contents(
                    *old(dst),
                ) + wire,
                Err(e) => {
                    &&& r matches Err(x) && x@ == e
                    &&& bytes_mut_contents(*final(dst)) == bytes_mut_contents(*old(dst))
                },
            },
    ;
}

impl Serialize for Request {
    open spec fn wire_form(v: Self::V) -> Result<Seq<u8>, ErrorView> {
        v.wire()
    }

    fn serialize(self, dst: &mut BytesMut) -> (r: Result<(), Error>) {
        Request::serialize(self, dst)
    }
}

impl Serialize for Response {
    open spec fn wire_form(v: Self::V) -> Result<Seq<u8>, ErrorView> {
        v.wire()
    }

    fn serialize(self, dst: &mut BytesMut) -> (r: Result<(), Error>) {
        Response::serialize(self, dst)
    }
}

/// What travels over an RTSP connection: a message, or an interleaved frame.
#[derive(Debug, Clone, PartialEq, Eq)]
pub enum MaybeInterleaved<M: Message> {
    Message(M),
    Interleaved { channel: ChannelId, payload: Bytes },
}

pub type RequestMaybeInterleaved = MaybeInterleaved<Request>;

pub type ResponseMaybeInterleaved = MaybeInterleaved<Response>;

pub enum MaybeInterleavedView<V> {
    Message(V),
    Interleaved { channel: ChannelId, payload: Seq<u8> },
}

impl<M: Message> View for MaybeInterleaved<M> {
    type V = MaybeInterleavedView<M::V>;

    open spec fn view(&self) -> Self::V {
        match *self {
            MaybeInterleaved::Message(message) => MaybeInterleavedView::Message(message@),
            MaybeInterleaved::Interleaved { channel, payload } => MaybeInterleavedView::Interleaved {
                channel,
                payload: bytes_contents(payload),
            },
        }
    }
}

/// An interleaved frame on the wire: `$`, the channel, the payload's length in 16 bits, and
/// the payload. A payload longer than 16 bits can say has no wire form.
pub open spec fn frame_wire(channel: ChannelId, payload: Seq<u8>) -> Result<Seq<u8>, ErrorView> {
    if payload.len() > INTERLEAVED_PAYLOAD_MAX {
        Err(ErrorView::InterleavedPayloadTooLarge)
    } else {
        Ok(seq![MAGIC, channel] + be16(payload.len() as u16) + payload)
    }
}

impl<M: Message + Serialize> Serialize for MaybeInterleaved<M> {
    open spec fn wire_form(v: Self::V) -> Result<Seq<u8>, ErrorView> {
        match v {
            MaybeInterleavedView::Message(message) => M::wire_form(message),
            MaybeInterleavedView::Interleaved { channel, payload } => frame_wire(channel, payload),
        }
    }

    fn serialize(self, dst: &mut BytesMut) -> (r: Result<(), Error>) {
        match self {
            MaybeInterleaved::Message(message) => message.serialize(dst),
            MaybeInterleaved::Interleaved { channel, payload } => {
                let len = payload.len();
                if len > INTERLEAVED_PAYLOAD_MAX {
                    return Err(Error::InterleavedPayloadTooLarge);
                }
                let mut head: Vec<u8> = Vec::new();
                head.push(MAGIC);
                head.push(channel);
                head.push(((len as u16) >> 8) as u8);
                head.push(((len as u16) & 0xff) as u8);
                assert(head@ =~= seq![MAGIC, channel] + be16(len as u16));
                dst.extend_from_slice(head.as_slice());
                dst.extend_from_slice(bytes_as_slice(&payload));
                assert(bytes_mut_contents(*dst) =~= bytes_mut_contents(*old(dst)) + (seq![
                    MAGIC,
                    channel,
                ] + be16(len as u16) + bytes_contents(payload)));
                Ok(())
            },
        }
    }
}

/// What came of feeding the frame parser: the channel and length it knows afterwards, the
/// buffer afterwards, and the frame, if one is whole.
pub struct FrameFed {
    pub channel_and_size: Option<(u8, u16)>,
    pub buffer: Seq<u8>,
    pub frame: Option<Result<(ChannelId, Seq<u8>), ErrorView>>,
}

/// Reading of the payload of a frame whose channel and length are known.
pub open spec fn frame_payload_fed(channel: u8, size: u16, buffer: Seq<u8>) -> FrameFed {
    if buffer.len() >= size {
        FrameFed {
            channel_and_size: Some((channel, size)),
            buffer: buffer.skip(size as int),
            frame: Some(Ok((channel, buffer.take(size as int)))),
        }
    } else {
        FrameFed { channel_and_size: Some((channel, size)), buffer, frame: None }
    }
}

/// Feeding the frame parser with `buffer`: first the four bytes that begin a frame, then as
/// many payload bytes as they announce.
pub open spec fn frame_fed(channel_and_size: Option<(u8, u16)>, buffer: Seq<u8>) -> FrameFed {
    match channel_and_size {
        Some((channel, size)) => frame_payload_fed(channel, size, buffer),
        None => if buffer.len() >= 4 {
            if buffer[0] != MAGIC {
                FrameFed {
                    channel_and_size: None,
                    buffer,
                    frame: Some(Err(ErrorView::InterleavedInvalid)),
                }
            } else {
                frame_payload_fed(buffer[1], u16_at(buffer, 2), buffer.skip(4))
            }
        } else {
            FrameFed { channel_and_size: None, buffer, frame: None }
        },
    }
}

/// Incremental parser for one interleaved frame.
#[derive(Debug)]
pub struct InterleavedParser {
    channel_and_size: Option<(u8, u16)>,
}

impl View for InterleavedParser {
    type V = Option<(u8, u16)>;

    closed spec fn view(&self) -> Option<(u8, u16)> {
        self.channel_and_size
    }
}

impl InterleavedParser {
    /// A parser that has read nothing yet.
    pub fn new() -> (r: InterleavedParser)
        ensures
            r@ is None,
    {
        InterleavedParser { channel_and_size: None }
    }

    /// Feeds the parser with what `buffer` holds. The parser takes what belongs to its frame
    /// off the front of `buffer` and hands out the frame once it is whole.
    pub fn parse<B: Feed>(&mut self, buffer: &mut B) -> (r: Option<Result<(ChannelId, Bytes), Error>>)
        ensures
            final(self)@ == frame_fed(old(self)@, old(buffer).unread()).channel_and_size,
            final(buffer).unread() == frame_fed(old(self)@, old(buffer).unread()).buffer,
            match frame_fed(old(self)@, old(buffer).unread()).frame {
                Some(Ok((channel, payload))) => r matches Some(Ok(f)) && f.0 == channel
                    && bytes_contents(f.1) == payload,
                Some(Err(e)) => r matches Some(Err(x)) && x@ == e,
                None => r is None,
            },
    {
        if self.channel_and_size.is_none() {
            if buffer.remaining() < 4 {
                return None;
            }
            let header = buffer.chunk();
            if header[0] != MAGIC {
                return Some(Err(Error::InterleavedInvalid));
            }
            let channel = header[1];
            let size = ((header[2] as u16) << 8) | (header[3] as u16);
            self.channel_and_size = Some((channel, size));
            let _ = buffer.copy_to_bytes(4);
        }
        let (channel, size) = self.channel_and_size.unwrap();
        if buffer.remaining() >= size as usize {
            let payload = buffer.copy_to_bytes(size as usize);
            Some(Ok((channel, payload)))
        } else {
            None
        }
    }
}

impl Default for InterleavedParser {
    #[inline]
    fn default() -> (r: InterleavedParser)
        ensures
            r@ is None,
    {
        InterleavedParser::new()
    }
}

} // verus!
