//! Telling messages and interleaved frames apart on one byte stream.

use crate::buf::bytes_mut_contents;
use crate::rtsp::buffer::ReadLine;
use crate::rtsp::error::{Error, ErrorView};
use crate::rtsp::interleaved::{
    frame_fed, InterleavedParser, MaybeInterleaved, MaybeInterleavedView, Serialize, MAGIC,
};
use crate::rtsp::io::Target;
use crate::rtsp::parse::{fed, fresh, message_of, Feed, Message, Parser, ParserView, Status};
use bytes::BytesMut;
use vstd::prelude::*;

verus! {

/// What the codec is reading.
#[derive(Debug, Clone, Copy, PartialEq, Eq, Structural)]
pub enum CodecState {
    /// Nothing yet: the next byte decides.
    Init,
    /// A message.
    ParseMessage,
    /// An interleaved frame.
    ParseInterleaved,
}

/// Decoder and encoder for one end of a connection.
pub struct Codec<T: Target> {
    state: CodecState,
    parser: Parser<T::Inbound>,
    interleaved_parser: InterleavedParser,
}

/// The view of what a message parser for `M` has read of the first line.
pub type MetadataView<M> = <<M as Message>::Metadata as View>::V;

pub struct CodecView<V> {
    pub state: CodecState,
    pub parser: ParserView<V>,
    pub interleaved_parser: Option<(u8, u16)>,
}

impl<T: Target> View for Codec<T> {
    type V = CodecView<MetadataView<T::Inbound>>;

    closed spec fn view(&self) -> Self::V {
        CodecView {
            state: self.state,
            parser: self.parser@,
            interleaved_parser: self.interleaved_parser@,
        }
    }
}

/// What came of one decoding step: the codec and the buffer afterwards, and the item that
/// became whole, if one did.
pub struct Decoded<V, MV> {
    pub codec: CodecView<V>,
    pub buffer: Seq<u8>,
    pub item: Result<Option<MaybeInterleavedView<MV>>, ErrorView>,
}

/// A codec that has read nothing yet.
pub open spec fn idle<V>() -> CodecView<V> {
    CodecView { state: CodecState::Init, parser: fresh::<V>(), interleaved_parser: None }
}

/// One decoding step. With nothing begun, the first byte decides: `$` begins an interleaved
/// frame, anything else a message. Then the parser for the one or the other is fed. Once an
/// item is whole the codec begins anew.
pub open spec fn decoded<M: Message>(codec: CodecView<MetadataView<M>>, buffer: Seq<u8>) -> Decoded<
    MetadataView<M>,
    M::V,
> {
    let state = if codec.state == CodecState::Init && buffer.len() > 0 {
        if buffer[0] == MAGIC {
            CodecState::ParseInterleaved
        } else {
            CodecState::ParseMessage
        }
    } else {
        codec.state
    };
    match state {
        CodecState::Init => Decoded { codec, buffer, item: Ok(None) },
        CodecState::ParseMessage => {
            let f = fed::<M>(codec.parser, buffer);
            match f.said {
                Err(e) => Decoded {
                    codec: CodecView { state, parser: f.parser, ..codec },
                    buffer: f.buffer,
                    item: Err(e),
                },
                Ok(Status::Hungry) => Decoded {
                    codec: CodecView { state, parser: f.parser, ..codec },
                    buffer: f.buffer,
                    item: Ok(None),
                },
                Ok(Status::Done) => Decoded {
                    codec: CodecView { state: CodecState::Init, parser: fresh(), ..codec },
                    buffer: f.buffer,
                    item: match message_of::<M>(f.parser) {
                        Ok(message) => Ok(Some(MaybeInterleavedView::Message(message))),
                        Err(e) => Err(e),
                    },
                },
            }
        },
        CodecState::ParseInterleaved => {
            let f = frame_fed(codec.interleaved_parser, buffer);
            match f.frame {
                None => Decoded {
                    codec: CodecView { state, interleaved_parser: f.channel_and_size, ..codec },
                    buffer: f.buffer,
                    item: Ok(None),
                },
                Some(Err(e)) => Decoded {
                    codec: CodecView { state, interleaved_parser: f.channel_and_size, ..codec },
                    buffer: f.buffer,
                    item: Err(e),
                },
                Some(Ok((channel, payload))) => Decoded {
                    codec: CodecView { state: CodecState::Init, interleaved_parser: None, ..codec },
                    buffer: f.buffer,
                    item: Ok(Some(MaybeInterleavedView::Interleaved { channel, payload })),
                },
            }
        },
    }
}

impl<T: Target> Codec<T> {
    /// A codec that has read nothing yet.
    pub fn new() -> (r: Self)
        ensures
            r@ == idle::<MetadataView<T::Inbound>>(),
    {
        Codec {
            state: CodecState::Init,
            parser: Parser::<T::Inbound>::new(),
            interleaved_parser: InterleavedParser::new(),
        }
    }

    /// Takes the next item off the front of `src`, if `src` holds a whole one.
    pub fn decode(&mut self, src: &mut BytesMut) -> (r: Result<
        Option<MaybeInterleaved<T::Inbound>>,
        Error,
    >)
        ensures
            final(self)@ == decoded::<T::Inbound>(old(self)@, bytes_mut_contents(*old(src))).codec,
            bytes_mut_contents(*final(src)) == decoded::<T::Inbound>(
                old(self)@,
                bytes_mut_contents(*old(src)),
            ).buffer,
            match decoded::<T::Inbound>(old(self)@, bytes_mut_contents(*old(src))).item {
                Ok(Some(item)) => r matches Ok(Some(i)) && i@ == item,
                Ok(None) => r matches Ok(None),
                Err(e) => r matches Err(x) && x@ == e,
            },
    {
        if let CodecState::Init = self.state {
            if src.remaining() > 0 {
                if src.chunk()[0] == MAGIC {
                    self.state = CodecState::ParseInterleaved;
                } else {
                    self.state = CodecState::ParseMessage;
                }
            } else {
                return Ok(None);
            }
        }
        match self.state {
            CodecState::Init => Ok(None),
            CodecState::ParseMessage => match self.parser.parse(src) {
                Ok(Status::Done) => {
                    self.state = CodecState::Init;
                    let mut parser = Parser::<T::Inbound>::new();
                    core::mem::swap(&mut self.parser, &mut parser);
                    match parser.into_message() {
                        Ok(message) => Ok(Some(MaybeInterleaved::Message(message))),
                        Err(e) => Err(e),
                    }
                },
                Ok(Status::Hungry) => Ok(None),
                Err(e) => Err(e),
            },
            CodecState::ParseInterleaved => match self.interleaved_parser.parse(src) {
                Some(Ok((channel, payload))) => {
                    self.state = CodecState::Init;
                    self.interleaved_parser = InterleavedParser::new();
                    Ok(Some(MaybeInterleaved::Interleaved { channel, payload }))
                },
                Some(Err(e)) => Err(e),
                None => Ok(None),
            },
        }
    }

    /// Appends the wire form of `item` to `dst`.
    pub fn encode(&mut self, item: MaybeInterleaved<T::Outbound>, dst: &mut BytesMut) -> (r: Result<
        (),
        Error,
    >)
        ensures
            final(self)@ == old(self)@,
            match <MaybeInterleaved<T::Outbound> as Serialize>::wire_form(item@) {
                Ok(wire) => r is Ok && bytes_mut_contents(*final(dst)) == bytes_mut_contents(
                    *old(dst),
                ) + wire,
                Err(e) => {
                    &&& r matches Err(x) && x@ == e
                    &&& bytes_mut_contents(*final(dst)) == bytes_mut_contents(*old(dst))
                },
            },
    {
        item.serialize(dst)
    }
}

} // verus!
