//! The incremental parser: fed with whatever has arrived, it says when a message is whole.

use crate::buf::{bytes_contents, bytes_mut_contents};
use crate::rtsp::buffer::{line_read, line_rest, ReadLine};
use crate::rtsp::error::{Error, ErrorView};
use crate::rtsp::message::{inserted, lookup, Headers, Version};
use crate::text::{
    bytes_eq, copy_of, lit, parse_number, parse_unsigned, split_once, split_once_at, starts_with,
    trim, trim_bytes, COLON,
};
use bytes::{Bytes, BytesMut};
use vstd::prelude::*;

verus! {

/// A kind of message: what its first line is, and how it is put together from a first line,
/// headers and a body.
pub trait Message: Sized + View {
    type Metadata: View;

    /// Reading of a first line.
    spec fn metadata_parsed(line: Seq<u8>) -> Result<<Self::Metadata as View>::V, ErrorView>;

    /// The message of a first line, headers and a body.
    spec fn assembled(
        metadata: <Self::Metadata as View>::V,
        headers: Seq<(Seq<u8>, Seq<u8>)>,
        body: Option<Seq<u8>>,
    ) -> Self::V;

    fn parse_metadata(line: &[u8]) -> (r: Result<Self::Metadata, Error>)
        ensures
            match Self::metadata_parsed(line@) {
                Ok(metadata) => r matches Ok(m) && m@ == metadata,
                Err(e) => r matches Err(x) && x@ == e,
            },
    ;

    fn new(metadata: Self::Metadata, headers: Headers, body: Option<Bytes>) -> (r: Self)
        ensures
            r@ == Self::assembled(
                metadata@,
                headers@,
                match body {
                    Some(body) => Some(bytes_contents(body)),
                    None => None,
                },
            ),
    ;
}

/// Reading of a version token within `line`.
pub open spec fn version_parsed(part: Seq<u8>, line: Seq<u8>) -> Result<Version, ErrorView> {
    match Version::of_text(part) {
        Some(version) => Ok(version),
        None => Err(ErrorView::VersionMalformed { line, version: part }),
    }
}

pub fn parse_version(part: &[u8], line: &[u8]) -> (r: Result<Version, Error>)
    ensures
        match version_parsed(part@, line@) {
            Ok(version) => r matches Ok(v) && v == version,
            Err(e) => r matches Err(x) && x@ == e,
        },
{
    if bytes_eq(part, "RTSP/1.0".as_bytes()) {
        Ok(Version::V1)
    } else if bytes_eq(part, "RTSP/2.0".as_bytes()) {
        Ok(Version::V2)
    } else if starts_with(part, "RTSP/".as_bytes()) {
        Ok(Version::Unknown)
    } else {
        Err(Error::VersionMalformed { line: copy_of(line), version: copy_of(part) })
    }
}

/// Reading of a header line: the name before the first colon and the value behind it, both
/// trimmed.
pub open spec fn header_parsed(line: Seq<u8>) -> Result<(Seq<u8>, Seq<u8>), ErrorView> {
    match split_once(line, COLON) {
        Some((var, val)) => Ok((trim(var), trim(val))),
        None => Err(ErrorView::HeaderMalformed { line }),
    }
}

pub fn parse_header(line: &[u8]) -> (r: Result<(Vec<u8>, Vec<u8>), Error>)
    ensures
        match header_parsed(line@) {
            Ok((var, val)) => r matches Ok(h) && h.0@ == var && h.1@ == val,
            Err(e) => r matches Err(x) && x@ == e,
        },
{
    match split_once_at(line, COLON) {
        Some((var, val)) => Ok((copy_of(trim_bytes(var)), copy_of(trim_bytes(val)))),
        None => Err(Error::HeaderMalformed { line: copy_of(line) }),
    }
}

/// What the parser says after it was fed.
#[derive(Debug, Clone, Copy, PartialEq, Eq, Structural)]
pub enum Status {
    /// More bytes are needed.
    Hungry,
    /// A whole message is there.
    Done,
}

/// Where the parser is within the head of a message.
#[derive(Debug, Clone, Copy, PartialEq, Eq, Structural)]
pub enum Head {
    FirstLine,
    Header,
    Done,
}

/// Where the parser is within the body of a message.
#[derive(Debug, Clone, Copy, PartialEq, Eq, Structural)]
pub enum Body {
    Incomplete,
    Complete,
}

/// Where the parser is within a message.
#[derive(Debug, Clone, Copy, PartialEq, Eq, Structural)]
pub enum State {
    Head(Head),
    Body(Body),
}

/// A buffer that the parser can be fed from: lines come off its front, and so do runs of
/// bytes of a given length.
pub trait Feed: ReadLine {
    /// The number of bytes that are yet to be read.
    fn remaining(&self) -> (n: usize)
        ensures
            n == self.unread().len(),
    ;

    /// The bytes that are yet to be read.
    fn chunk(&self) -> (s: &[u8])
        ensures
            s@ == self.unread(),
    ;

    /// Takes the first `len` bytes out of the buffer.
    fn copy_to_bytes(&mut self, len: usize) -> (taken: Bytes)
        requires
            len <= old(self).unread().len(),
        ensures
            bytes_contents(taken) == old(self).unread().take(len as int),
            final(self).unread() == old(self).unread().skip(len as int),
    ;
}

impl Feed for BytesMut {
    fn remaining(&self) -> (n: usize) {
        self.len()
    }

    fn chunk(&self) -> (s: &[u8]) {
        crate::buf::bytes_mut_as_slice(self)
    }

    fn copy_to_bytes(&mut self, len: usize) -> (taken: Bytes) {
        let taken = self.split_to(len).freeze();
        assert(old(self).unread().subrange(0, len as int) =~= old(self).unread().take(len as int));
        assert(old(self).unread().subrange(len as int, old(self).unread().len() as int)
            =~= old(self).unread().skip(len as int));
        taken
    }
}

impl Feed for Bytes {
    fn remaining(&self) -> (n: usize) {
        self.len()
    }

    fn chunk(&self) -> (s: &[u8]) {
        crate::buf::bytes_as_slice(self)
    }

    fn copy_to_bytes(&mut self, len: usize) -> (taken: Bytes) {
        let taken = self.split_to(len);
        assert(old(self).unread().subrange(0, len as int) =~= old(self).unread().take(len as int));
        assert(old(self).unread().subrange(len as int, old(self).unread().len() as int)
            =~= old(self).unread().skip(len as int));
        taken
    }
}

/// Incremental parser for one message.
#[derive(Debug)]
pub struct Parser<M: Message> {
    state: State,
    metadata: Option<M::Metadata>,
    headers: Headers,
    body: Option<Bytes>,
}

pub type RequestParser = Parser<crate::rtsp::request::Request>;

pub type ResponseParser = Parser<crate::rtsp::response::Response>;

/// What a parser holds: where it is, and what it has read so far.
pub struct ParserView<V> {
    pub state: State,
    pub metadata: Option<V>,
    pub headers: Seq<(Seq<u8>, Seq<u8>)>,
    pub body: Option<Seq<u8>>,
}

/// What came of feeding a parser: the parser and the buffer afterwards, and what the parser
/// said.
pub struct Fed<V> {
    pub parser: ParserView<V>,
    pub buffer: Seq<u8>,
    pub said: Result<Status, ErrorView>,
}

impl<M: Message> View for Parser<M> {
    type V = ParserView<<M::Metadata as View>::V>;

    closed spec fn view(&self) -> Self::V {
        ParserView {
            state: self.state,
            metadata: match self.metadata {
                Some(metadata) => Some(metadata@),
                None => None,
            },
            headers: self.headers@,
            body: match self.body {
                Some(body) => Some(bytes_contents(body)),
                None => None,
            },
        }
    }
}

/// What came of reading head lines: the first line and the headers read so far, the buffer
/// afterwards, and where in the head the reading stopped.
pub struct HeadRead<V> {
    pub metadata: Option<V>,
    pub headers: Seq<(Seq<u8>, Seq<u8>)>,
    pub buffer: Seq<u8>,
    pub head: Result<Head, ErrorView>,
}

/// Reading of one head line, already trimmed, at place `head`.
pub open spec fn head_line_read<M: Message>(
    metadata: Option<<M::Metadata as View>::V>,
    headers: Seq<(Seq<u8>, Seq<u8>)>,
    line: Seq<u8>,
    head: Head,
) -> (Option<<M::Metadata as View>::V>, Seq<(Seq<u8>, Seq<u8>)>, Result<Head, ErrorView>) {
    match head {
        Head::FirstLine => match M::metadata_parsed(line) {
            Ok(first) => (Some(first), headers, Ok(Head::Header)),
            Err(e) => (metadata, headers, Err(e)),
        },
        Head::Header => if line.len() > 0 {
            match header_parsed(line) {
                Ok((var, val)) => (metadata, inserted(headers, var, val), Ok(Head::Header)),
                Err(e) => (metadata, headers, Err(e)),
            }
        } else {
            (metadata, headers, Ok(Head::Done))
        },
        Head::Done => (metadata, headers, Err(ErrorView::HeadAlreadyDone)),
    }
}

/// Reading of head lines from `buffer` for as long as there are whole lines and the head is
/// not done.
pub open spec fn head_read<M: Message>(
    metadata: Option<<M::Metadata as View>::V>,
    headers: Seq<(Seq<u8>, Seq<u8>)>,
    buffer: Seq<u8>,
    head: Head,
) -> HeadRead<<M::Metadata as View>::V>
    decreases buffer.len(),
{
    if head == Head::Done {
        HeadRead { metadata, headers, buffer, head: Ok(head) }
    } else {
        match line_read(buffer) {
            None => HeadRead { metadata, headers, buffer, head: Ok(head) },
            Some(Err(e)) => HeadRead { metadata, headers, buffer: line_rest(buffer), head: Err(e) },
            Some(Ok(line)) => {
                let (metadata, headers, next) = head_line_read::<M>(
                    metadata,
                    headers,
                    trim(line),
                    head,
                );
                match next {
                    Ok(next) if line_rest(buffer).len() < buffer.len() => head_read::<M>(
                        metadata,
                        headers,
                        line_rest(buffer),
                        next,
                    ),
                    _ => HeadRead { metadata, headers, buffer: line_rest(buffer), head: next },
                }
            },
        }
    }
}

/// The body length that the headers announce.
pub open spec fn content_length(headers: Seq<(Seq<u8>, Seq<u8>)>) -> Result<Option<usize>, ErrorView> {
    match lookup(headers, lit("Content-Length")) {
        Some(value) => match parse_unsigned(value, usize::MAX as nat) {
            Some(length) => Ok(Some(length as usize)),
            None => Err(ErrorView::ContentLengthNotInteger { value }),
        },
        None => Ok(None),
    }
}

/// Reading of the body: once as many bytes are there as the headers announce, they are the
/// body.
pub open spec fn body_read<V>(parser: ParserView<V>, buffer: Seq<u8>) -> Fed<V> {
    match content_length(parser.headers) {
        Err(e) => Fed { parser, buffer, said: Err(e) },
        Ok(None) => Fed { parser, buffer, said: Err(ErrorView::ContentLengthMissing) },
        Ok(Some(need)) => if buffer.len() >= need {
            Fed {
                parser: ParserView {
                    state: State::Body(Body::Complete),
                    body: Some(buffer.take(need as int)),
                    ..parser
                },
                buffer: buffer.skip(need as int),
                said: Ok(Status::Done),
            }
        } else {
            Fed { parser, buffer, said: Ok(Status::Hungry) }
        },
    }
}

/// Feeding a parser with `buffer`. In the head, whole lines are read: the first line, then
/// headers up to the empty line. With a `Content-Length` header a body of that length
/// follows; without one the message is whole at the empty line. The parser takes no byte
/// beyond the message. An error leaves the parser's place where it was.
pub open spec fn fed<M: Message>(
    parser: ParserView<<M::Metadata as View>::V>,
    buffer: Seq<u8>,
) -> Fed<<M::Metadata as View>::V> {
    match parser.state {
        State::Head(head) => {
            let read = head_read::<M>(parser.metadata, parser.headers, buffer, head);
            let parser = ParserView { metadata: read.metadata, headers: read.headers, ..parser };
            match read.head {
                Err(e) => Fed { parser, buffer: read.buffer, said: Err(e) },
                Ok(Head::Done) => if lookup(read.headers, lit("Content-Length")) is Some {
                    body_read(
                        ParserView { state: State::Body(Body::Incomplete), ..parser },
                        read.buffer,
                    )
                } else {
                    Fed {
                        parser: ParserView { state: State::Body(Body::Complete), ..parser },
                        buffer: read.buffer,
                        said: Ok(Status::Done),
                    }
                },
                Ok(next) => Fed {
                    parser: ParserView { state: State::Head(next), ..parser },
                    buffer: read.buffer,
                    said: Ok(Status::Hungry),
                },
            }
        },
        State::Body(Body::Incomplete) => body_read(parser, buffer),
        State::Body(Body::Complete) => Fed {
            parser,
            buffer,
            said: Err(ErrorView::BodyAlreadyDone),
        },
    }
}

/// The message that a parser holds once it is done.
pub open spec fn message_of<M: Message>(parser: ParserView<<M::Metadata as View>::V>) -> Result<
    M::V,
    ErrorView,
> {
    match parser.state {
        State::Body(Body::Complete) => match parser.metadata {
            Some(metadata) => Ok(M::assembled(metadata, parser.headers, parser.body)),
            None => Err(ErrorView::MetadataNotParsed),
        },
        _ => Err(ErrorView::NotDone),
    }
}

/// A parser that has read nothing yet.
pub open spec fn fresh<V>() -> ParserView<V> {
    ParserView {
        state: State::Head(Head::FirstLine),
        metadata: None,
        headers: Seq::<(Seq<u8>, Seq<u8>)>::empty(),
        body: None,
    }
}

impl<M: Message> Parser<M> {
    /// A parser that has read nothing yet.
    pub fn new() -> (r: Self)
        ensures
            r@ == fresh::<<M::Metadata as View>::V>(),
    {
        Parser {
            state: State::Head(Head::FirstLine),
            metadata: None,
            headers: Headers::new(),
            body: None,
        }
    }

    /// The message, once the parser is done.
    pub fn into_message(self) -> (r: Result<M, Error>)
        ensures
            match message_of::<M>(self@) {
                Ok(message) => r matches Ok(m) && m@ == message,
                Err(e) => r matches Err(x) && x@ == e,
            },
    {
        match self.state {
            State::Body(Body::Complete) => match self.metadata {
                Some(metadata) => Ok(M::new(metadata, self.headers, self.body)),
                None => Err(Error::MetadataNotParsed),
            },
            _ => Err(Error::NotDone),
        }
    }

    /// Feeds the parser with what `buffer` holds. The parser takes what belongs to its
    /// message off the front of `buffer` and says whether the message is whole.
    pub fn parse<B: Feed>(&mut self, buffer: &mut B) -> (r: Result<Status, Error>)
        ensures
            final(self)@ == fed::<M>(old(self)@, old(buffer).unread()).parser,
            final(buffer).unread() == fed::<M>(old(self)@, old(buffer).unread()).buffer,
            match fed::<M>(old(self)@, old(buffer).unread()).said {
                Ok(status) => r matches Ok(s) && s == status,
                Err(e) => r matches Err(x) && x@ == e,
            },
    {
        match self.state {
            State::Head(head) => {
                let next_head = match self.parse_inner_head(buffer, head) {
                    Ok(next_head) => next_head,
                    Err(e) => {
                        return Err(e);
                    },
                };
                match next_head {
                    Head::Done => {
                        if self.have_content_length() {
                            self.state = State::Body(Body::Incomplete);
                            self.parse_inner_body(buffer)
                        } else {
                            self.state = State::Body(Body::Complete);
                            Ok(Status::Done)
                        }
                    },
                    _ => {
                        self.state = State::Head(next_head);
                        Ok(Status::Hungry)
                    },
                }
            },
            State::Body(Body::Incomplete) => self.parse_inner_body(buffer),
            State::Body(Body::Complete) => Err(Error::BodyAlreadyDone),
        }
    }

    fn parse_inner_body<B: Feed>(&mut self, buffer: &mut B) -> (r: Result<Status, Error>)
        ensures
            final(self)@ == body_read(old(self)@, old(buffer).unread()).parser,
            final(buffer).unread() == body_read(old(self)@, old(buffer).unread()).buffer,
            match body_read(old(self)@, old(buffer).unread()).said {
                Ok(status) => r matches Ok(s) && s == status,
                Err(e) => r matches Err(x) && x@ == e,
            },
    {
        let need = match self.find_content_length() {
            Ok(Some(need)) => need,
            Ok(None) => {
                return Err(Error::ContentLengthMissing);
            },
            Err(e) => {
                return Err(e);
            },
        };
        let got = buffer.remaining();
        if got >= need {
            self.body = Some(buffer.copy_to_bytes(need));
            self.state = State::Body(Body::Complete);
            Ok(Status::Done)
        } else {
            Ok(Status::Hungry)
        }
    }

    fn parse_inner_head<B: Feed>(&mut self, buffer: &mut B, head: Head) -> (r: Result<Head, Error>)
        ensures
            final(self)@.state == old(self)@.state,
            final(self)@.body == old(self)@.body,
            final(self)@.metadata == head_read::<M>(
                old(self)@.metadata,
                old(self)@.headers,
                old(buffer).unread(),
                head,
            ).metadata,
            final(self)@.headers == head_read::<M>(
                old(self)@.metadata,
                old(self)@.headers,
                old(buffer).unread(),
                head,
            ).headers,
            final(buffer).unread() == head_read::<M>(
                old(self)@.metadata,
                old(self)@.headers,
                old(buffer).unread(),
                head,
            ).buffer,
            match head_read::<M>(
                old(self)@.metadata,
                old(self)@.headers,
                old(buffer).unread(),
                head,
            ).head {
                Ok(next) => r matches Ok(h) && h == next,
                Err(e) => r matches Err(x) && x@ == e,
            },
    {
        let mut at = head;
        let ghost goal = head_read::<M>(
            old(self)@.metadata,
            old(self)@.headers,
            old(buffer).unread(),
            head,
        );
        loop
            invariant
                self@.state == old(self)@.state,
                self@.body == old(self)@.body,
                goal == head_read::<M>(
                    old(self)@.metadata,
                    old(self)@.headers,
                    old(buffer).unread(),
                    head,
                ),
                head_read::<M>(self@.metadata, self@.headers, buffer.unread(), at) == goal,
            decreases buffer.unread().len(),
        {
            if at == Head::Done {
                return Ok(at);
            }
            let ghost before = buffer.unread();
            proof {
                lemma_line_rest_shorter(before);
            }
            let line = match buffer.read_line() {
                Some(Ok(line)) => line,
                Some(Err(e)) => {
                    return Err(e);
                },
                None => {
                    return Ok(at);
                },
            };
            match Self::parse_inner_head_line(
                &mut self.metadata,
                &mut self.headers,
                line.as_slice(),
                at,
            ) {
                Ok(next) => {
                    at = next;
                },
                Err(e) => {
                    return Err(e);
                },
            }
        }
    }

    fn parse_inner_head_line(
        metadata: &mut Option<M::Metadata>,
        headers: &mut Headers,
        line: &[u8],
        head: Head,
    ) -> (r: Result<Head, Error>)
        ensures
            ({
                let read = head_line_read::<M>(
                    match *old(metadata) {
                        Some(m) => Some(m@),
                        None => None,
                    },
                    old(headers)@,
                    trim(line@),
                    head,
                );
                &&& (match *final(metadata) {
                    Some(m) => Some(m@),
                    None => None,
                }) == read.0
                &&& final(headers)@ == read.1
                &&& match read.2 {
                    Ok(next) => r matches Ok(h) && h == next,
                    Err(e) => r matches Err(x) && x@ == e,
                }
            }),
    {
        let line = trim_bytes(line);
        match head {
            Head::FirstLine => match M::parse_metadata(line) {
                Ok(first) => {
                    *metadata = Some(first);
                    Ok(Head::Header)
                },
                Err(e) => Err(e),
            },
            Head::Header => {
                if line.len() > 0 {
                    match parse_header(line) {
                        Ok((var, val)) => {
                            headers.insert(var, val);
                            Ok(Head::Header)
                        },
                        Err(e) => Err(e),
                    }
                } else {
                    Ok(Head::Done)
                }
            },
            Head::Done => Err(Error::HeadAlreadyDone),
        }
    }

    fn have_content_length(&self) -> (r: bool)
        ensures
            r == (lookup(self@.headers, lit("Content-Length")) is Some),
    {
        self.headers.contains("Content-Length".as_bytes())
    }

    fn find_content_length(&self) -> (r: Result<Option<usize>, Error>)
        ensures
            match content_length(self@.headers) {
                Ok(length) => r matches Ok(l) && l == length,
                Err(e) => r matches Err(x) && x@ == e,
            },
    {
        match self.headers.get("Content-Length".as_bytes()) {
            Some(value) => match parse_number(value.as_slice(), usize::MAX as u64) {
                Some(length) => Ok(Some(length as usize)),
                None => Err(Error::ContentLengthNotInteger { value: copy_of(value.as_slice()) }),
            },
            None => Ok(None),
        }
    }

    /// Feeds the parser with `buffer` and hands out the message, if `buffer` holds a whole
    /// one.
    pub fn parse_and_into<B: Feed>(self, buffer: B) -> (r: Result<M, Error>)
        ensures
            match fed::<M>(self@, buffer.unread()).said {
                Err(e) => r matches Err(x) && x@ == e,
                Ok(_) => match message_of::<M>(fed::<M>(self@, buffer.unread()).parser) {
                    Ok(message) => r matches Ok(m) && m@ == message,
                    Err(e) => r matches Err(x) && x@ == e,
                },
            },
    {
        let mut parser = self;
        let mut buffer = buffer;
        match parser.parse(&mut buffer) {
            Ok(_) => parser.into_message(),
            Err(e) => Err(e),
        }
    }
}

/// A line that was read is gone from the buffer.
pub proof fn lemma_line_rest_shorter(buffer: Seq<u8>)
    ensures
        line_read(buffer) is Some ==> line_rest(buffer).len() < buffer.len(),
        line_read(buffer) is None ==> line_rest(buffer) == buffer,
{
    crate::rtsp::buffer::lemma_first_break(buffer);
}

impl Parser<crate::rtsp::request::Request> {
    #[inline]
    pub fn parse_and_into_request<B: Feed>(self, buffer: B) -> (r: Result<
        crate::rtsp::request::Request,
        Error,
    >)
        ensures
            match fed::<crate::rtsp::request::Request>(self@, buffer.unread()).said {
                Err(e) => r matches Err(x) && x@ == e,
                Ok(_) => match message_of::<crate::rtsp::request::Request>(
                    fed::<crate::rtsp::request::Request>(self@, buffer.unread()).parser,
                ) {
                    Ok(message) => r matches Ok(m) && m@ == message,
                    Err(e) => r matches Err(x) && x@ == e,
                },
            },
    {
        self.parse_and_into(buffer)
    }

    #[inline]
    pub fn into_request(self) -> (r: Result<crate::rtsp::request::Request, Error>)
        ensures
            match message_of::<crate::rtsp::request::Request>(self@) {
                Ok(message) => r matches Ok(m) && m@ == message,
                Err(e) => r matches Err(x) && x@ == e,
            },
    {
        self.into_message()
    }
}

impl Parser<crate::rtsp::response::Response> {
    #[inline]
    pub fn parse_and_into_response<B: Feed>(self, buffer: B) -> (r: Result<
        crate::rtsp::response::Response,
        Error,
    >)
        ensures
            match fed::<crate::rtsp::response::Response>(self@, buffer.unread()).said {
                Err(e) => r matches Err(x) && x@ == e,
                Ok(_) => match message_of::<crate::rtsp::response::Response>(
                    fed::<crate::rtsp::response::Response>(self@, buffer.unread()).parser,
                ) {
                    Ok(message) => r matches Ok(m) && m@ == message,
                    Err(e) => r matches Err(x) && x@ == e,
                },
            },
    {
        self.parse_and_into(buffer)
    }

    #[inline]
    pub fn into_response(self) -> (r: Result<crate::rtsp::response::Response, Error>)
        ensures
            match message_of::<crate::rtsp::response::Response>(self@) {
                Ok(message) => r matches Ok(m) && m@ == message,
                Err(e) => r matches Err(x) && x@ == e,
            },
    {
        self.into_message()
    }
}

} // verus!
