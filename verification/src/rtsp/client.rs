//! The client's side of the dialogue: which request goes out next, and what a reply means.
//!
//! Sending and receiving is not done here. The functions of this module decide; whoever owns
//! the connection sends the request that they hand out and hands back what came in.

use crate::rtsp::error::{Error, ErrorView};
use crate::rtsp::message::{
    extended, lookup, status_category, Headers, Method, StatusCategory, Version,
};
use crate::rtsp::parse::Message;
use crate::rtsp::request::{all_trimmed, Request, RequestMetadata, RequestView};
use crate::rtsp::response::{Response, ResponseView};
use crate::rtsp::uri::{http_path_and_query, Uri, UriView};
use crate::text::{
    bytes_eq, copy_of, decimal, lit, option_view, split, split_at_each, trim, trim_bytes, views,
    COMMA,
};
use vstd::prelude::*;

verus! {

/// How many requests one exchange may take, redirects included.
pub const MAXIMUM_REDIRECTS: usize = 20;

/// The port of a target that names none.
pub const DEFAULT_PORT: u16 = 554;

/// Counts requests: every request of a connection gets the next number.
pub struct Sequencer {
    sequence_number: usize,
}

impl View for Sequencer {
    type V = usize;

    closed spec fn view(&self) -> usize {
        self.sequence_number
    }
}

impl Sequencer {
    /// A sequencer that starts at zero.
    pub fn new() -> (r: Sequencer)
        ensures
            r@ == 0,
    {
        Sequencer { sequence_number: 0 }
    }

    /// The next number: one more each time.
    #[inline]
    pub fn sequence(&mut self) -> (n: usize)
        requires
            old(self)@ < usize::MAX,
        ensures
            n == old(self)@,
            final(self)@ == old(self)@ + 1,
    {
        let sequence_number = self.sequence_number;
        self.sequence_number += 1;
        sequence_number
    }
}

impl Default for Sequencer {
    #[inline]
    fn default() -> (r: Sequencer)
        ensures
            r@ == 0,
    {
        Sequencer::new()
    }
}

/// Why the dialogue with a server failed.
#[derive(Debug)]
pub enum ClientError {
    /// The target has no authority.
    UriMissingAuthority,
    /// The target's scheme is not `rtsp`.
    UriUnsupportedProtocolScheme { scheme: Vec<u8> },
    /// The target has no scheme.
    UriMissingProtocolScheme,
    /// The server answered with a status that is neither success nor redirection.
    Status(Response),
    /// What came in was no RTSP.
    Protocol(Error),
    /// The answer to `DESCRIBE` has no body.
    MissingSdp,
    /// The body of the answer to `DESCRIBE` is no session description.
    InvalidSdp(crate::sdp::error::Error),
    /// The connection was closed before the answer came.
    ConnectionClosed,
    /// An interleaved frame came where the answer was due.
    UnexpectedInterleavedMessage,
    /// A redirect has no `Location`, or one that is no path.
    InvalidRedirect,
    /// The server redirected too many times in a row.
    MaximumNumberOfRedirectsReached,
}

pub enum ClientErrorView {
    UriMissingAuthority,
    UriUnsupportedProtocolScheme { scheme: Seq<u8> },
    UriMissingProtocolScheme,
    Status(ResponseView),
    Protocol(ErrorView),
    MissingSdp,
    InvalidSdp(crate::sdp::error::ErrorView),
    ConnectionClosed,
    UnexpectedInterleavedMessage,
    InvalidRedirect,
    MaximumNumberOfRedirectsReached,
}

impl View for ClientError {
    type V = ClientErrorView;

    open spec fn view(&self) -> ClientErrorView {
        match *self {
            ClientError::UriMissingAuthority => ClientErrorView::UriMissingAuthority,
            ClientError::UriUnsupportedProtocolScheme {
                scheme,
            } => ClientErrorView::UriUnsupportedProtocolScheme { scheme: scheme@ },
            ClientError::UriMissingProtocolScheme => ClientErrorView::UriMissingProtocolScheme,
            ClientError::Status(response) => ClientErrorView::Status(response@),
            ClientError::Protocol(error) => ClientErrorView::Protocol(error@),
            ClientError::MissingSdp => ClientErrorView::MissingSdp,
            ClientError::InvalidSdp(error) => ClientErrorView::InvalidSdp(error@),
            ClientError::ConnectionClosed => ClientErrorView::ConnectionClosed,
            ClientError::UnexpectedInterleavedMessage => ClientErrorView::UnexpectedInterleavedMessage,
            ClientError::InvalidRedirect => ClientErrorView::InvalidRedirect,
            ClientError::MaximumNumberOfRedirectsReached => ClientErrorView::MaximumNumberOfRedirectsReached,
        }
    }
}

/// Where to connect for a target.
#[derive(Debug, Clone, PartialEq, Eq)]
pub struct Endpoint {
    pub host: Vec<u8>,
    pub port: u16,
}

/// Where to connect for `uri`: the host and the port of its authority, the port being 554
/// where the authority names none. The target needs an authority and the scheme `rtsp`.
pub open spec fn endpoint_of(uri: UriView) -> Result<(Seq<u8>, u16), ClientErrorView> {
    if uri.authority is None {
        Err(ClientErrorView::UriMissingAuthority)
    } else {
        match uri.scheme {
            Some(scheme) => if scheme == lit("rtsp") {
                Ok(
                    (
                        match uri.host {
                            Some(host) => host,
                            None => Seq::<u8>::empty(),
                        },
                        match uri.port {
                            Some(port) => port,
                            None => DEFAULT_PORT,
                        },
                    ),
                )
            } else {
                Err(ClientErrorView::UriUnsupportedProtocolScheme { scheme })
            },
            None => Err(ClientErrorView::UriMissingProtocolScheme),
        }
    }
}

/// Where to connect for `uri`.
pub fn endpoint(uri: &Uri) -> (r: Result<Endpoint, ClientError>)
    ensures
        match endpoint_of(uri@) {
            Ok((host, port)) => r matches Ok(e) && e.host@ == host && e.port == port,
            Err(e) => r matches Err(x) && x@ == e,
        },
{
    if uri.authority().is_none() {
        return Err(ClientError::UriMissingAuthority);
    }
    match uri.scheme() {
        Some(scheme) => {
            if bytes_eq(scheme.as_slice(), "rtsp".as_bytes()) {
                let host = match uri.host() {
                    Some(host) => copy_of(host.as_slice()),
                    None => Vec::new(),
                };
                let port = match uri.port() {
                    Some(port) => port,
                    None => DEFAULT_PORT,
                };
                Ok(Endpoint { host, port })
            } else {
                Err(ClientError::UriUnsupportedProtocolScheme { scheme: copy_of(scheme.as_slice()) })
            }
        },
        None => Err(ClientError::UriMissingProtocolScheme),
    }
}

/// What a client remembers of its connection between requests.
pub struct Dialogue {
    uri: Uri,
    sequencer: Sequencer,
    session: Option<Vec<u8>>,
}

pub struct DialogueView {
    pub uri: UriView,
    pub next_cseq: usize,
    pub session: Option<Seq<u8>>,
}

impl View for Dialogue {
    type V = DialogueView;

    closed spec fn view(&self) -> DialogueView {
        DialogueView {
            uri: self.uri@,
            next_cseq: self.sequencer@,
            session: option_view(self.session),
        }
    }
}

/// One request of the caller, which takes one request on the wire and one more for every
/// redirect.
pub struct Exchange {
    method: Method,
    headers: Headers,
    attempts: usize,
}

pub struct ExchangeView {
    pub method: Method,
    pub headers: Seq<(Seq<u8>, Seq<u8>)>,
    pub attempts: usize,
}

impl View for Exchange {
    type V = ExchangeView;

    closed spec fn view(&self) -> ExchangeView {
        ExchangeView { method: self.method, headers: self.headers@, attempts: self.attempts }
    }
}

/// What came in where an answer was due.
pub enum Reply {
    /// A response.
    Message(Response),
    /// An interleaved frame.
    Interleaved,
    /// The end of the stream.
    Closed,
    /// Something that is no RTSP.
    Failed(Error),
}

pub enum ReplyView {
    Message(ResponseView),
    Interleaved,
    Closed,
    Failed(ErrorView),
}

impl View for Reply {
    type V = ReplyView;

    open spec fn view(&self) -> ReplyView {
        match *self {
            Reply::Message(response) => ReplyView::Message(response@),
            Reply::Interleaved => ReplyView::Interleaved,
            Reply::Closed => ReplyView::Closed,
            Reply::Failed(error) => ReplyView::Failed(error@),
        }
    }
}

/// What a reply means for the exchange.
pub enum Outcome {
    /// The exchange is over: this is the answer.
    Done(Response),
    /// The server redirected: the request is to be made again.
    Retry,
    /// The exchange failed.
    Failed(ClientError),
}

pub enum OutcomeView {
    Done(ResponseView),
    Retry,
    Failed(ClientErrorView),
}

impl View for Outcome {
    type V = OutcomeView;

    open spec fn view(&self) -> OutcomeView {
        match *self {
            Outcome::Done(response) => OutcomeView::Done(response@),
            Outcome::Retry => OutcomeView::Retry,
            Outcome::Failed(error) => OutcomeView::Failed(error@),
        }
    }
}

/// The headers that the client itself puts on a request: `CSeq`, and `Session` once there is
/// one.
pub open spec fn own_headers(cseq: usize, session: Option<Seq<u8>>) -> Seq<(Seq<u8>, Seq<u8>)> {
    match session {
        Some(session) => seq![(lit("CSeq"), decimal(cseq as nat)), (lit("Session"), session)],
        None => seq![(lit("CSeq"), decimal(cseq as nat))],
    }
}

/// The next request of an exchange: the dialogue and the exchange afterwards, and the
/// request, or that the exchange has used up its attempts.
pub open spec fn requested(dialogue: DialogueView, exchange: ExchangeView) -> (
    DialogueView,
    ExchangeView,
    Result<RequestView, ClientErrorView>,
) {
    if exchange.attempts >= MAXIMUM_REDIRECTS {
        (dialogue, exchange, Err(ClientErrorView::MaximumNumberOfRedirectsReached))
    } else {
        (
            DialogueView { next_cseq: (dialogue.next_cseq + 1) as usize, ..dialogue },
            ExchangeView { attempts: (exchange.attempts + 1) as usize, ..exchange },
            Ok(
                RequestView {
                    method: exchange.method,
                    uri: dialogue.uri,
                    version: Version::V1,
                    headers: extended(
                        own_headers(dialogue.next_cseq, dialogue.session),
                        exchange.headers,
                    ),
                    body: None,
                },
            ),
        )
    }
}

/// The target after a redirect to `location`, if `location` is a path that the target can
/// take.
pub open spec fn redirect_target(uri: UriView, location: Seq<u8>) -> Option<UriView> {
    match http_path_and_query(location) {
        Some((path, query)) => uri.redirected(path, query),
        None => None,
    }
}

/// What `reply` means: the dialogue afterwards, and the outcome. A response of a success
/// status ends the exchange. A response of a redirection status moves the target to its
/// `Location`. Any other response fails the exchange, and so does anything that is no
/// response.
pub open spec fn replied(dialogue: DialogueView, reply: ReplyView) -> (DialogueView, OutcomeView) {
    match reply {
        ReplyView::Message(response) => match status_category(response.status) {
            StatusCategory::Success => (dialogue, OutcomeView::Done(response)),
            StatusCategory::Redirection => match lookup(response.headers, lit("Location")) {
                None => (dialogue, OutcomeView::Failed(ClientErrorView::InvalidRedirect)),
                Some(location) => match redirect_target(dialogue.uri, location) {
                    None => (dialogue, OutcomeView::Failed(ClientErrorView::InvalidRedirect)),
                    Some(uri) => (DialogueView { uri, ..dialogue }, OutcomeView::Retry),
                },
            },
            _ => (dialogue, OutcomeView::Failed(ClientErrorView::Status(response))),
        },
        ReplyView::Interleaved => (
            dialogue,
            OutcomeView::Failed(ClientErrorView::UnexpectedInterleavedMessage),
        ),
        ReplyView::Closed => (dialogue, OutcomeView::Failed(ClientErrorView::ConnectionClosed)),
        ReplyView::Failed(error) => (
            dialogue,
            OutcomeView::Failed(ClientErrorView::Protocol(error)),
        ),
    }
}

impl Exchange {
    /// An exchange that has sent nothing yet.
    pub fn new(method: Method, headers: Headers) -> (r: Exchange)
        ensures
            r@ == (ExchangeView { method, headers: headers@, attempts: 0 }),
    {
        Exchange { method, headers, attempts: 0 }
    }
}

impl Dialogue {
    /// A dialogue about `uri` that has sent nothing yet and has no session.
    pub fn new(uri: Uri) -> (r: Dialogue)
        ensures
            r@ == (DialogueView { uri: uri@, next_cseq: 0, session: None }),
    {
        Dialogue { uri, sequencer: Sequencer::new(), session: None }
    }

    /// Remembers the session that the server opened.
    pub fn set_session(&mut self, session: Vec<u8>)
        ensures
            final(self)@ == (DialogueView { session: Some(session@), ..old(self)@ }),
    {
        self.session = Some(session);
    }

    /// The target as it is now.
    pub fn uri(&self) -> (r: &Uri)
        ensures
            r@ == self@.uri,
    {
        &self.uri
    }

    /// The next request of `exchange`, to be sent as it is.
    pub fn next_request(&mut self, exchange: &mut Exchange) -> (r: Result<Request, ClientError>)
        requires
            old(self)@.next_cseq < usize::MAX,
        ensures
            final(self)@ == requested(old(self)@, old(exchange)@).0,
            final(exchange)@ == requested(old(self)@, old(exchange)@).1,
            match requested(old(self)@, old(exchange)@).2 {
                Ok(request) => r matches Ok(q) && q@ == request,
                Err(e) => r matches Err(x) && x@ == e,
            },
    {
        if exchange.attempts >= MAXIMUM_REDIRECTS {
            return Err(ClientError::MaximumNumberOfRedirectsReached);
        }
        exchange.attempts += 1;
        let cseq = self.sequencer.sequence();
        let mut headers = match &self.session {
            Some(session) => Headers::with_cseq_and_session(cseq, session.as_slice()),
            None => Headers::with_cseq(cseq),
        };
        headers.extend(exchange.headers.duplicate());
        Ok(
            <Request as Message>::new(
                RequestMetadata::new_v1(exchange.method, self.uri.duplicate()),
                headers,
                None,
            ),
        )
    }

    /// Takes what came in where the answer to the last request was due.
    pub fn on_reply(&mut self, reply: Reply) -> (r: Outcome)
        ensures
            final(self)@ == replied(old(self)@, reply@).0,
            r@ == replied(old(self)@, reply@).1,
    {
        match reply {
            Reply::Message(response) => match response.status() {
                StatusCategory::Success => Outcome::Done(response),
                StatusCategory::Redirection => {
                    let target = match response.headers.get("Location".as_bytes()) {
                        Some(location) => self.uri.redirected_to(location.as_slice()),
                        None => None,
                    };
                    match target {
                        Some(uri) => {
                            self.uri = uri;
                            Outcome::Retry
                        },
                        None => Outcome::Failed(ClientError::InvalidRedirect),
                    }
                },
                _ => Outcome::Failed(ClientError::Status(response)),
            },
            Reply::Interleaved => Outcome::Failed(ClientError::UnexpectedInterleavedMessage),
            Reply::Closed => Outcome::Failed(ClientError::ConnectionClosed),
            Reply::Failed(error) => Outcome::Failed(ClientError::Protocol(error)),
        }
    }
}

/// The methods among `names`, in order; what names no method is left out.
pub open spec fn methods_among(names: Seq<Seq<u8>>) -> Seq<Method>
    decreases names.len(),
{
    if names.len() == 0 {
        Seq::<Method>::empty()
    } else {
        match Method::of_text(names.last()) {
            Some(method) => methods_among(names.drop_last()).push(method),
            None => methods_among(names.drop_last()),
        }
    }
}

/// The methods that a response to `OPTIONS` announces in its header `Public`.
pub open spec fn public_methods(response: ResponseView) -> Seq<Method> {
    methods_among(
        all_trimmed(
            split(
                match lookup(response.headers, lit("Public")) {
                    Some(value) => value,
                    None => Seq::<u8>::empty(),
                },
                COMMA,
            ),
        ),
    )
}

/// The methods that a response to `OPTIONS` announces: the pieces of its header `Public`
/// between the commas, trimmed, as far as they name a method.
pub fn options_methods(response: &Response) -> (r: Vec<Method>)
    ensures
        r@ == public_methods(response@),
{
    let empty: Vec<u8> = Vec::new();
    let value = match response.headers.get("Public".as_bytes()) {
        Some(value) => value,
        None => &empty,
    };
    let pieces = split_at_each(value.as_slice(), COMMA);
    let ghost names = all_trimmed(views(pieces@));
    let mut methods: Vec<Method> = Vec::new();
    let mut i: usize = 0;
    assert(names.take(0) =~= Seq::<Seq<u8>>::empty());
    while i < pieces.len()
        invariant
            0 <= i <= pieces@.len(),
            names == all_trimmed(views(pieces@)),
            methods@ == methods_among(names.take(i as int)),
        decreases pieces@.len() - i,
    {
        proof {
            assert(names.take(i + 1).drop_last() =~= names.take(i as int));
            assert(names.take(i + 1).last() == trim(pieces@[i as int]@));
        }
        match Method::from_bytes(trim_bytes(pieces[i].as_slice())) {
            Ok(method) => {
                methods.push(method);
            },
            Err(_) => {},
        }
        i += 1;
    }
    assert(names.take(names.len() as int) =~= names);
    methods
}

/// The session description that a response to `DESCRIBE` carries in its body.
pub open spec fn described(response: ResponseView) -> Result<
    crate::sdp::sdp::SdpView,
    ClientErrorView,
> {
    match response.body {
        None => Err(ClientErrorView::MissingSdp),
        Some(body) => match crate::sdp::sdp::sdp_parsed(body) {
            Ok(sdp) => Ok(sdp),
            Err(e) => Err(ClientErrorView::InvalidSdp(e)),
        },
    }
}

/// The session description that a response to `DESCRIBE` carries in its body.
pub fn describe_sdp(response: &Response) -> (r: Result<crate::sdp::sdp::Sdp, ClientError>)
    ensures
        match described(response@) {
            Ok(sdp) => r matches Ok(s) && s@ == sdp,
            Err(e) => r matches Err(x) && x@ == e,
        },
{
    match &response.body {
        None => Err(ClientError::MissingSdp),
        Some(body) => match crate::sdp::sdp::Sdp::parse(crate::buf::bytes_as_slice(body)) {
            Ok(sdp) => Ok(sdp),
            Err(e) => Err(ClientError::InvalidSdp(e)),
        },
    }
}

impl ClientErrorView {
    /// What the error says, in words.
    pub open spec fn message(self) -> Seq<u8> {
        match self {
            ClientErrorView::UriMissingAuthority => lit("uri missing authority"),
            ClientErrorView::UriUnsupportedProtocolScheme { scheme } => lit(
                "uri has unsupported protocol scheme: ",
            ) + scheme,
            ClientErrorView::UriMissingProtocolScheme => lit("uri missing protocol scheme"),
            ClientErrorView::Status(response) => lit("response status code: ")
                + match crate::rtsp::message::Status::of_code(response.status) {
                Some(status) => status.text(),
                None => decimal(response.status as nat),
            },
            ClientErrorView::Protocol(error) => error.message(),
            ClientErrorView::MissingSdp => lit(
                "expected request to carry a session description but it does not",
            ),
            ClientErrorView::InvalidSdp(error) => error.message(),
            ClientErrorView::ConnectionClosed => lit("connection closed"),
            ClientErrorView::UnexpectedInterleavedMessage => lit(
                "received unexpected interleaved data response from server",
            ),
            ClientErrorView::InvalidRedirect => lit(
                "server issued redirect with missing or invalid location header",
            ),
            ClientErrorView::MaximumNumberOfRedirectsReached => lit(
                "server issued too many consecutive redirects",
            ),
        }
    }
}

impl ClientError {
    /// What the error says, in words.
    pub fn message(&self) -> (r: Vec<u8>)
        ensures
            r@ == self@.message(),
    {
        match self {
            ClientError::UriMissingAuthority => crate::text::text_of("uri missing authority"),
            ClientError::UriUnsupportedProtocolScheme { scheme } => {
                let mut out = crate::text::text_of("uri has unsupported protocol scheme: ");
                crate::text::push_all(&mut out, scheme.as_slice());
                out
            },
            ClientError::UriMissingProtocolScheme => crate::text::text_of(
                "uri missing protocol scheme",
            ),
            ClientError::Status(response) => {
                let mut out = crate::text::text_of("response status code: ");
                match crate::rtsp::message::status_from_code(response.status) {
                    Some(status) => crate::text::push_all(&mut out, status.to_bytes().as_slice()),
                    None => crate::text::push_decimal(&mut out, response.status as u64),
                }
                out
            },
            ClientError::Protocol(error) => error.message(),
            ClientError::MissingSdp => crate::text::text_of(
                "expected request to carry a session description but it does not",
            ),
            ClientError::InvalidSdp(error) => error.message(),
            ClientError::ConnectionClosed => crate::text::text_of("connection closed"),
            ClientError::UnexpectedInterleavedMessage => crate::text::text_of(
                "received unexpected interleaved data response from server",
            ),
            ClientError::InvalidRedirect => crate::text::text_of(
                "server issued redirect with missing or invalid location header",
            ),
            ClientError::MaximumNumberOfRedirectsReached => crate::text::text_of(
                "server issued too many consecutive redirects",
            ),
        }
    }
}

} // verus!
