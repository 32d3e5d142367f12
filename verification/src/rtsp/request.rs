//! RTSP requests.

use crate::buf::{bytes_as_slice, bytes_contents, bytes_mut_contents};
use crate::rtsp::error::{Error, ErrorView};
use crate::rtsp::message::{inserted, lookup, Headers, Method, Version};
use crate::rtsp::parse::{parse_version, version_parsed, Message};
use crate::rtsp::range::Range;
use crate::rtsp::serialize::{crlf, tail_wire, write_tail};
use crate::rtsp::transport::{Transport, TransportView};
use crate::rtsp::uri::{http_uri, Uri, UriView};
use crate::text::{
    copy_of, decimal, lit, push_all, split, split_at_each, text_of, trim, trim_bytes, views, COMMA,
    SLASH, SPACE,
};
use bytes::{Bytes, BytesMut};
use vstd::prelude::*;

verus! {

/// The contents of an optional byte buffer.
pub open spec fn body_view(body: Option<Bytes>) -> Option<Seq<u8>> {
    match body {
        Some(body) => Some(bytes_contents(body)),
        None => None,
    }
}

/// An RTSP request.
#[derive(Debug, Clone, PartialEq, Eq)]
pub struct Request {
    pub method: Method,
    pub uri: Uri,
    pub version: Version,
    pub headers: Headers,
    pub body: Option<Bytes>,
}

pub struct RequestView {
    pub method: Method,
    pub uri: UriView,
    pub version: Version,
    pub headers: Seq<(Seq<u8>, Seq<u8>)>,
    pub body: Option<Seq<u8>>,
}

impl View for Request {
    type V = RequestView;

    open spec fn view(&self) -> RequestView {
        RequestView {
            method: self.method,
            uri: self.uri@,
            version: self.version,
            headers: self.headers@,
            body: body_view(self.body),
        }
    }
}

/// The first line of a request: method, target and version.
#[derive(Debug, Clone, PartialEq, Eq)]
pub struct RequestMetadata {
    method: Method,
    uri: Uri,
    version: Version,
}

pub struct RequestMetadataView {
    pub method: Method,
    pub uri: UriView,
    pub version: Version,
}

impl View for RequestMetadata {
    type V = RequestMetadataView;

    closed spec fn view(&self) -> RequestMetadataView {
        RequestMetadataView { method: self.method, uri: self.uri@, version: self.version }
    }
}

/// Reading of a request line: the method, the target and the version, with single spaces
/// between them. The target is an absolute URI or `*`.
pub open spec fn request_line_parsed(line: Seq<u8>) -> Result<RequestMetadataView, ErrorView> {
    let parts = split(line, SPACE);
    match Method::of_text(parts[0]) {
        None => Err(ErrorView::MethodUnknown { method: parts[0] }),
        Some(method) => if parts.len() < 2 {
            Err(ErrorView::UriMissing { line })
        } else {
            match http_uri(parts[1]) {
                None => Err(ErrorView::UriMalformed { line, uri: parts[1] }),
                Some(uri) => if !uri.is_target() {
                    Err(ErrorView::UriNotAbsolute { uri })
                } else if parts.len() < 3 {
                    Err(ErrorView::VersionMissing { line })
                } else {
                    match version_parsed(parts[2], line) {
                        Err(e) => Err(e),
                        Ok(version) => Ok(RequestMetadataView { method, uri, version }),
                    }
                },
            }
        },
    }
}

/// `s` without the slashes at its end.
pub open spec fn without_trailing_slashes(s: Seq<u8>) -> Seq<u8>
    decreases s.len(),
{
    if s.len() > 0 && s.last() == SLASH {
        without_trailing_slashes(s.drop_last())
    } else {
        s
    }
}

/// Every piece of `pieces`, trimmed.
pub open spec fn all_trimmed(pieces: Seq<Seq<u8>>) -> Seq<Seq<u8>> {
    Seq::new(pieces.len(), |i: int| trim(pieces[i]))
}

/// Reading of transports, one after the other: all of them, or the first error.
pub open spec fn transports_parsed(parts: Seq<Seq<u8>>) -> Result<Seq<TransportView>, ErrorView>
    decreases parts.len(),
{
    if parts.len() == 0 {
        Ok(Seq::<TransportView>::empty())
    } else {
        match transports_parsed(parts.drop_last()) {
            Err(e) => Err(e),
            Ok(transports) => match TransportView::of_text(parts.last()) {
                Err(e) => Err(e),
                Ok(transport) => Ok(transports.push(transport)),
            },
        }
    }
}

/// An error among the first transports is the error of them all.
proof fn lemma_transports_parsed_fails(parts: Seq<Seq<u8>>, k: int)
    requires
        0 <= k <= parts.len(),
        transports_parsed(parts.take(k)) is Err,
    ensures
        transports_parsed(parts) == transports_parsed(parts.take(k)),
    decreases parts.len() - k,
{
    if k < parts.len() {
        assert(parts.take(k + 1).drop_last() =~= parts.take(k));
        lemma_transports_parsed_fails(parts, k + 1);
    } else {
        assert(parts.take(k) =~= parts);
    }
}

impl RequestView {
    /// The first line of the request on the wire, for the versions that have a wire form.
    pub open spec fn first_line(self) -> Option<Seq<u8>> {
        match self.version.text() {
            Some(version) => Some(
                self.method.text() + seq![SPACE] + self.uri.text() + seq![SPACE] + version,
            ),
            None => None,
        }
    }

    /// The request on the wire: first line, headers in the order of their names, an empty
    /// line, and the body. A request of unknown version has no wire form.
    pub open spec fn wire(self) -> Result<Seq<u8>, ErrorView> {
        match self.first_line() {
            Some(line) => Ok(line + crlf() + tail_wire(self.headers, self.body)),
            None => Err(ErrorView::VersionUnknown),
        }
    }
}

impl RequestMetadata {
    pub fn new(method: Method, uri: Uri, version: Version) -> (r: RequestMetadata)
        ensures
            r@ == (RequestMetadataView { method, uri: uri@, version }),
    {
        RequestMetadata { method, uri, version }
    }

    pub fn new_v1(method: Method, uri: Uri) -> (r: RequestMetadata)
        ensures
            r@ == (RequestMetadataView { method, uri: uri@, version: Version::V1 }),
    {
        RequestMetadata { method, uri, version: Version::V1 }
    }

    /// Reads a request line.
    pub fn parse(line: &[u8]) -> (r: Result<RequestMetadata, Error>)
        ensures
            match request_line_parsed(line@) {
                Ok(metadata) => r matches Ok(m) && m@ == metadata,
                Err(e) => r matches Err(x) && x@ == e,
            },
    {
        let parts = split_at_each(line, SPACE);
        assert(views(parts@)[0] == parts@[0]@);
        let method = match Method::from_bytes(parts[0].as_slice()) {
            Ok(method) => method,
            Err(e) => {
                return Err(e);
            },
        };
        if parts.len() < 2 {
            return Err(Error::UriMissing { line: copy_of(line) });
        }
        assert(views(parts@)[1] == parts@[1]@);
        let uri = match Uri::parse(parts[1].as_slice()) {
            Some(uri) => uri,
            None => {
                return Err(
                    Error::UriMalformed { line: copy_of(line), uri: copy_of(parts[1].as_slice()) },
                );
            },
        };
        if !uri.is_target() {
            return Err(Error::UriNotAbsolute { uri });
        }
        if parts.len() < 3 {
            return Err(Error::VersionMissing { line: copy_of(line) });
        }
        assert(views(parts@)[2] == parts@[2]@);
        let version = match parse_version(parts[2].as_slice(), line) {
            Ok(version) => version,
            Err(e) => {
                return Err(e);
            },
        };
        Ok(RequestMetadata::new(method, uri, version))
    }
}

impl Message for Request {
    type Metadata = RequestMetadata;

    open spec fn metadata_parsed(line: Seq<u8>) -> Result<RequestMetadataView, ErrorView> {
        request_line_parsed(line)
    }

    open spec fn assembled(
        metadata: RequestMetadataView,
        headers: Seq<(Seq<u8>, Seq<u8>)>,
        body: Option<Seq<u8>>,
    ) -> RequestView {
        RequestView {
            method: metadata.method,
            uri: metadata.uri,
            version: metadata.version,
            headers,
            body,
        }
    }

    fn parse_metadata(line: &[u8]) -> (r: Result<RequestMetadata, Error>) {
        RequestMetadata::parse(line)
    }

    fn new(metadata: RequestMetadata, headers: Headers, body: Option<Bytes>) -> (r: Request) {
        Request {
            method: metadata.method,
            uri: metadata.uri,
            version: metadata.version,
            headers,
            body,
        }
    }
}

impl Request {
    /// A request of version 1.0 with the header `CSeq` and no body.
    pub open spec fn plain(method: Method, uri: UriView, cseq: usize) -> RequestView {
        RequestView {
            method,
            uri,
            version: Version::V1,
            headers: seq![(lit("CSeq"), crate::text::decimal(cseq as nat))],
            body: None,
        }
    }

    /// A request of version 1.0 with the headers `CSeq` and `Session` and no body.
    pub open spec fn in_session(
        method: Method,
        uri: UriView,
        cseq: usize,
        session: Seq<u8>,
    ) -> RequestView {
        RequestView {
            method,
            uri,
            version: Version::V1,
            headers: seq![
                (lit("CSeq"), crate::text::decimal(cseq as nat)),
                (lit("Session"), session),
            ],
            body: None,
        }
    }

    pub fn options(uri: &Uri, cseq: usize) -> (r: Request)
        ensures
            r@ == Request::plain(Method::Options, uri@, cseq),
    {
        <Request as Message>::new(
            RequestMetadata::new_v1(Method::Options, uri.duplicate()),
            Headers::with_cseq(cseq),
            None,
        )
    }

    pub fn describe(uri: &Uri, cseq: usize) -> (r: Request)
        ensures
            r@ == Request::plain(Method::Describe, uri@, cseq),
    {
        <Request as Message>::new(
            RequestMetadata::new_v1(Method::Describe, uri.duplicate()),
            Headers::with_cseq(cseq),
            None,
        )
    }

    pub fn pause(uri: &Uri, cseq: usize, session: &[u8]) -> (r: Request)
        ensures
            r@ == Request::in_session(Method::Pause, uri@, cseq, session@),
    {
        <Request as Message>::new(
            RequestMetadata::new_v1(Method::Pause, uri.duplicate()),
            Headers::with_cseq_and_session(cseq, session),
            None,
        )
    }

    pub fn teardown(uri: &Uri, cseq: usize, session: &[u8]) -> (r: Request)
        ensures
            r@ == Request::in_session(Method::Teardown, uri@, cseq, session@),
    {
        <Request as Message>::new(
            RequestMetadata::new_v1(Method::Teardown, uri.duplicate()),
            Headers::with_cseq_and_session(cseq, session),
            None,
        )
    }

    /// A `SETUP` request for `transport`, within `session` if there is one.
    pub fn setup(uri: &Uri, cseq: usize, transport: Transport, session: Option<&[u8]>) -> (r:
        Request)
        ensures
            r@ == (RequestView {
                headers: inserted(
                    match session {
                        Some(session) => Request::in_session(
                            Method::Setup,
                            uri@,
                            cseq,
                            session@,
                        ).headers,
                        None => Request::plain(Method::Setup, uri@, cseq).headers,
                    },
                    lit("Transport"),
                    transport@.text(),
                ),
                ..Request::plain(Method::Setup, uri@, cseq)
            }),
    {
        let mut headers = match session {
            Some(session_id) => Headers::with_cseq_and_session(cseq, session_id),
            None => Headers::with_cseq(cseq),
        };
        headers.insert(text_of("Transport"), transport.to_bytes());
        <Request as Message>::new(
            RequestMetadata::new_v1(Method::Setup, uri.duplicate()),
            headers,
            None,
        )
    }

    /// A `PLAY` request for `range`.
    pub fn play(uri: &Uri, cseq: usize, session: &[u8], range: Range) -> (r: Request)
        ensures
            r@ == (RequestView {
                headers: inserted(
                    Request::in_session(Method::Play, uri@, cseq, session@).headers,
                    lit("Range"),
                    range.text(),
                ),
                ..Request::plain(Method::Play, uri@, cseq)
            }),
    {
        let mut headers = Headers::with_cseq_and_session(cseq, session);
        headers.insert(text_of("Range"), range.to_bytes());
        <Request as Message>::new(
            RequestMetadata::new_v1(Method::Play, uri.duplicate()),
            headers,
            None,
        )
    }

    /// The transports of the header `Transport`: its value split at the commas, each piece
    /// read as a transport. None where there is no such header.
    pub fn transport(&self) -> (r: Result<Vec<Transport>, Error>)
        ensures
            match lookup(self@.headers, lit("Transport")) {
                Some(value) => match transports_parsed(split(value, COMMA)) {
                    Ok(transports) => r matches Ok(t) && views(t@) == transports,
                    Err(e) => r matches Err(x) && x@ == e,
                },
                None => r matches Ok(t) && t@.len() == 0,
            },
    {
        let mut transports: Vec<Transport> = Vec::new();
        if let Some(value) = self.headers.get("Transport".as_bytes()) {
            let parts = split_at_each(value.as_slice(), COMMA);
            let ghost all = views(parts@);
            let mut i: usize = 0;
            assert(all.take(0) =~= Seq::<Seq<u8>>::empty());
            assert(views(transports@) =~= Seq::<TransportView>::empty());
            while i < parts.len()
                invariant
                    0 <= i <= parts@.len(),
                    all == views(parts@),
                    all == split(value@, COMMA),
                    lookup(self@.headers, lit("Transport")) == Some(value@),
                    transports_parsed(all.take(i as int)) == Ok::<Seq<TransportView>, ErrorView>(
                        views(transports@),
                    ),
                decreases parts@.len() - i,
            {
                proof {
                    let next = all.take(i + 1);
                    assert(next.drop_last() =~= all.take(i as int));
                    assert(next.last() == parts@[i as int]@);
                }
                let ghost before = views(transports@);
                match Transport::from_bytes(parts[i].as_slice()) {
                    Ok(transport) => {
                        transports.push(transport);
                        assert(views(transports@) =~= before.push(transport@));
                    },
                    Err(e) => {
                        proof {
                            assert(transports_parsed(all.take(i + 1)) == Err::<
                                Seq<TransportView>,
                                ErrorView,
                            >(e@));
                            lemma_transports_parsed_fails(all, i + 1);
                        }
                        return Err(e);
                    },
                }
                i += 1;
            }
            assert(all.take(all.len() as int) =~= all);
        }
        Ok(transports)
    }

    /// The range of the header `Range`, if there is such a header.
    pub fn range(&self) -> (r: Option<Result<Range, Error>>)
        ensures
            match lookup(self@.headers, lit("Range")) {
                Some(value) => match Range::of_text(value) {
                    Ok(range) => r matches Some(Ok(x)) && x == range,
                    Err(e) => r matches Some(Err(x)) && x@ == e,
                },
                None => r is None,
            },
    {
        match self.headers.get("Range".as_bytes()) {
            Some(value) => Some(Range::from_bytes(value.as_slice())),
            None => None,
        }
    }

    pub fn uri(&self) -> (r: &Uri)
        ensures
            r@ == self@.uri,
    {
        &self.uri
    }

    /// The path of the target, without the slashes at its end.
    pub fn path(&self) -> (r: &[u8])
        ensures
            r@ == without_trailing_slashes(self@.uri.path),
    {
        let path = self.uri.path().as_slice();
        let mut end: usize = path.len();
        assert(path@.take(end as int) =~= path@);
        while end > 0 && path[end - 1] == SLASH
            invariant
                0 <= end <= path@.len(),
                without_trailing_slashes(path@) == without_trailing_slashes(
                    path@.take(end as int),
                ),
            decreases end,
        {
            assert(path@.take(end as int).drop_last() =~= path@.take(end - 1));
            end -= 1;
        }
        vstd::slice::slice_subrange(path, 0, end)
    }

    /// The value of the header `Require`.
    pub fn require(&self) -> (r: Option<&Vec<u8>>)
        ensures
            match r {
                Some(value) => lookup(self@.headers, lit("Require")) == Some(value@),
                None => lookup(self@.headers, lit("Require")) is None,
            },
    {
        self.headers.get("Require".as_bytes())
    }

    /// The media types of the header `Accept`: its value split at the commas, each piece
    /// trimmed. None where there is no such header.
    pub fn accept(&self) -> (r: Vec<Vec<u8>>)
        ensures
            views(r@) == match lookup(self@.headers, lit("Accept")) {
                Some(value) => all_trimmed(split(value, COMMA)),
                None => Seq::<Seq<u8>>::empty(),
            },
    {
        match self.headers.get("Accept".as_bytes()) {
            Some(value) => {
                let pieces = split_at_each(value.as_slice(), COMMA);
                let mut out: Vec<Vec<u8>> = Vec::new();
                let mut i: usize = 0;
                while i < pieces.len()
                    invariant
                        0 <= i <= pieces@.len(),
                        views(out@) == all_trimmed(views(pieces@)).take(i as int),
                    decreases pieces@.len() - i,
                {
                    let ghost before = views(out@);
                    let piece = copy_of(trim_bytes(pieces[i].as_slice()));
                    out.push(piece);
                    assert(views(out@) =~= before.push(trim(views(pieces@)[i as int])));
                    i += 1;
                    assert(views(out@) =~= all_trimmed(views(pieces@)).take(i as int));
                }
                assert(all_trimmed(views(pieces@)).take(pieces@.len() as int) =~= all_trimmed(
                    views(pieces@),
                ));
                out
            },
            None => {
                let out: Vec<Vec<u8>> = Vec::new();
                assert(views(out@) =~= Seq::<Seq<u8>>::empty());
                out
            },
        }
    }

    /// The value of the header `Session`.
    pub fn session(&self) -> (r: Option<&Vec<u8>>)
        ensures
            match r {
                Some(value) => lookup(self@.headers, lit("Session")) == Some(value@),
                None => lookup(self@.headers, lit("Session")) is None,
            },
    {
        self.headers.get("Session".as_bytes())
    }

    /// The request on the wire, or that its version has no wire form.
    pub fn to_wire(&self) -> (r: Result<Vec<u8>, Error>)
        ensures
            match self@.wire() {
                Ok(wire) => r matches Ok(w) && w@ == wire,
                Err(e) => r matches Err(x) && x@ == e,
            },
    {
        let version = match self.version.to_bytes() {
            Ok(version) => version,
            Err(e) => {
                return Err(e);
            },
        };
        let mut out = self.method.to_bytes();
        out.push(SPACE);
        push_all(&mut out, self.uri.to_bytes().as_slice());
        out.push(SPACE);
        push_all(&mut out, version.as_slice());
        out.push(crate::text::CR);
        out.push(crate::text::LF);
        assert(out@ =~= self@.first_line()->Some_0 + crlf());
        match &self.body {
            Some(body) => write_tail(&mut out, self.headers.as_map(), Some(bytes_as_slice(body))),
            None => write_tail(&mut out, self.headers.as_map(), None),
        }
        Ok(out)
    }

    /// Appends the request's wire form to `dst`. A request whose version has no wire form
    /// leaves `dst` as it was.
    pub fn serialize(self, dst: &mut BytesMut) -> (r: Result<(), Error>)
        ensures
            match self@.wire() {
                Ok(wire) => r is Ok && bytes_mut_contents(*final(dst)) == bytes_mut_contents(
                    *old(dst),
                ) + wire,
                Err(e) => {
                    &&& r matches Err(x) && x@ == e
                    &&& bytes_mut_contents(*final(dst)) == bytes_mut_contents(*old(dst))
                },
            },
    {
        match self.to_wire() {
            Ok(wire) => {
                dst.extend_from_slice(wire.as_slice());
                Ok(())
            },
            Err(e) => Err(e),
        }
    }
}

} // verus!
