//! RTSP responses.

use crate::buf::{bytes_as_slice, bytes_contents, bytes_from_vec, bytes_mut_contents};
use crate::rtsp::error::{Error, ErrorView};
use crate::rtsp::message::{
    inserted, lookup, status_category, status_to_code, status_to_reason, status_to_reason_text,
    Headers, Status, StatusCategory, StatusCode, Version,
};
use crate::rtsp::parse::{parse_version, version_parsed, Message};
use crate::rtsp::request::{body_view, Request};
use crate::rtsp::rtp_info::{rtp_infos_text, rtp_infos_to_bytes, RtpInfo};
use crate::rtsp::serialize::{crlf, tail_wire, write_tail};
use crate::text::{
    copy_of, decimal, decimal_bytes, lit, parse_number, parse_unsigned, push_all, split_once,
    split_once_at, text_of, trim, trim_bytes, views, SPACE,
};
use bytes::{Bytes, BytesMut};
use vstd::prelude::*;

verus! {

/// An RTSP response.
#[derive(Debug, Clone, PartialEq, Eq)]
pub struct Response {
    pub version: Version,
    pub status: StatusCode,
    pub reason: Vec<u8>,
    pub headers: Headers,
    pub body: Option<Bytes>,
}

pub struct ResponseView {
    pub version: Version,
    pub status: StatusCode,
    pub reason: Seq<u8>,
    pub headers: Seq<(Seq<u8>, Seq<u8>)>,
    pub body: Option<Seq<u8>>,
}

impl View for Response {
    type V = ResponseView;

    open spec fn view(&self) -> ResponseView {
        ResponseView {
            version: self.version,
            status: self.status,
            reason: self.reason@,
            headers: self.headers@,
            body: body_view(self.body),
        }
    }
}

/// The first line of a response: version, status code and reason phrase.
#[derive(Debug, Clone, PartialEq, Eq)]
pub struct ResponseMetadata {
    version: Version,
    status: StatusCode,
    reason: Vec<u8>,
}

pub struct ResponseMetadataView {
    pub version: Version,
    pub status: StatusCode,
    pub reason: Seq<u8>,
}

impl View for ResponseMetadata {
    type V = ResponseMetadataView;

    closed spec fn view(&self) -> ResponseMetadataView {
        ResponseMetadataView { version: self.version, status: self.status, reason: self.reason@ }
    }
}

/// Reading of a status line: the version, the status code and the reason phrase, with a
/// space after the version and a space after the code. The reason phrase is the rest of the
/// line, trimmed.
pub open spec fn status_line_parsed(line: Seq<u8>) -> Result<ResponseMetadataView, ErrorView> {
    match split_once(line, SPACE) {
        None => Err(ErrorView::StatusCodeMissing { line }),
        Some((version, rest)) => match version_parsed(trim(version), line) {
            Err(e) => Err(e),
            Ok(version) => match split_once(rest, SPACE) {
                None => Err(ErrorView::ReasonPhraseMissing { line }),
                Some((status_code, reason)) => match parse_unsigned(
                    trim(status_code),
                    usize::MAX as nat,
                ) {
                    None => Err(ErrorView::StatusCodeNotInteger { line, status_code }),
                    Some(status) => Ok(
                        ResponseMetadataView {
                            version,
                            status: status as usize,
                            reason: trim(reason),
                        },
                    ),
                },
            },
        },
    }
}

impl ResponseView {
    /// The first line of the response on the wire, for the versions that have a wire form.
    pub open spec fn first_line(self) -> Option<Seq<u8>> {
        match self.version.text() {
            Some(version) => Some(
                version + seq![SPACE] + decimal(self.status as nat) + seq![SPACE] + self.reason,
            ),
            None => None,
        }
    }

    /// The response on the wire: first line, headers in the order of their names, an empty
    /// line, and the body. A response of unknown version has no wire form.
    pub open spec fn wire(self) -> Result<Seq<u8>, ErrorView> {
        match self.first_line() {
            Some(line) => Ok(line + crlf() + tail_wire(self.headers, self.body)),
            None => Err(ErrorView::VersionUnknown),
        }
    }

    /// The response that a builder starts from: version 1.0, the code and the reason phrase
    /// of `status`, no headers and no body.
    pub open spec fn of_status(status: Status) -> ResponseView {
        ResponseView {
            version: Version::V1,
            status: status.code(),
            reason: status_to_reason_text(status),
            headers: Seq::<(Seq<u8>, Seq<u8>)>::empty(),
            body: None,
        }
    }

    /// The response with the header `name` set to `value`.
    pub open spec fn with_header(self, name: Seq<u8>, value: Seq<u8>) -> ResponseView {
        ResponseView { headers: inserted(self.headers, name, value), ..self }
    }

    /// The response with `body` and the two headers that describe it.
    pub open spec fn with_body(self, body: Seq<u8>, content_type: Seq<u8>) -> ResponseView {
        ResponseView {
            body: Some(body),
            ..self.with_header(lit("Content-Length"), decimal(body.len())).with_header(
                lit("Content-Type"),
                content_type,
            )
        }
    }
}

impl ResponseMetadata {
    pub fn new(version: Version, status: StatusCode, reason: Vec<u8>) -> (r: ResponseMetadata)
        ensures
            r@ == (ResponseMetadataView { version, status, reason: reason@ }),
    {
        ResponseMetadata { version, status, reason }
    }

    /// Reads a status line.
    pub fn parse(line: &[u8]) -> (r: Result<ResponseMetadata, Error>)
        ensures
            match status_line_parsed(line@) {
                Ok(metadata) => r matches Ok(m) && m@ == metadata,
                Err(e) => r matches Err(x) && x@ == e,
            },
    {
        let (version, rest) = match split_once_at(line, SPACE) {
            Some(parts) => parts,
            None => {
                return Err(Error::StatusCodeMissing { line: copy_of(line) });
            },
        };
        let version = match parse_version(trim_bytes(version), line) {
            Ok(version) => version,
            Err(e) => {
                return Err(e);
            },
        };
        let (status_code, rest) = match split_once_at(rest, SPACE) {
            Some(parts) => parts,
            None => {
                return Err(Error::ReasonPhraseMissing { line: copy_of(line) });
            },
        };
        let status = match parse_number(trim_bytes(status_code), usize::MAX as u64) {
            Some(status) => status as usize,
            None => {
                return Err(
                    Error::StatusCodeNotInteger {
                        line: copy_of(line),
                        status_code: copy_of(status_code),
                    },
                );
            },
        };
        let reason = copy_of(trim_bytes(rest));
        Ok(ResponseMetadata::new(version, status, reason))
    }
}

impl Message for Response {
    type Metadata = ResponseMetadata;

    open spec fn metadata_parsed(line: Seq<u8>) -> Result<ResponseMetadataView, ErrorView> {
        status_line_parsed(line)
    }

    open spec fn assembled(
        metadata: ResponseMetadataView,
        headers: Seq<(Seq<u8>, Seq<u8>)>,
        body: Option<Seq<u8>>,
    ) -> ResponseView {
        ResponseView {
            version: metadata.version,
            status: metadata.status,
            reason: metadata.reason,
            headers,
            body,
        }
    }

    fn parse_metadata(line: &[u8]) -> (r: Result<ResponseMetadata, Error>) {
        ResponseMetadata::parse(line)
    }

    fn new(metadata: ResponseMetadata, headers: Headers, body: Option<Bytes>) -> (r: Response) {
        Response {
            version: metadata.version,
            status: metadata.status,
            reason: metadata.reason,
            headers,
            body,
        }
    }
}

impl Response {
    /// A builder for a response of status 200.
    pub fn ok() -> (r: ResponseBuilder)
        ensures
            r@ == ResponseView::of_status(Status::Okay),
    {
        ResponseBuilder::ok()
    }

    /// A builder for a response of status `status`.
    pub fn error(status: Status) -> (r: ResponseBuilder)
        ensures
            r@ == ResponseView::of_status(status),
    {
        ResponseBuilder::error(status)
    }

    /// The category of the response's status code.
    pub fn status(&self) -> (r: StatusCategory)
        ensures
            r == status_category(self@.status),
    {
        let s = self.status;
        if s >= 600 {
            StatusCategory::Unknown
        } else if s >= 500 {
            StatusCategory::ServerError
        } else if s >= 400 {
            StatusCategory::ClientError
        } else if s >= 300 {
            StatusCategory::Redirection
        } else if s >= 200 {
            StatusCategory::Success
        } else if s >= 100 {
            StatusCategory::Informational
        } else {
            StatusCategory::Unknown
        }
    }

    /// The response on the wire, or that its version has no wire form.
    pub fn to_wire(&self) -> (r: Result<Vec<u8>, Error>)
        ensures
            match self@.wire() {
                Ok(wire) => r matches Ok(w) && w@ == wire,
                Err(e) => r matches Err(x) && x@ == e,
            },
    {
        let mut out = match self.version.to_bytes() {
            Ok(version) => version,
            Err(e) => {
                return Err(e);
            },
        };
        out.push(SPACE);
        push_all(&mut out, decimal_bytes(self.status as u64).as_slice());
        out.push(SPACE);
        push_all(&mut out, self.reason.as_slice());
        out.push(crate::text::CR);
        out.push(crate::text::LF);
        assert(out@ =~= self@.first_line()->Some_0 + crlf());
        match &self.body {
            Some(body) => write_tail(&mut out, self.headers.as_map(), Some(bytes_as_slice(body))),
            None => write_tail(&mut out, self.headers.as_map(), None),
        }
        Ok(out)
    }

    /// Appends the response's wire form to `dst`. A response whose version has no wire form
    /// leaves `dst` as it was.
    pub fn serialize(self, dst: &mut BytesMut) -> (r: Result<(), Error>)
        ensures
            match self@.wire() {
                Ok(wire) => r is Ok && bytes_mut_contents(*final(dst)) == bytes_mut_contents(
                    *old(dst),
                ) + wire,
                Err(e) => {
                    &&& r matches Err(x) && x@ == e
                    &&& bytes_mut_contents(*final(dst)) == bytes_mut_contents(*old(dst))
                },
            },
    {
        match self.to_wire() {
            Ok(wire) => {
                dst.extend_from_slice(wire.as_slice());
                Ok(())
            },
            Err(e) => Err(e),
        }
    }
}

/// Puts a response together step by step.
pub struct ResponseBuilder {
    response: Response,
}

impl View for ResponseBuilder {
    type V = ResponseView;

    closed spec fn view(&self) -> ResponseView {
        self.response@
    }
}

impl ResponseBuilder {
    pub fn from_status(status: Status) -> (r: ResponseBuilder)
        ensures
            r@ == ResponseView::of_status(status),
    {
        ResponseBuilder {
            response: Response {
                version: Version::V1,
                status: status_to_code(status),
                reason: text_of(status_to_reason(status)),
                headers: Headers::new(),
                body: None,
            },
        }
    }

    pub fn ok() -> (r: ResponseBuilder)
        ensures
            r@ == ResponseView::of_status(Status::Okay),
    {
        ResponseBuilder::from_status(Status::Okay)
    }

    pub fn error(status: Status) -> (r: ResponseBuilder)
        ensures
            r@ == ResponseView::of_status(status),
    {
        ResponseBuilder::from_status(status)
    }

    /// Copies the header `CSeq` of `request`, if it has one.
    pub fn with_cseq_of(self, request: &Request) -> (r: ResponseBuilder)
        ensures
            r@ == match lookup(request@.headers, lit("CSeq")) {
                Some(cseq) => self@.with_header(lit("CSeq"), cseq),
                None => self@,
            },
    {
        let mut response = self.response;
        if let Some(cseq) = request.headers.get("CSeq".as_bytes()) {
            response.headers.insert(text_of("CSeq"), copy_of(cseq.as_slice()));
        }
        ResponseBuilder { response }
    }

    /// Sets the header `var` to `val`.
    pub fn with_header(self, var: &[u8], val: &[u8]) -> (r: ResponseBuilder)
        ensures
            r@ == self@.with_header(var@, val@),
    {
        let mut response = self.response;
        response.headers.insert(copy_of(var), copy_of(val));
        ResponseBuilder { response }
    }

    /// Sets the header `RTP-Info` to the texts of `rtp_info`, with commas between them.
    pub fn with_rtp_info(self, rtp_info: Vec<RtpInfo>) -> (r: ResponseBuilder)
        ensures
            r@ == self@.with_header(lit("RTP-Info"), rtp_infos_text(views(rtp_info@))),
    {
        let mut response = self.response;
        response.headers.insert(text_of("RTP-Info"), rtp_infos_to_bytes(&rtp_info));
        ResponseBuilder { response }
    }

    /// Sets the body, and the headers `Content-Length` and `Content-Type` with it.
    pub fn with_body(self, body: Bytes, content_type: &[u8]) -> (r: ResponseBuilder)
        ensures
            r@ == self@.with_body(bytes_contents(body), content_type@),
    {
        let length = decimal_bytes(body.len() as u64);
        let mut response = self.response;
        response.headers.insert(text_of("Content-Length"), length);
        response.headers.insert(text_of("Content-Type"), copy_of(content_type));
        response.body = Some(body);
        ResponseBuilder { response }
    }

    /// Sets a session description as the body.
    pub fn with_sdp(self, contents: Vec<u8>) -> (r: ResponseBuilder)
        ensures
            r@ == self@.with_body(contents@, lit("application/sdp")),
    {
        self.with_body(bytes_from_vec(contents), "application/sdp".as_bytes())
    }

    pub fn build(self) -> (r: Response)
        ensures
            r@ == self@,
    {
        self.response
    }
}

} // verus!
