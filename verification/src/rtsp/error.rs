//! Errors of the RTSP layer.

use crate::rtsp::uri::{Uri, UriView};
use crate::text::{lit, push_all};
use vstd::prelude::*;

verus! {

#[derive(Debug)]
#[allow(inconsistent_fields)]
pub enum Error {
    /// The bytes of a line are not valid UTF-8.
    Encoding,
    /// The request line is malformed.
    RequestLineMalformed { line: Vec<u8> },
    /// The request line has a method and a target but no version.
    VersionMissing { line: Vec<u8> },
    /// The status line has a version but no status code.
    StatusCodeMissing { line: Vec<u8> },
    /// The method is none of the RTSP methods.
    MethodUnknown { method: Vec<u8> },
    /// The request line has a method but no target.
    UriMissing { line: Vec<u8> },
    /// The request target is no URI.
    UriMalformed { line: Vec<u8>, uri: Vec<u8> },
    /// The request target is a URI without authority, and not `*`.
    UriNotAbsolute { uri: Uri },
    /// The status line has a version and a status code but no reason phrase.
    ReasonPhraseMissing { line: Vec<u8> },
    /// The version does not begin with `RTSP/`.
    VersionMalformed { line: Vec<u8>, version: Vec<u8> },
    /// The status code is no unsigned integer.
    StatusCodeNotInteger { line: Vec<u8>, status_code: Vec<u8> },
    /// A header line has no colon.
    HeaderMalformed { line: Vec<u8> },
    /// A body is expected but there is no `Content-Length` header.
    ContentLengthMissing,
    /// The value of `Content-Length` is no unsigned integer.
    ContentLengthNotInteger { value: Vec<u8> },
    /// The parser was asked to read a head line after the head was done.
    HeadAlreadyDone,
    /// The parser was fed after the message was complete.
    BodyAlreadyDone,
    /// The parser is complete but holds no first line.
    MetadataNotParsed,
    /// The message was asked for before the parser was done.
    NotDone,
    /// A message of unknown version cannot be serialized.
    VersionUnknown,
    /// A transport does not begin with `RTP/AVP`.
    TransportProtocolProfileMissing { value: Vec<u8> },
    /// The lower transport is neither `TCP` nor `UDP`.
    TransportLowerUnknown { value: Vec<u8> },
    /// The transport parameter is none of the known ones.
    TransportParameterUnknown { var: Vec<u8> },
    /// The transport parameter needs a value and has none.
    TransportParameterValueMissing { var: Vec<u8> },
    /// The value of the transport parameter is malformed.
    TransportParameterValueInvalid { var: Vec<u8>, val: Vec<u8> },
    /// The transport parameter is malformed.
    TransportParameterInvalid { parameter: Vec<u8> },
    /// The interleaved channel is malformed.
    TransportChannelMalformed { value: Vec<u8> },
    /// The port is malformed.
    TransportPortMalformed { value: Vec<u8> },
    /// Interleaved data does not begin with `$`.
    InterleavedInvalid,
    /// An interleaved payload is longer than 65535 bytes.
    InterleavedPayloadTooLarge,
    /// The range is malformed.
    RangeMalformed { value: Vec<u8> },
    /// The unit of the range is not `npt`.
    RangeUnitNotSupported { value: Vec<u8> },
    /// The range carries an effective time.
    RangeTimeNotSupported { value: Vec<u8> },
    /// One side of the range is no NPT time.
    RangeNptTimeMalfored { value: Vec<u8> },
    /// The RTP info has no URL.
    RtpInfoUrlMissing { value: Vec<u8> },
    /// The RTP info parameter is none of the known ones.
    RtpInfoParameterUnknown { value: Vec<u8> },
    /// The value of the RTP info parameter is malformed.
    RtpInfoParameterInvalid { value: Vec<u8> },
    /// The RTP info has more parameters than it may.
    RtpInfoParameterUnexpected { value: Vec<u8> },
    /// The connection was shut down.
    Shutdown,
}

/// What an [`Error`] says, with the text it carries taken as byte sequences.
#[allow(inconsistent_fields)]
pub enum ErrorView {
    Encoding,
    RequestLineMalformed { line: Seq<u8> },
    VersionMissing { line: Seq<u8> },
    StatusCodeMissing { line: Seq<u8> },
    MethodUnknown { method: Seq<u8> },
    UriMissing { line: Seq<u8> },
    UriMalformed { line: Seq<u8>, uri: Seq<u8> },
    UriNotAbsolute { uri: UriView },
    ReasonPhraseMissing { line: Seq<u8> },
    VersionMalformed { line: Seq<u8>, version: Seq<u8> },
    StatusCodeNotInteger { line: Seq<u8>, status_code: Seq<u8> },
    HeaderMalformed { line: Seq<u8> },
    ContentLengthMissing,
    ContentLengthNotInteger { value: Seq<u8> },
    HeadAlreadyDone,
    BodyAlreadyDone,
    MetadataNotParsed,
    NotDone,
    VersionUnknown,
    TransportProtocolProfileMissing { value: Seq<u8> },
    TransportLowerUnknown { value: Seq<u8> },
    TransportParameterUnknown { var: Seq<u8> },
    TransportParameterValueMissing { var: Seq<u8> },
    TransportParameterValueInvalid { var: Seq<u8>, val: Seq<u8> },
    TransportParameterInvalid { parameter: Seq<u8> },
    TransportChannelMalformed { value: Seq<u8> },
    TransportPortMalformed { value: Seq<u8> },
    InterleavedInvalid,
    InterleavedPayloadTooLarge,
    RangeMalformed { value: Seq<u8> },
    RangeUnitNotSupported { value: Seq<u8> },
    RangeTimeNotSupported { value: Seq<u8> },
    RangeNptTimeMalfored { value: Seq<u8> },
    RtpInfoUrlMissing { value: Seq<u8> },
    RtpInfoParameterUnknown { value: Seq<u8> },
    RtpInfoParameterInvalid { value: Seq<u8> },
    RtpInfoParameterUnexpected { value: Seq<u8> },
    Shutdown,
}

impl View for Error {
    type V = ErrorView;

    open spec fn view(&self) -> ErrorView {
        match *self {
            Error::Encoding => ErrorView::Encoding,
            Error::RequestLineMalformed { line } => ErrorView::RequestLineMalformed { line: line@ },
            Error::VersionMissing { line } => ErrorView::VersionMissing { line: line@ },
            Error::StatusCodeMissing { line } => ErrorView::StatusCodeMissing { line: line@ },
            Error::MethodUnknown { method } => ErrorView::MethodUnknown { method: method@ },
            Error::UriMissing { line } => ErrorView::UriMissing { line: line@ },
            Error::UriMalformed { line, uri } => ErrorView::UriMalformed { line: line@, uri: uri@ },
            Error::UriNotAbsolute { uri } => ErrorView::UriNotAbsolute { uri: uri@ },
            Error::ReasonPhraseMissing { line } => ErrorView::ReasonPhraseMissing { line: line@ },
            Error::VersionMalformed { line, version } => ErrorView::VersionMalformed { line: line@, version: version@ },
            Error::StatusCodeNotInteger { line, status_code } => ErrorView::StatusCodeNotInteger { line: line@, status_code: status_code@ },
            Error::HeaderMalformed { line } => ErrorView::HeaderMalformed { line: line@ },
            Error::ContentLengthMissing => ErrorView::ContentLengthMissing,
            Error::ContentLengthNotInteger { value } => ErrorView::ContentLengthNotInteger { value: value@ },
            Error::HeadAlreadyDone => ErrorView::HeadAlreadyDone,
            Error::BodyAlreadyDone => ErrorView::BodyAlreadyDone,
            Error::MetadataNotParsed => ErrorView::MetadataNotParsed,
            Error::NotDone => ErrorView::NotDone,
            Error::VersionUnknown => ErrorView::VersionUnknown,
            Error::TransportProtocolProfileMissing { value } => ErrorView::TransportProtocolProfileMissing { value: value@ },
            Error::TransportLowerUnknown { value } => ErrorView::TransportLowerUnknown { value: value@ },
            Error::TransportParameterUnknown { var } => ErrorView::TransportParameterUnknown { var: var@ },
            Error::TransportParameterValueMissing { var } => ErrorView::TransportParameterValueMissing { var: var@ },
            Error::TransportParameterValueInvalid { var, val } => ErrorView::TransportParameterValueInvalid { var: var@, val: val@ },
            Error::TransportParameterInvalid { parameter } => ErrorView::TransportParameterInvalid { parameter: parameter@ },
            Error::TransportChannelMalformed { value } => ErrorView::TransportChannelMalformed { value: value@ },
            Error::TransportPortMalformed { value } => ErrorView::TransportPortMalformed { value: value@ },
            Error::InterleavedInvalid => ErrorView::InterleavedInvalid,
            Error::InterleavedPayloadTooLarge => ErrorView::InterleavedPayloadTooLarge,
            Error::RangeMalformed { value } => ErrorView::RangeMalformed { value: value@ },
            Error::RangeUnitNotSupported { value } => ErrorView::RangeUnitNotSupported { value: value@ },
            Error::RangeTimeNotSupported { value } => ErrorView::RangeTimeNotSupported { value: value@ },
            Error::RangeNptTimeMalfored { value } => ErrorView::RangeNptTimeMalfored { value: value@ },
            Error::RtpInfoUrlMissing { value } => ErrorView::RtpInfoUrlMissing { value: value@ },
            Error::RtpInfoParameterUnknown { value } => ErrorView::RtpInfoParameterUnknown { value: value@ },
            Error::RtpInfoParameterInvalid { value } => ErrorView::RtpInfoParameterInvalid { value: value@ },
            Error::RtpInfoParameterUnexpected { value } => ErrorView::RtpInfoParameterUnexpected { value: value@ },
            Error::Shutdown => ErrorView::Shutdown,
        }
    }
}

impl ErrorView {
    /// What the error says, in words.
    pub open spec fn message(self) -> Seq<u8> {
        match self {
            ErrorView::Encoding => lit("encoding incorrect"),
            ErrorView::RequestLineMalformed { line } => lit("request line malformed: ") + line,
            ErrorView::VersionMissing { line } => lit("version missing in request line: ") + line,
            ErrorView::StatusCodeMissing { line } => lit("status code missing in response line: ") + line,
            ErrorView::MethodUnknown { method } => lit("method unknown: ") + method,
            ErrorView::UriMissing { line } => lit("uri missing in request line: ") + line,
            ErrorView::UriMalformed { line, uri } => lit("uri malformed: ") + uri + lit(" (in line: ") + line + lit(")"),
            ErrorView::UriNotAbsolute { uri } => lit("uri must be absolute, but it is relative: ") + uri.text(),
            ErrorView::ReasonPhraseMissing { line } => lit("reason phrase missing in response line: ") + line,
            ErrorView::VersionMalformed { line, version } => lit("version malformed: ") + version + lit(" (in line: ") + line + lit(")"),
            ErrorView::StatusCodeNotInteger { line, status_code } => lit("response has invalid status code: ") + status_code + lit(" (in response line: ") + line + lit(")"),
            ErrorView::HeaderMalformed { line } => lit("header line malformed: ") + line,
            ErrorView::ContentLengthMissing => lit("request does not have Content-Length header"),
            ErrorView::ContentLengthNotInteger { value } => lit("request has invalid value for Content-Length: ") + value,
            ErrorView::HeadAlreadyDone => lit("head already done (cycle in state machine)"),
            ErrorView::BodyAlreadyDone => lit("body already done (cycle in state machine)"),
            ErrorView::MetadataNotParsed => lit("metadata not parsed"),
            ErrorView::NotDone => lit("parser not done yet"),
            ErrorView::VersionUnknown => lit("response has unknown version"),
            ErrorView::TransportProtocolProfileMissing { value } => lit("transport protocol and/or profile missing: ") + value,
            ErrorView::TransportLowerUnknown { value } => lit("transport lower protocol unknown: ") + value,
            ErrorView::TransportParameterUnknown { var } => lit("transport parameter unknown: ") + var,
            ErrorView::TransportParameterValueMissing { var } => lit("transport parameter should have value but does not (var: ") + var + lit(")"),
            ErrorView::TransportParameterValueInvalid { var, val } => lit("transport parameter value is invalid or malformed (var: ") + var + lit(", val: ") + val + lit(")"),
            ErrorView::TransportParameterInvalid { parameter } => lit("transport parameter invalid: ") + parameter,
            ErrorView::TransportChannelMalformed { value } => lit("transport channel malformed: ") + value,
            ErrorView::TransportPortMalformed { value } => lit("transport port malformed: ") + value,
            ErrorView::InterleavedInvalid => lit("interleaved data does not have valid header magic character"),
            ErrorView::InterleavedPayloadTooLarge => lit("interleaved payload too large"),
            ErrorView::RangeMalformed { value } => lit("range malformed: ") + value,
            ErrorView::RangeUnitNotSupported { value } => lit("range unit not supported: ") + value,
            ErrorView::RangeTimeNotSupported { value } => lit("range time not supported: ") + value,
            ErrorView::RangeNptTimeMalfored { value } => lit("range npt time malformed: ") + value,
            ErrorView::RtpInfoUrlMissing { value } => lit("rtp info url missing: ") + value,
            ErrorView::RtpInfoParameterUnknown { value } => lit("rtp info parameter unknown: ") + value,
            ErrorView::RtpInfoParameterInvalid { value } => lit("rtp info parameter invalid: ") + value,
            ErrorView::RtpInfoParameterUnexpected { value } => lit("rtp info contains unexpected parameter: ") + value,
            ErrorView::Shutdown => lit("underlying socket was shut down"),
        }
    }
}

impl Error {
    /// What the error says, in words.
    pub fn message(&self) -> (r: Vec<u8>)
        ensures
            r@ == self@.message(),
    {
        let mut out: Vec<u8> = Vec::new();
        match self {
            Error::Encoding => {
                push_all(&mut out, "encoding incorrect".as_bytes());
            },
            Error::RequestLineMalformed { line } => {
                push_all(&mut out, "request line malformed: ".as_bytes());
                push_all(&mut out, line.as_slice());
            },
            Error::VersionMissing { line } => {
                push_all(&mut out, "version missing in request line: ".as_bytes());
                push_all(&mut out, line.as_slice());
            },
            Error::StatusCodeMissing { line } => {
                push_all(&mut out, "status code missing in response line: ".as_bytes());
                push_all(&mut out, line.as_slice());
            },
            Error::MethodUnknown { method } => {
                push_all(&mut out, "method unknown: ".as_bytes());
                push_all(&mut out, method.as_slice());
            },
            Error::UriMissing { line } => {
                push_all(&mut out, "uri missing in request line: ".as_bytes());
                push_all(&mut out, line.as_slice());
            },
            Error::UriMalformed { line, uri } => {
                push_all(&mut out, "uri malformed: ".as_bytes());
                push_all(&mut out, uri.as_slice());
                push_all(&mut out, " (in line: ".as_bytes());
                push_all(&mut out, line.as_slice());
                push_all(&mut out, ")".as_bytes());
            },
            Error::UriNotAbsolute { uri } => {
                push_all(&mut out, "uri must be absolute, but it is relative: ".as_bytes());
                push_all(&mut out, uri.to_bytes().as_slice());
            },
            Error::ReasonPhraseMissing { line } => {
                push_all(&mut out, "reason phrase missing in response line: ".as_bytes());
                push_all(&mut out, line.as_slice());
            },
            Error::VersionMalformed { line, version } => {
                push_all(&mut out, "version malformed: ".as_bytes());
                push_all(&mut out, version.as_slice());
                push_all(&mut out, " (in line: ".as_bytes());
                push_all(&mut out, line.as_slice());
                push_all(&mut out, ")".as_bytes());
            },
            Error::StatusCodeNotInteger { line, status_code } => {
                push_all(&mut out, "response has invalid status code: ".as_bytes());
                push_all(&mut out, status_code.as_slice());
                push_all(&mut out, " (in response line: ".as_bytes());
                push_all(&mut out, line.as_slice());
                push_all(&mut out, ")".as_bytes());
            },
            Error::HeaderMalformed { line } => {
                push_all(&mut out, "header line malformed: ".as_bytes());
                push_all(&mut out, line.as_slice());
            },
            Error::ContentLengthMissing => {
                push_all(&mut out, "request does not have Content-Length header".as_bytes());
            },
            Error::ContentLengthNotInteger { value } => {
                push_all(&mut out, "request has invalid value for Content-Length: ".as_bytes());
                push_all(&mut out, value.as_slice());
            },
            Error::HeadAlreadyDone => {
                push_all(&mut out, "head already done (cycle in state machine)".as_bytes());
            },
            Error::BodyAlreadyDone => {
                push_all(&mut out, "body already done (cycle in state machine)".as_bytes());
            },
            Error::MetadataNotParsed => {
                push_all(&mut out, "metadata not parsed".as_bytes());
            },
            Error::NotDone => {
                push_all(&mut out, "parser not done yet".as_bytes());
            },
            Error::VersionUnknown => {
                push_all(&mut out, "response has unknown version".as_bytes());
            },
            Error::TransportProtocolProfileMissing { value } => {
                push_all(&mut out, "transport protocol and/or profile missing: ".as_bytes());
                push_all(&mut out, value.as_slice());
            },
            Error::TransportLowerUnknown { value } => {
                push_all(&mut out, "transport lower protocol unknown: ".as_bytes());
                push_all(&mut out, value.as_slice());
            },
            Error::TransportParameterUnknown { var } => {
                push_all(&mut out, "transport parameter unknown: ".as_bytes());
                push_all(&mut out, var.as_slice());
            },
            Error::TransportParameterValueMissing { var } => {
                push_all(&mut out, "transport parameter should have value but does not (var: ".as_bytes());
                push_all(&mut out, var.as_slice());
                push_all(&mut out, ")".as_bytes());
            },
            Error::TransportParameterValueInvalid { var, val } => {
                push_all(&mut out, "transport parameter value is invalid or malformed (var: ".as_bytes());
                push_all(&mut out, var.as_slice());
                push_all(&mut out, ", val: ".as_bytes());
                push_all(&mut out, val.as_slice());
                push_all(&mut out, ")".as_bytes());
            },
            Error::TransportParameterInvalid { parameter } => {
                push_all(&mut out, "transport parameter invalid: ".as_bytes());
                push_all(&mut out, parameter.as_slice());
            },
            Error::TransportChannelMalformed { value } => {
                push_all(&mut out, "transport channel malformed: ".as_bytes());
                push_all(&mut out, value.as_slice());
            },
            Error::TransportPortMalformed { value } => {
                push_all(&mut out, "transport port malformed: ".as_bytes());
                push_all(&mut out, value.as_slice());
            },
            Error::InterleavedInvalid => {
                push_all(&mut out, "interleaved data does not have valid header magic character".as_bytes());
            },
            Error::InterleavedPayloadTooLarge => {
                push_all(&mut out, "interleaved payload too large".as_bytes());
            },
            Error::RangeMalformed { value } => {
                push_all(&mut out, "range malformed: ".as_bytes());
                push_all(&mut out, value.as_slice());
            },
            Error::RangeUnitNotSupported { value } => {
                push_all(&mut out, "range unit not supported: ".as_bytes());
                push_all(&mut out, value.as_slice());
            },
            Error::RangeTimeNotSupported { value } => {
                push_all(&mut out, "range time not supported: ".as_bytes());
                push_all(&mut out, value.as_slice());
            },
            Error::RangeNptTimeMalfored { value } => {
                push_all(&mut out, "range npt time malformed: ".as_bytes());
                push_all(&mut out, value.as_slice());
            },
            Error::RtpInfoUrlMissing { value } => {
                push_all(&mut out, "rtp info url missing: ".as_bytes());
                push_all(&mut out, value.as_slice());
            },
            Error::RtpInfoParameterUnknown { value } => {
                push_all(&mut out, "rtp info parameter unknown: ".as_bytes());
                push_all(&mut out, value.as_slice());
            },
            Error::RtpInfoParameterInvalid { value } => {
                push_all(&mut out, "rtp info parameter invalid: ".as_bytes());
                push_all(&mut out, value.as_slice());
            },
            Error::RtpInfoParameterUnexpected { value } => {
                push_all(&mut out, "rtp info contains unexpected parameter: ".as_bytes());
                push_all(&mut out, value.as_slice());
            },
            Error::Shutdown => {
                push_all(&mut out, "underlying socket was shut down".as_bytes());
            },
        }
        assert(out@ =~= self@.message());
        out
    }
}

} // verus!
