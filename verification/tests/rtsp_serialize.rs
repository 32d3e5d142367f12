use bytes::{Bytes, BytesMut};
use rave::rtsp::error::Error;
use rave::rtsp::message::{Headers, Method, Version};
use rave::rtsp::parse::Message;
use rave::rtsp::request::{Request, RequestMetadata};
use rave::rtsp::response::{Response, ResponseMetadata};
use rave::rtsp::uri::Uri;

fn headers(entries: &[(&str, &str)]) -> Headers {
    Headers::from_entries(
        entries
            .iter()
            .map(|(name, value)| (name.as_bytes().to_vec(), value.as_bytes().to_vec()))
            .collect(),
    )
}

#[test]
fn serialize_options_request() {
    let request_bytes = Bytes::from(
        b"OPTIONS rtsp://example.com/media.mp4 RTSP/1.0\r\n\
CSeq: 1\r\n\
Proxy-Require: gzipped-messages\r\n\
Require: implicit-play\r\n\
\r\n\
"
        .as_slice(),
    );

    let request = <Request as Message>::new(
        RequestMetadata::new(
            Method::Options,
            Uri::parse(b"rtsp://example.com/media.mp4").unwrap(),
            Version::V1,
        ),
        headers(&[
            ("CSeq", "1"),
            ("Proxy-Require", "gzipped-messages"),
            ("Require", "implicit-play"),
        ]),
        None,
    );

    let mut request_serialized = BytesMut::new();
    request.serialize(&mut request_serialized).unwrap();
    assert_eq!(request_serialized, request_bytes);
}

#[test]
fn serialize_options_request_headers_alphabetical() {
    let request_bytes = Bytes::from(
        b"OPTIONS rtsp://example.com/media.mp4 RTSP/1.0\r\n\
Aaa: value\r\n\
Bbb: value\r\n\
C: value\r\n\
Ca: value\r\n\
Cb: value\r\n\
Cc: value\r\n\
\r\n\
"
        .as_slice(),
    );

    let request = <Request as Message>::new(
        RequestMetadata::new(
            Method::Options,
            Uri::parse(b"rtsp://example.com/media.mp4").unwrap(),
            Version::V1,
        ),
        headers(&[
            ("Cc", "value"),
            ("C", "value"),
            ("Cb", "value"),
            ("Bbb", "value"),
            ("Aaa", "value"),
            ("Ca", "value"),
        ]),
        None,
    );

    let mut request_serialized = BytesMut::new();
    request.serialize(&mut request_serialized).unwrap();
    assert_eq!(request_serialized, request_bytes);
}

#[test]
fn serialize_options_request_any() {
    let request_bytes = Bytes::from(
        b"OPTIONS * RTSP/1.0\r\n\
CSeq: 1\r\n\
\r\n\
"
        .as_slice(),
    );

    let request = <Request as Message>::new(
        RequestMetadata::new(Method::Options, Uri::parse(b"*").unwrap(), Version::V1),
        headers(&[("CSeq", "1")]),
        None,
    );

    let mut request_serialized = BytesMut::new();
    request.serialize(&mut request_serialized).unwrap();
    assert_eq!(request_serialized, request_bytes);
}

#[test]
fn serialize_options_response() {
    let response_bytes = Bytes::from(
        b"RTSP/1.0 200 OK\r\n\
CSeq: 1\r\n\
Public: DESCRIBE, SETUP, TEARDOWN, PLAY, PAUSE\r\n\
\r\n\
"
        .as_slice(),
    );

    let response = <Response as Message>::new(
        ResponseMetadata::new(Version::V1, 200, b"OK".to_vec()),
        headers(&[
            ("CSeq", "1"),
            ("Public", "DESCRIBE, SETUP, TEARDOWN, PLAY, PAUSE"),
        ]),
        None,
    );

    let mut response_serialized = BytesMut::new();
    response.serialize(&mut response_serialized).unwrap();
    assert_eq!(response_serialized, response_bytes);
}

#[test]
fn serialize_options_response_error() {
    let response_bytes = Bytes::from(
        b"RTSP/1.0 404 Stream Not Found\r\n\
CSeq: 1\r\n\
\r\n\
"
        .as_slice(),
    );

    let response = <Response as Message>::new(
        ResponseMetadata::new(Version::V1, 404, b"Stream Not Found".to_vec()),
        headers(&[("CSeq", "1")]),
        None,
    );

    let mut response_serialized = BytesMut::new();
    response.serialize(&mut response_serialized).unwrap();
    assert_eq!(response_serialized, response_bytes);
}

#[test]
fn serialize_describe_request() {
    let request_bytes = Bytes::from(
        b"DESCRIBE rtsp://example.com/media.mp4 RTSP/1.0\r\n\
CSeq: 2\r\n\
\r\n\
"
        .as_slice(),
    );

    let request = <Request as Message>::new(
        RequestMetadata::new(
            Method::Describe,
            Uri::parse(b"rtsp://example.com/media.mp4").unwrap(),
            Version::V1,
        ),
        headers(&[("CSeq", "2")]),
        None,
    );

    let mut request_serialized = BytesMut::new();
    request.serialize(&mut request_serialized).unwrap();
    assert_eq!(request_serialized, request_bytes);
}

#[test]
fn serialize_describe_request_v2() {
    let request_bytes = Bytes::from(
        b"DESCRIBE rtsp://example.com/media.mp4 RTSP/2.0\r\n\
CSeq: 2\r\n\
\r\n\
"
        .as_slice(),
    );

    let request = <Request as Message>::new(
        RequestMetadata::new(
            Method::Describe,
            Uri::parse(b"rtsp://example.com/media.mp4").unwrap(),
            Version::V2,
        ),
        headers(&[("CSeq", "2")]),
        None,
    );

    let mut request_serialized = BytesMut::new();
    request.serialize(&mut request_serialized).unwrap();
    assert_eq!(request_serialized, request_bytes);
}

#[test]
fn serialize_describe_request_version_unknown_errors() {
    let request = <Request as Message>::new(
        RequestMetadata::new(
            Method::Describe,
            Uri::parse(b"rtsp://example.com/media.mp4").unwrap(),
            Version::Unknown,
        ),
        headers(&[("CSeq", "2")]),
        None,
    );

    let mut request_serialized = BytesMut::new();
    assert!(matches!(
        request.serialize(&mut request_serialized),
        Err(Error::VersionUnknown)
    ))
}

#[test]
fn serialize_describe_response() {
    let response_bytes = Bytes::from(
        b"RTSP/1.0 200 OK\r\n\
CSeq: 2\r\n\
Content-Base: rtsp://example.com/media.mp4\r\n\
Content-Length: 443\r\n\
Content-Type: application/sdp\r\n\
\r\n\
m=video 0 RTP/AVP 96
a=control:streamid=0
a=range:npt=0-7.741000
a=length:npt=7.741000
a=rtpmap:96 MP4V-ES/5544
a=mimetype:string;\"video/MP4V-ES\"
a=AvgBitRate:integer;304018
a=StreamName:string;\"hinted video track\"
m=audio 0 RTP/AVP 97
a=control:streamid=1
a=range:npt=0-7.712000
a=length:npt=7.712000
a=rtpmap:97 mpeg4-generic/32000/2
a=mimetype:string;\"audio/mpeg4-generic\"
a=AvgBitRate:integer;65790
a=StreamName:string;\"hinted audio track\""
            .as_slice(),
    );

    let response = <Response as Message>::new(
        ResponseMetadata::new(Version::V1, 200, b"OK".to_vec()),
        headers(&[
            ("CSeq", "2"),
            ("Content-Base", "rtsp://example.com/media.mp4"),
            ("Content-Length", "443"),
            ("Content-Type", "application/sdp"),
        ]),
        Some(Bytes::from(
            b"m=video 0 RTP/AVP 96
a=control:streamid=0
a=range:npt=0-7.741000
a=length:npt=7.741000
a=rtpmap:96 MP4V-ES/5544
a=mimetype:string;\"video/MP4V-ES\"
a=AvgBitRate:integer;304018
a=StreamName:string;\"hinted video track\"
m=audio 0 RTP/AVP 97
a=control:streamid=1
a=range:npt=0-7.712000
a=length:npt=7.712000
a=rtpmap:97 mpeg4-generic/32000/2
a=mimetype:string;\"audio/mpeg4-generic\"
a=AvgBitRate:integer;65790
a=StreamName:string;\"hinted audio track\""
                .as_slice(),
        )),
    );

    let mut response_serialized = BytesMut::new();
    response.serialize(&mut response_serialized).unwrap();
    assert_eq!(response_serialized, response_bytes);
}

#[test]
fn serialize_play_request() {
    let request_bytes = Bytes::from(
        b"PLAY rtsp://example.com/stream/0 RTSP/1.0\r\n\
CSeq: 1\r\n\
Content-Length: 16\r\n\
Session: 1234abcd\r\n\
\r\n\
0123456789abcdef"
            .as_slice(),
    );

    let request = <Request as Message>::new(
        RequestMetadata::new(
            Method::Play,
            Uri::parse(b"rtsp://example.com/stream/0").unwrap(),
            Version::V1,
        ),
        headers(&[
            ("CSeq", "1"),
            ("Content-Length", "16"),
            ("Session", "1234abcd"),
        ]),
        Some(Bytes::from(b"0123456789abcdef".as_slice())),
    );

    let mut request_serialized = BytesMut::new();
    request.serialize(&mut request_serialized).unwrap();
    assert_eq!(request_serialized, request_bytes);
}
