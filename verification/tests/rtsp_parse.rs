use bytes::{Bytes, BytesMut};
use rave::rtsp::message::{Headers, Method, StatusCategory, Version};
use rave::rtsp::parse::{RequestParser, ResponseParser, Status};
use rave::rtsp::request::Request;

fn header<'a>(headers: &'a Headers, name: &str) -> Option<&'a str> {
    headers
        .get(name.as_bytes())
        .map(|value| std::str::from_utf8(value).unwrap())
}

#[test]
fn parse_options_request() {
    let request = br###"OPTIONS rtsp://example.com/media.mp4 RTSP/1.0
CSeq: 1
Require: implicit-play
Proxy-Require: gzipped-messages

"###;

    let request = RequestParser::new()
        .parse_and_into_request(Bytes::copy_from_slice(request.as_slice()))
        .unwrap();
    assert_eq!(request.method, Method::Options);
    assert_eq!(request.uri.to_bytes(), b"rtsp://example.com/media.mp4");
    assert_eq!(request.version, Version::V1);
    assert_eq!(header(&request.headers, "CSeq"), Some("1"));
    assert_eq!(header(&request.headers, "Require"), Some("implicit-play"));
    assert_eq!(
        header(&request.headers, "Proxy-Require"),
        Some("gzipped-messages")
    );
}

#[test]
fn parse_options_request_any() {
    let request = br###"OPTIONS * RTSP/1.0
CSeq: 1

"###;

    let request = RequestParser::new()
        .parse_and_into_request(Bytes::copy_from_slice(request.as_slice()))
        .unwrap();
    assert_eq!(request.method, Method::Options);
    assert_eq!(request.uri.to_bytes(), b"*");
    assert_eq!(request.version, Version::V1);
    assert_eq!(header(&request.headers, "CSeq"), Some("1"));
}

#[test]
fn parse_options_response() {
    let response = br###"RTSP/1.0 200 OK
CSeq: 1
Public: DESCRIBE, SETUP, TEARDOWN, PLAY, PAUSE

"###;

    let response = ResponseParser::new()
        .parse_and_into_response(Bytes::copy_from_slice(response.as_slice()))
        .unwrap();
    assert_eq!(response.version, Version::V1);
    assert_eq!(response.status, 200);
    assert_eq!(response.status(), StatusCategory::Success);
    assert_eq!(response.reason, b"OK");
    assert_eq!(header(&response.headers, "CSeq"), Some("1"));
    assert_eq!(
        header(&response.headers, "Public"),
        Some("DESCRIBE, SETUP, TEARDOWN, PLAY, PAUSE")
    );
}

#[test]
fn parse_options_response_error() {
    let response = br###"RTSP/1.0 404 Stream Not Found
CSeq: 1

"###;

    let response = ResponseParser::new()
        .parse_and_into_response(Bytes::copy_from_slice(response.as_slice()))
        .unwrap();
    assert_eq!(response.version, Version::V1);
    assert_eq!(response.status, 404);
    assert_eq!(response.status(), StatusCategory::ClientError);
    assert_eq!(response.reason, b"Stream Not Found");
    assert_eq!(header(&response.headers, "CSeq"), Some("1"));
}

#[test]
fn parse_describe_request() {
    let request = br###"DESCRIBE rtsp://example.com/media.mp4 RTSP/1.0
CSeq: 2

"###;

    let request = RequestParser::new()
        .parse_and_into_request(Bytes::copy_from_slice(request.as_slice()))
        .unwrap();
    assert_eq!(request.method, Method::Describe);
    assert_eq!(request.uri.to_bytes(), b"rtsp://example.com/media.mp4");
    assert_eq!(request.version, Version::V1);
    assert_eq!(header(&request.headers, "CSeq"), Some("2"));
}

#[test]
fn parse_describe_request_v2() {
    let request = br###"DESCRIBE rtsp://example.com/media.mp4 RTSP/2.0
CSeq: 2

"###;

    let request = RequestParser::new()
        .parse_and_into_request(Bytes::copy_from_slice(request.as_slice()))
        .unwrap();
    assert_eq!(request.method, Method::Describe);
    assert_eq!(request.uri.to_bytes(), b"rtsp://example.com/media.mp4");
    assert_eq!(request.version, Version::V2);
    assert_eq!(header(&request.headers, "CSeq"), Some("2"));
}

#[test]
fn parse_describe_request_v3() {
    let request = br###"DESCRIBE rtsp://example.com/media.mp4 RTSP/3.0
CSeq: 2

"###;

    let request = RequestParser::new()
        .parse_and_into_request(Bytes::copy_from_slice(request.as_slice()))
        .unwrap();
    assert_eq!(request.method, Method::Describe);
    assert_eq!(request.uri.to_bytes(), b"rtsp://example.com/media.mp4");
    assert_eq!(request.version, Version::Unknown);
    assert_eq!(header(&request.headers, "CSeq"), Some("2"));
}

#[test]
fn parse_describe_response() {
    let response = br###"RTSP/1.0 200 OK
CSeq: 2
Content-Base: rtsp://example.com/media.mp4
Content-Type: application/sdp
Content-Length: 443

m=video 0 RTP/AVP 96
a=control:streamid=0
a=range:npt=0-7.741000
a=length:npt=7.741000
a=rtpmap:96 MP4V-ES/5544
a=mimetype:string;"video/MP4V-ES"
a=AvgBitRate:integer;304018
a=StreamName:string;"hinted video track"
m=audio 0 RTP/AVP 97
a=control:streamid=1
a=range:npt=0-7.712000
a=length:npt=7.712000
a=rtpmap:97 mpeg4-generic/32000/2
a=mimetype:string;"audio/mpeg4-generic"
a=AvgBitRate:integer;65790
a=StreamName:string;"hinted audio track""###;

    let response = ResponseParser::new()
        .parse_and_into_response(Bytes::copy_from_slice(response.as_slice()))
        .unwrap();
    assert_eq!(response.version, Version::V1);
    assert_eq!(response.status, 200);
    assert_eq!(response.reason, b"OK");
    assert_eq!(header(&response.headers, "CSeq"), Some("2"));
    assert_eq!(
        header(&response.headers, "Content-Base"),
        Some("rtsp://example.com/media.mp4")
    );
    assert_eq!(
        header(&response.headers, "Content-Type"),
        Some("application/sdp")
    );
    assert_eq!(header(&response.headers, "Content-Length"), Some("443"));
}

const EXAMPLE_PIPELINED_REQUESTS: &[u8] = br###"RECORD rtsp://example.com/media.mp4 RTSP/1.0
CSeq: 6
Session: 12345678

ANNOUNCE rtsp://example.com/media.mp4 RTSP/1.0
CSeq: 7
Date: 23 Jan 1997 15:35:06 GMT
Session: 12345678
Content-Type: application/sdp
Content-Length: 305

v=0
o=mhandley 2890844526 2890845468 IN IP4 126.16.64.4
s=SDP Seminar
i=A Seminar on the session description protocol
u=http://www.cs.ucl.ac.uk/staff/M.Handley/sdp.03.ps
e=mjh@isi.edu (Mark Handley)
c=IN IP4 224.2.17.12/127
t=2873397496 2873404696
a=recvonly
m=audio 3456 RTP/AVP 0
m=video 2232 RTP/AVP 31TEARDOWN rtsp://example.com/media.mp4 RTSP/1.0
CSeq: 8
Session: 12345678

"###;

#[test]
fn parse_pipelined_requests() {
    let mut buffer = Bytes::from_static(EXAMPLE_PIPELINED_REQUESTS);
    let mut parser = RequestParser::new();

    let mut requests = Vec::new();
    for _ in 0..3 {
        if parser.parse(&mut buffer).unwrap() == Status::Done {
            requests.push(parser.into_request().unwrap());
            parser = RequestParser::new();
        }
    }

    test_example_piplined_requests(&requests);
}

#[test]
fn parse_pipelined_requests_pieces1() {
    let mut buffer = BytesMut::new();
    let mut parser = RequestParser::new();

    let mut requests = Vec::new();
    for i in 0..EXAMPLE_PIPELINED_REQUESTS.len() {
        buffer.extend_from_slice(&EXAMPLE_PIPELINED_REQUESTS[i..i + 1]);
        if parser.parse(&mut buffer).unwrap() == Status::Done {
            requests.push(parser.into_request().unwrap());
            parser = RequestParser::new();
        }
    }

    test_example_piplined_requests(&requests);
}

#[test]
fn parse_pipelined_requests_pieces_varying() {
    let mut buffer = BytesMut::new();
    let mut parser = RequestParser::new();

    let mut requests = Vec::new();
    let mut start = 0;
    let mut size = 1;
    loop {
        let piece_range = start..(start + size).min(EXAMPLE_PIPELINED_REQUESTS.len());
        buffer.extend_from_slice(&EXAMPLE_PIPELINED_REQUESTS[piece_range]);
        if let Status::Done = parser.parse(&mut buffer).unwrap() {
            requests.push(parser.into_request().unwrap());
            parser = RequestParser::new();
        }
        start += size;
        size = (size * 2) % 9;
        if start >= EXAMPLE_PIPELINED_REQUESTS.len() {
            break;
        }
    }

    test_example_piplined_requests(&requests);
}

fn test_example_piplined_requests(requests: &[Request]) {
    assert_eq!(requests.len(), 3);
    assert_eq!(requests[0].method, Method::Record);
    assert_eq!(requests[0].uri.to_bytes(), b"rtsp://example.com/media.mp4");
    assert_eq!(requests[0].version, Version::V1);
    assert_eq!(header(&requests[0].headers, "CSeq"), Some("6"));
    assert_eq!(header(&requests[0].headers, "Session"), Some("12345678"));
    assert_eq!(requests[0].body, None);
    assert_eq!(requests[1].method, Method::Announce);
    assert_eq!(requests[1].uri.to_bytes(), b"rtsp://example.com/media.mp4");
    assert_eq!(requests[1].version, Version::V1);
    assert_eq!(header(&requests[1].headers, "CSeq"), Some("7"));
    assert_eq!(header(&requests[1].headers, "Session"), Some("12345678"));
    assert_eq!(
        header(&requests[1].headers, "Date"),
        Some("23 Jan 1997 15:35:06 GMT")
    );
    assert_eq!(
        header(&requests[1].headers, "Content-Type"),
        Some("application/sdp")
    );
    assert_eq!(header(&requests[1].headers, "Content-Length"), Some("305"));
    assert_eq!(requests[1].body.as_ref().unwrap().len(), 305);
    assert_eq!(requests[2].method, Method::Teardown);
    assert_eq!(requests[2].uri.to_bytes(), b"rtsp://example.com/media.mp4");
    assert_eq!(requests[2].version, Version::V1);
    assert_eq!(header(&requests[2].headers, "CSeq"), Some("8"));
    assert_eq!(header(&requests[2].headers, "Session"), Some("12345678"));
    assert_eq!(requests[2].body, None);
}

const EXAMPLE_REQUEST_PLAY_CRLN: &[u8] = b"PLAY rtsp://example.com/stream/0 RTSP/1.0\r\n\
CSeq: 1\r\n\
Session: 1234abcd\r\n\
Content-Length: 16\r\n\
\r\n\
0123456789abcdef";

#[test]
fn parse_play_request() {
    let request = RequestParser::new()
        .parse_and_into_request(Bytes::from_static(EXAMPLE_REQUEST_PLAY_CRLN))
        .unwrap();
    test_example_request_play(&request);
}

#[test]
fn parse_play_request_partial_piece1_ln() {
    parse_play_request_partial_piece1(&request_play_ln());
}

#[test]
fn parse_play_request_partial_piece2_ln() {
    parse_play_request_partial_piece(&request_play_ln(), 2);
}

#[test]
fn parse_play_request_partial_piece3_ln() {
    parse_play_request_partial_piece(&request_play_ln(), 3);
}

#[test]
fn parse_play_request_partial_piece_varying_ln() {
    parse_play_request_partial_piece_varying(&request_play_ln());
}

#[test]
fn parse_play_request_partial_piece1_cr() {
    parse_play_request_partial_piece1(&request_play_cr());
}

#[test]
fn parse_play_request_partial_piece2_cr() {
    parse_play_request_partial_piece(&request_play_cr(), 2);
}

#[test]
fn parse_play_request_partial_piece3_cr() {
    parse_play_request_partial_piece(&request_play_cr(), 3);
}

#[test]
fn parse_play_request_partial_piece_varying_cr() {
    parse_play_request_partial_piece_varying(&request_play_cr());
}

#[test]
fn parse_play_request_partial_piece1_crln() {
    parse_play_request_partial_piece1(&request_play_crln());
}

#[test]
fn parse_play_request_partial_piece2_crln() {
    parse_play_request_partial_piece(&request_play_crln(), 2);
}

#[test]
fn parse_play_request_partial_piece3_crln() {
    parse_play_request_partial_piece(&request_play_crln(), 3);
}

#[test]
fn parse_play_request_partial_piece_varying_crln() {
    parse_play_request_partial_piece_varying(&request_play_crln());
}

fn request_play_ln() -> Bytes {
    EXAMPLE_REQUEST_PLAY_CRLN
        .iter()
        .copied()
        .filter(|b| *b != b'\x0d')
        .collect::<Bytes>()
}

fn request_play_cr() -> Bytes {
    EXAMPLE_REQUEST_PLAY_CRLN
        .iter()
        .copied()
        .filter(|b| *b != b'\x0a')
        .collect::<Bytes>()
}

fn request_play_crln() -> Bytes {
    Bytes::from_static(EXAMPLE_REQUEST_PLAY_CRLN)
}

fn parse_play_request_partial_piece1(request_bytes: &[u8]) {
    let mut buffer = BytesMut::new();
    let mut parser = RequestParser::new();

    let upto_last = request_bytes.len() - 1;
    for i in 0..upto_last {
        let i_range = i..i + 1;
        buffer.extend_from_slice(&request_bytes[i_range]);
        assert_eq!(parser.parse(&mut buffer).unwrap(), Status::Hungry);
    }

    let last_range = request_bytes.len() - 1..;
    buffer.extend_from_slice(&request_bytes[last_range]);
    assert_eq!(parser.parse(&mut buffer).unwrap(), Status::Done);

    let request = parser.into_request().unwrap();
    test_example_request_play(&request);
}

fn parse_play_request_partial_piece(request_bytes: &[u8], piece_size: usize) {
    let mut buffer = BytesMut::new();
    let mut parser = RequestParser::new();

    let pieces_upto_last = (request_bytes.len() / piece_size) - 1;
    for i in 0..pieces_upto_last {
        let piece_range = (i * piece_size)..(i * piece_size) + piece_size;
        buffer.extend_from_slice(&request_bytes[piece_range]);
        assert_eq!(parser.parse(&mut buffer).unwrap(), Status::Hungry);
    }

    let last_piece = pieces_upto_last;
    let leftover_piece_range = last_piece * piece_size..;
    buffer.extend_from_slice(&request_bytes[leftover_piece_range]);
    assert_eq!(parser.parse(&mut buffer).unwrap(), Status::Done);

    let request = parser.into_request().unwrap();
    test_example_request_play(&request);
}

fn parse_play_request_partial_piece_varying(request_bytes: &[u8]) {
    let mut buffer = BytesMut::new();
    let mut parser = RequestParser::new();

    let mut start = 0;
    let mut size = 1;
    loop {
        let piece_range = start..(start + size).min(request_bytes.len());
        buffer.extend_from_slice(&request_bytes[piece_range]);
        if let Status::Done = parser.parse(&mut buffer).unwrap() {
            break;
        }
        start += size;
        size = (size * 2) % 9;
    }

    let request = parser.into_request().unwrap();
    test_example_request_play(&request);
}

fn test_example_request_play(request: &Request) {
    assert_eq!(request.method, Method::Play);
    assert_eq!(request.uri.to_bytes(), b"rtsp://example.com/stream/0");
    assert_eq!(request.version, Version::V1);
    assert_eq!(header(&request.headers, "CSeq"), Some("1"));
    assert_eq!(header(&request.headers, "Session"), Some("1234abcd"));
    assert_eq!(header(&request.headers, "Content-Length"), Some("16"));
    assert_eq!(request.body, Some(b"0123456789abcdef".as_slice().into()));
}
