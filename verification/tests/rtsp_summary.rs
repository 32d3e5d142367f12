use bytes::Bytes;
use rave::rtsp::interleaved::MaybeInterleaved;
use rave::rtsp::message::{Headers, Method, Version};
use rave::rtsp::request::Request;
use rave::rtsp::response::{Response, ResponseBuilder};
use rave::rtsp::summary::Summary;
use rave::rtsp::transport::{Parameter, Port, Transport};
use rave::rtsp::uri::Uri;

fn text(bytes: Vec<u8>) -> String {
    String::from_utf8(bytes).unwrap()
}

#[test]
fn version_numbers_for_people() {
    assert_eq!(Version::V1.number(), "1.0");
    assert_eq!(Version::V2.number(), "2.0");
    assert_eq!(Version::Unknown.number(), "?");
}

#[test]
fn request_summary_lists_headers() {
    let uri = Uri::parse(b"rtsp://example.com/stream").unwrap();
    let request = Request::options(&uri, 3);
    assert_eq!(
        text(request.summary()),
        "Version: 1.0, Method: OPTIONS, Uri: rtsp://example.com/stream\nHeaders:\n - CSeq: 3\n"
    );
}

#[test]
fn request_summary_without_headers_is_one_line() {
    let request = Request {
        method: Method::Play,
        uri: Uri::parse(b"rtsp://example.com/stream").unwrap(),
        version: Version::Unknown,
        headers: Headers::new(),
        body: None,
    };
    assert_eq!(
        text(request.summary()),
        "Version: ?, Method: PLAY, Uri: rtsp://example.com/stream"
    );
}

#[test]
fn response_summary_gives_the_size_of_the_body() {
    let response = ResponseBuilder::ok()
        .with_header(b"CSeq", b"7")
        .with_header(b"Accept", b"application/sdp")
        .with_body(Bytes::from_static(b"0123456789"), b"text/plain")
        .build();
    assert_eq!(
        text(response.summary()),
        "Version: 1.0, Status Code: 200, Reason Phrase: OK\nHeaders:\n - Accept: application/sdp\n - CSeq: 7\n - Content-Length: 10\n - Content-Type: text/plain\n[10 bytes]\n"
    );
}

#[test]
fn frame_summary_gives_channel_and_size() {
    let frame: MaybeInterleaved<Response> =
        MaybeInterleaved::Interleaved { channel: 2, payload: Bytes::from_static(b"abcde") };
    assert_eq!(text(frame.summary()), "interleaved payload over channel: 2, size: 5");
    let message: MaybeInterleaved<Response> = MaybeInterleaved::Message(Response::ok().build());
    assert_eq!(text(message.summary()), "Version: 1.0, Status Code: 200, Reason Phrase: OK");
}

#[test]
fn parser_hands_out_the_response_it_has_read() {
    let mut parser = rave::rtsp::parse::ResponseParser::new();
    let mut buffer = Bytes::from_static(b"RTSP/1.0 200 OK\r\nCSeq: 4\r\n\r\n");
    assert_eq!(
        parser.parse(&mut buffer).unwrap(),
        rave::rtsp::parse::Status::Done
    );
    let response = parser.into_response().unwrap();
    assert_eq!(response.status, 200);
    assert_eq!(response.reason, b"OK");
    assert_eq!(response.headers.get(b"CSeq").unwrap(), b"4");
    assert!(response.body.is_none());
}

#[test]
fn parser_without_a_whole_message_hands_out_nothing() {
    let mut parser = rave::rtsp::parse::ResponseParser::new();
    let mut buffer = Bytes::from_static(b"RTSP/1.0 200 OK\r\nCSeq: 4\r\n");
    assert_eq!(
        parser.parse(&mut buffer).unwrap(),
        rave::rtsp::parse::Status::Hungry
    );
    assert!(parser.into_response().is_err());
}

#[test]
fn transport_takes_parameters_in_order() {
    let transport = Transport::new()
        .with_parameter(Parameter::Unicast)
        .with_parameters(vec![Parameter::ClientPort(Port::Range(5000, 5001)), Parameter::Ttl(3)]);
    assert_eq!(
        transport.parameters(),
        &vec![
            Parameter::Unicast,
            Parameter::ClientPort(Port::Range(5000, 5001)),
            Parameter::Ttl(3),
        ]
    );
    assert_eq!(transport.to_bytes(), b"RTP/AVP;unicast;client_port=5000-5001;ttl=3");
}

#[test]
fn unit_gives_its_data_back() {
    let unit = rave::types::Unit::new(Bytes::from_static(&[0x65, 1, 2, 3]));
    assert_eq!(&unit.into_data()[..], &[0x65, 1, 2, 3]);
}
