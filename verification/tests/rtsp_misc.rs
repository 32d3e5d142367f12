use bytes::{Bytes, BytesMut};
use rave::rtsp::buffer::ReadLine;
use rave::rtsp::codec::Codec;
use rave::rtsp::error::Error;
use rave::rtsp::interleaved::{InterleavedParser, MaybeInterleaved, Serialize};
use rave::rtsp::io::{AsClient, AsServer};
use rave::rtsp::message::{
    status_from_code, status_to_code, status_to_reason, Headers, Method, Status, StatusCategory,
    Version,
};
use rave::rtsp::parse::{RequestParser, ResponseParser, Status as ParserStatus};
use rave::rtsp::range::{NptTime, Range};
use rave::rtsp::request::Request;
use rave::rtsp::response::{Response, ResponseBuilder};
use rave::rtsp::rtp_info::RtpInfo;
use rave::rtsp::transport::{Lower, Parameter, Port, Transport};
use rave::rtsp::uri::Uri;

fn uri(text: &str) -> Uri {
    Uri::parse(text.as_bytes()).unwrap()
}

#[test]
fn read_line_takes_terminated_lines_only() {
    let mut buffer = BytesMut::from(&b"one\r\ntwo\nthree\rfour\r"[..]);
    assert_eq!(buffer.read_line().unwrap().unwrap(), b"one");
    assert_eq!(buffer.read_line().unwrap().unwrap(), b"two");
    assert_eq!(buffer.read_line().unwrap().unwrap(), b"three");
    assert!(buffer.read_line().is_none());
    assert_eq!(&buffer[..], b"four\r");
    buffer.extend_from_slice(b"\n");
    assert_eq!(buffer.read_line().unwrap().unwrap(), b"four");
    assert!(buffer.read_line().is_none());
    assert_eq!(buffer.len(), 0);
}

#[test]
fn read_line_rejects_invalid_utf8() {
    let mut buffer = Bytes::from_static(&[b'a', 0xff, b'\n', b'b', b'\n']);
    assert!(matches!(buffer.read_line(), Some(Err(Error::Encoding))));
    assert_eq!(buffer.read_line().unwrap().unwrap(), b"b");
    let mut good = Bytes::from_static("gr\u{fc}n\n".as_bytes());
    assert_eq!(good.read_line().unwrap().unwrap(), "gr\u{fc}n".as_bytes());
}

#[test]
fn uri_components_come_from_the_parser() {
    let uri = uri("rtsp://user@example.com:8554/stream/0?x=1");
    assert_eq!(uri.scheme().unwrap(), b"rtsp");
    assert_eq!(uri.authority().unwrap(), b"user@example.com:8554");
    assert_eq!(uri.host().unwrap(), b"example.com");
    assert_eq!(uri.port(), Some(8554));
    assert_eq!(uri.path(), b"/stream/0");
    assert_eq!(uri.query().unwrap(), b"x=1");
    assert_eq!(uri.to_bytes(), b"rtsp://user@example.com:8554/stream/0?x=1");
    assert!(uri.is_target());
    assert!(Uri::parse(b"rtsp://exa mple").is_none());
    let any = Uri::parse(b"*").unwrap();
    assert!(any.is_target());
    assert_eq!(any.to_bytes(), b"*");
    let relative = Uri::parse(b"/just/a/path").unwrap();
    assert!(!relative.is_target());
}

#[test]
fn uri_redirect_replaces_path_and_query() {
    let uri = uri("rtsp://example.com/a?b=c");
    let moved = uri.redirected_to(b"/other/place?d=e").unwrap();
    assert_eq!(moved.to_bytes(), b"rtsp://example.com/other/place?d=e");
    assert_eq!(moved.host().unwrap(), b"example.com");
    assert!(uri.redirected_to(b"no path \x7f").is_none());
}

#[test]
fn request_line_errors() {
    let parse = |text: &[u8]| RequestParser::new().parse_and_into_request(Bytes::copy_from_slice(text));
    assert!(matches!(
        parse(b"FETCH rtsp://example.com/ RTSP/1.0\r\n\r\n"),
        Err(Error::MethodUnknown { method: _ })
    ));
    assert!(matches!(
        parse(b"PLAY\r\n\r\n"),
        Err(Error::UriMissing { line: _ })
    ));
    assert!(matches!(
        parse(b"PLAY /relative RTSP/1.0\r\n\r\n"),
        Err(Error::UriNotAbsolute { uri: _ })
    ));
    assert!(matches!(
        parse(b"PLAY rtsp://example.com/\r\n\r\n"),
        Err(Error::VersionMissing { line: _ })
    ));
    assert!(matches!(
        parse(b"PLAY rtsp://example.com/ HTTP/1.1\r\n\r\n"),
        Err(Error::VersionMalformed { line: _, version: _ })
    ));
    assert!(matches!(
        parse(b"PLAY rtsp://example.com/ RTSP/1.0\r\nno colon\r\n\r\n"),
        Err(Error::HeaderMalformed { line: _ })
    ));
    assert!(matches!(
        parse(b"PLAY rtsp://example.com/ RTSP/1.0\r\nContent-Length: x\r\n\r\n"),
        Err(Error::ContentLengthNotInteger { value: _ })
    ));
    assert!(matches!(
        parse(b"PLAY rtsp://example.com/ RTSP/1.0\r\n"),
        Err(Error::NotDone)
    ));
}

#[test]
fn status_line_errors() {
    let parse =
        |text: &[u8]| ResponseParser::new().parse_and_into_response(Bytes::copy_from_slice(text));
    assert!(matches!(
        parse(b"RTSP/1.0\r\n\r\n"),
        Err(Error::StatusCodeMissing { line: _ })
    ));
    assert!(matches!(
        parse(b"RTSP/1.0 200\r\n\r\n"),
        Err(Error::ReasonPhraseMissing { line: _ })
    ));
    assert!(matches!(
        parse(b"RTSP/1.0 abc OK\r\n\r\n"),
        Err(Error::StatusCodeNotInteger {
            line: _,
            status_code: _
        })
    ));
}

#[test]
fn parser_refuses_to_go_on_after_done() {
    let mut parser = RequestParser::new();
    let mut buffer = BytesMut::from(&b"OPTIONS * RTSP/1.0\r\n\r\nrest"[..]);
    assert_eq!(parser.parse(&mut buffer).unwrap(), ParserStatus::Done);
    assert_eq!(&buffer[..], b"rest");
    assert!(matches!(
        parser.parse(&mut buffer),
        Err(Error::BodyAlreadyDone)
    ));
}

#[test]
fn request_survives_wire_whole_and_in_pieces() {
    let request = Request::play(
        &uri("rtsp://example.com/stream"),
        3,
        b"abc",
        Range::new_for_live(),
    );
    let mut wire = BytesMut::new();
    request.clone().serialize(&mut wire).unwrap();
    assert_eq!(
        &wire[..],
        &b"PLAY rtsp://example.com/stream RTSP/1.0\r\nCSeq: 3\r\nRange: npt=now-\r\nSession: abc\r\n\r\n"[..]
    );
    let whole = RequestParser::new()
        .parse_and_into_request(wire.clone())
        .unwrap();
    assert_eq!(whole, request);
    let mut parser = RequestParser::new();
    let mut buffer = BytesMut::new();
    for i in 0..wire.len() {
        buffer.extend_from_slice(&wire[i..i + 1]);
        let status = parser.parse(&mut buffer).unwrap();
        assert_eq!(status == ParserStatus::Done, i == wire.len() - 1);
    }
    assert_eq!(buffer.len(), 0);
    assert_eq!(parser.into_request().unwrap(), request);
}

#[test]
fn response_survives_wire() {
    let response = Response::ok()
        .with_header(b"CSeq", b"9")
        .with_body(Bytes::from_static(b"hello"), b"text/plain")
        .build();
    assert_eq!(response.status(), StatusCategory::Success);
    let mut wire = BytesMut::new();
    response.clone().serialize(&mut wire).unwrap();
    assert_eq!(
        &wire[..],
        &b"RTSP/1.0 200 OK\r\nCSeq: 9\r\nContent-Length: 5\r\nContent-Type: text/plain\r\n\r\nhello"[..]
    );
    let parsed = ResponseParser::new()
        .parse_and_into_response(wire)
        .unwrap();
    assert_eq!(parsed, response);
}

#[test]
fn response_builder_steps() {
    let request = Request::options(&uri("rtsp://example.com/"), 41);
    let response = ResponseBuilder::error(Status::SessionNotFound)
        .with_cseq_of(&request)
        .with_rtp_info(vec![
            RtpInfo::new(b"rtsp://example.com/0").with_seq(5),
            RtpInfo::new_with_timing(b"rtsp://example.com/1", 6, 7),
        ])
        .with_sdp(b"v=0\n".to_vec())
        .build();
    assert_eq!(response.version, Version::V1);
    assert_eq!(response.status, 454);
    assert_eq!(response.reason, b"Session Not Found");
    assert_eq!(response.status(), StatusCategory::ClientError);
    assert_eq!(response.headers.get(b"CSeq").unwrap(), b"41");
    assert_eq!(
        response.headers.get(b"RTP-Info").unwrap(),
        b"url=rtsp://example.com/0;seq=5,url=rtsp://example.com/1;seq=6;rtptime=7"
    );
    assert_eq!(response.headers.get(b"Content-Length").unwrap(), b"4");
    assert_eq!(
        response.headers.get(b"Content-Type").unwrap(),
        b"application/sdp"
    );
    assert_eq!(&response.body.unwrap()[..], b"v=0\n");
}

#[test]
fn status_categories() {
    let with = |status: usize| {
        let mut response = Response::ok().build();
        response.status = status;
        response.status()
    };
    assert_eq!(with(99), StatusCategory::Unknown);
    assert_eq!(with(100), StatusCategory::Informational);
    assert_eq!(with(299), StatusCategory::Success);
    assert_eq!(with(302), StatusCategory::Redirection);
    assert_eq!(with(404), StatusCategory::ClientError);
    assert_eq!(with(599), StatusCategory::ServerError);
    assert_eq!(with(600), StatusCategory::Unknown);
}

#[test]
fn status_tables_agree() {
    assert_eq!(status_to_code(Status::Okay), 200);
    assert_eq!(status_to_reason(Status::Okay), "OK");
    assert_eq!(status_from_code(461), Some(Status::UnsupportedTransport));
    assert_eq!(status_from_code(299), None);
    assert_eq!(
        Status::RequestUriTooLong.to_bytes(),
        b"414 Request-URI Too Long"
    );
    for code in 0..700 {
        if let Some(status) = status_from_code(code) {
            assert_eq!(status_to_code(status), code);
        }
    }
}

#[test]
fn methods_by_name() {
    assert_eq!(Method::from_bytes(b"GET_PARAMETER").unwrap(), Method::GetParameter);
    assert_eq!(Method::SetParameter.to_bytes(), b"SET_PARAMETER");
    assert!(matches!(
        Method::from_bytes(b"play"),
        Err(Error::MethodUnknown { method: _ })
    ));
}

#[test]
fn headers_keep_names_once_and_in_order() {
    let mut headers = Headers::new();
    assert!(headers.is_empty());
    assert_eq!(headers.insert(b"b".to_vec(), b"1".to_vec()), None);
    assert_eq!(headers.insert(b"a".to_vec(), b"2".to_vec()), None);
    assert_eq!(headers.insert(b"ab".to_vec(), b"3".to_vec()), None);
    assert_eq!(
        headers.insert(b"b".to_vec(), b"4".to_vec()),
        Some(b"1".to_vec())
    );
    assert!(headers.contains(b"ab"));
    assert!(!headers.contains(b"B"));
    assert_eq!(headers.get(b"b").unwrap(), b"4");
    assert_eq!(
        headers.as_map(),
        &vec![
            (b"a".to_vec(), b"2".to_vec()),
            (b"ab".to_vec(), b"3".to_vec()),
            (b"b".to_vec(), b"4".to_vec()),
        ]
    );
    let mut more = Headers::with_cseq_and_session(7, b"s");
    more.extend(headers.clone());
    assert_eq!(more.into_map().len(), 5);
    assert_eq!(
        Headers::with_cseq(12).into_map(),
        vec![(b"CSeq".to_vec(), b"12".to_vec())]
    );
}

#[test]
fn request_helpers() {
    let target = uri("rtsp://example.com/stream/");
    let transport = Transport::new()
        .with_lower_protocol(Lower::Tcp)
        .with_parameter(Parameter::ClientPort(Port::Range(5000, 5001)));
    let setup = Request::setup(&target, 2, transport.clone(), Some(b"sess"));
    assert_eq!(setup.method, Method::Setup);
    assert_eq!(setup.session().unwrap(), b"sess");
    assert_eq!(setup.transport().unwrap(), vec![transport]);
    assert_eq!(setup.path(), b"/stream");
    assert_eq!(setup.uri().to_bytes(), b"rtsp://example.com/stream/");
    assert!(setup.range().is_none());
    assert!(setup.require().is_none());
    assert_eq!(setup.accept().len(), 0);
    let describe = Request::describe(&target, 1);
    assert_eq!(describe.headers.get(b"CSeq").unwrap(), b"1");
    assert!(describe.transport().unwrap().is_empty());
    let play = Request::play(
        &target,
        3,
        b"sess",
        Range::new(
            NptTime::Time {
                seconds: 1,
                millis: 500,
            },
            NptTime::Time {
                seconds: 10,
                millis: 0,
            },
        ),
    );
    assert_eq!(play.headers.get(b"Range").unwrap(), b"npt=1.500-10.000");
    assert_eq!(
        play.range().unwrap().unwrap(),
        Range {
            start: Some(NptTime::Time {
                seconds: 1,
                millis: 500
            }),
            end: Some(NptTime::Time {
                seconds: 10,
                millis: 0
            }),
        }
    );
    assert_eq!(Request::pause(&target, 4, b"sess").method, Method::Pause);
    assert_eq!(Request::teardown(&target, 5, b"sess").method, Method::Teardown);
    let mut accepting = Request::options(&target, 6);
    accepting
        .headers
        .insert(b"Accept".to_vec(), b"application/sdp, application/rtsl ,x".to_vec());
    accepting
        .headers
        .insert(b"Require".to_vec(), b"implicit-play".to_vec());
    assert_eq!(
        accepting.accept(),
        vec![
            b"application/sdp".to_vec(),
            b"application/rtsl".to_vec(),
            b"x".to_vec()
        ]
    );
    assert_eq!(accepting.require().unwrap(), b"implicit-play");
}

#[test]
fn rtp_info_text() {
    let info = RtpInfo::from_bytes(b"url=rtsp://example.com/0;seq=45102;rtptime=12345678").unwrap();
    assert_eq!(info, RtpInfo::new_with_timing(b"rtsp://example.com/0", 45102, 12345678));
    assert_eq!(
        info.to_bytes(),
        b"url=rtsp://example.com/0;seq=45102;rtptime=12345678"
    );
    assert_eq!(
        RtpInfo::from_bytes(b"url=x;rtptime=1").unwrap(),
        RtpInfo::new(b"x").with_rtptime(1)
    );
    assert!(matches!(
        RtpInfo::from_bytes(b"rtsp://example.com/0"),
        Err(Error::RtpInfoParameterUnknown { value: _ })
    ));
    assert!(matches!(
        RtpInfo::from_bytes(b"url=x;ssrc=1"),
        Err(Error::RtpInfoParameterUnknown { value: _ })
    ));
    assert!(matches!(
        RtpInfo::from_bytes(b"url=x;seq=65536"),
        Err(Error::RtpInfoParameterInvalid { value: _ })
    ));
    assert!(matches!(
        RtpInfo::from_bytes(b"url=x;seq=1;rtptime=2;seq=3"),
        Err(Error::RtpInfoParameterUnexpected { value: _ })
    ));
}

#[test]
fn range_text() {
    assert_eq!(
        Range::from_bytes(b"npt=now-").unwrap(),
        Range::new_for_live()
    );
    assert_eq!(
        Range::from_bytes(b"npt=-12.5").unwrap(),
        Range {
            start: None,
            end: Some(NptTime::Time {
                seconds: 12,
                millis: 500
            })
        }
    );
    assert_eq!(
        Range::from_bytes(b"npt=0-7.741000").unwrap(),
        Range::new(
            NptTime::Time {
                seconds: 0,
                millis: 0
            },
            NptTime::Time {
                seconds: 7,
                millis: 741
            }
        )
    );
    assert_eq!(
        Range::from_bytes(b"npt=01:02:03.25-").unwrap(),
        Range {
            start: Some(NptTime::Time {
                seconds: 3723,
                millis: 250
            }),
            end: None
        }
    );
    assert_eq!(Range::from_bytes(b"npt=-").unwrap().to_bytes(), b"npt=-");
    assert_eq!(
        Range::new(
            NptTime::Now,
            NptTime::Time {
                seconds: 3,
                millis: 7
            }
        )
        .to_bytes(),
        b"npt=now-3.007"
    );
    assert!(matches!(
        Range::from_bytes(b"npt=0-1;time=19970123T143720Z"),
        Err(Error::RangeTimeNotSupported { value: _ })
    ));
    assert!(matches!(
        Range::from_bytes(b"npt=0-1;other"),
        Err(Error::RangeMalformed { value: _ })
    ));
    assert!(matches!(
        Range::from_bytes(b"smpte=0:10:00-"),
        Err(Error::RangeUnitNotSupported { value: _ })
    ));
    assert!(matches!(
        Range::from_bytes(b"npt"),
        Err(Error::RangeMalformed { value: _ })
    ));
    assert!(matches!(
        Range::from_bytes(b"npt=5"),
        Err(Error::RangeMalformed { value: _ })
    ));
    assert!(matches!(
        Range::from_bytes(b"npt=a-b"),
        Err(Error::RangeNptTimeMalfored { value: _ })
    ));
    assert!(matches!(
        NptTime::from_bytes(b"1:2"),
        Err(Error::RangeNptTimeMalfored { value: _ })
    ));
}

#[test]
fn interleaved_frame_on_the_wire() {
    let frame: MaybeInterleaved<Request> = MaybeInterleaved::Interleaved {
        channel: 3,
        payload: Bytes::from_static(&[9, 8, 7]),
    };
    let mut wire = BytesMut::new();
    frame.serialize(&mut wire).unwrap();
    assert_eq!(&wire[..], &[0x24, 3, 0, 3, 9, 8, 7][..]);
    let large: MaybeInterleaved<Request> = MaybeInterleaved::Interleaved {
        channel: 3,
        payload: Bytes::from(vec![0u8; 65536]),
    };
    let mut untouched = BytesMut::new();
    assert!(matches!(
        large.serialize(&mut untouched),
        Err(Error::InterleavedPayloadTooLarge)
    ));
    assert_eq!(untouched.len(), 0);
}

#[test]
fn interleaved_parser_waits_for_header_and_payload() {
    let mut parser = InterleavedParser::new();
    let mut buffer = BytesMut::from(&[0x24u8, 1, 0][..]);
    assert!(parser.parse(&mut buffer).is_none());
    assert_eq!(buffer.len(), 3);
    buffer.extend_from_slice(&[2, 0xAA]);
    assert!(parser.parse(&mut buffer).is_none());
    assert_eq!(&buffer[..], &[0xAA][..]);
    buffer.extend_from_slice(&[0xBB, 0xCC]);
    let (channel, payload) = parser.parse(&mut buffer).unwrap().unwrap();
    assert_eq!(channel, 1);
    assert_eq!(&payload[..], &[0xAA, 0xBB][..]);
    assert_eq!(&buffer[..], &[0xCC][..]);
    let mut wrong = BytesMut::from(&b"RTSP"[..]);
    assert!(matches!(
        InterleavedParser::new().parse(&mut wrong),
        Some(Err(Error::InterleavedInvalid))
    ));
    assert_eq!(wrong.len(), 4);
}

#[test]
fn codec_tells_frames_from_messages() {
    let mut codec: Codec<AsClient> = Codec::new();
    let mut stream = BytesMut::new();
    stream.extend_from_slice(&[0x24, 0, 0, 2, 1, 2]);
    stream.extend_from_slice(b"RTSP/1.0 200 OK\r\nCSeq: 1\r\n\r\n");
    stream.extend_from_slice(&[0x24, 1, 0, 1, 3]);
    match codec.decode(&mut stream).unwrap().unwrap() {
        MaybeInterleaved::Interleaved { channel, payload } => {
            assert_eq!(channel, 0);
            assert_eq!(&payload[..], &[1, 2][..]);
        }
        other => panic!("{:?}", other),
    }
    match codec.decode(&mut stream).unwrap().unwrap() {
        MaybeInterleaved::Message(response) => {
            assert_eq!(response.status, 200);
            assert_eq!(response.headers.get(b"CSeq").unwrap(), b"1");
        }
        other => panic!("{:?}", other),
    }
    match codec.decode(&mut stream).unwrap().unwrap() {
        MaybeInterleaved::Interleaved { channel, payload } => {
            assert_eq!(channel, 1);
            assert_eq!(&payload[..], &[3][..]);
        }
        other => panic!("{:?}", other),
    }
    assert!(codec.decode(&mut stream).unwrap().is_none());
    let mut out = BytesMut::new();
    codec
        .encode(
            MaybeInterleaved::Message(Request::options(&uri("rtsp://example.com/"), 0)),
            &mut out,
        )
        .unwrap();
    assert_eq!(
        &out[..],
        &b"OPTIONS rtsp://example.com/ RTSP/1.0\r\nCSeq: 0\r\n\r\n"[..]
    );
}

#[test]
fn codec_for_the_server_reads_requests_in_pieces() {
    let mut codec: Codec<AsServer> = Codec::new();
    let wire = b"DESCRIBE rtsp://example.com/a RTSP/1.0\r\nCSeq: 5\r\n\r\n";
    let mut stream = BytesMut::new();
    for (i, byte) in wire.iter().enumerate() {
        stream.extend_from_slice(&[*byte]);
        let item = codec.decode(&mut stream).unwrap();
        assert_eq!(item.is_some(), i == wire.len() - 1);
        if let Some(MaybeInterleaved::Message(request)) = item {
            assert_eq!(request.method, Method::Describe);
        }
    }
}
