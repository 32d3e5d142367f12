use bytes::Bytes;
use rave::rtsp::client::{
    describe_sdp, endpoint, options_methods, ClientError, Dialogue, Exchange, Outcome, Reply,
    Sequencer,
};
use rave::rtsp::error::Error;
use rave::rtsp::message::{Headers, Method, Status};
use rave::rtsp::response::{Response, ResponseBuilder};
use rave::rtsp::uri::Uri;

fn uri(text: &str) -> Uri {
    Uri::parse(text.as_bytes()).unwrap()
}

#[test]
fn sequencer_counts_from_zero() {
    let mut sequencer = Sequencer::new();
    assert_eq!(sequencer.sequence(), 0);
    assert_eq!(sequencer.sequence(), 1);
    assert_eq!(sequencer.sequence(), 2);
}

#[test]
fn endpoint_needs_authority_and_rtsp() {
    let target = endpoint(&uri("rtsp://example.com/stream")).unwrap();
    assert_eq!(target.host, b"example.com");
    assert_eq!(target.port, 554);
    assert_eq!(endpoint(&uri("rtsp://10.0.0.1:8554/")).unwrap().port, 8554);
    assert!(matches!(
        endpoint(&uri("/path/only")),
        Err(ClientError::UriMissingAuthority)
    ));
    assert!(matches!(
        endpoint(&uri("example.com")),
        Err(ClientError::UriMissingProtocolScheme)
    ));
    match endpoint(&uri("http://example.com/")) {
        Err(ClientError::UriUnsupportedProtocolScheme { scheme }) => assert_eq!(scheme, b"http"),
        other => panic!("{:?}", other),
    }
}

#[test]
fn cseq_counts_up_across_exchanges() {
    let mut dialogue = Dialogue::new(uri("rtsp://example.com/stream"));
    let mut seen = Vec::new();
    for round in 0..3 {
        let mut exchange = Exchange::new(Method::Options, Headers::new());
        let request = dialogue.next_request(&mut exchange).unwrap();
        seen.push(request.headers.get(b"CSeq").unwrap().clone());
        assert_eq!(request.session().is_some(), round > 0);
        let outcome = dialogue.on_reply(Reply::Message(Response::ok().build()));
        assert!(matches!(outcome, Outcome::Done(_)));
        dialogue.set_session(b"12345678".to_vec());
    }
    assert_eq!(seen, vec![b"0".to_vec(), b"1".to_vec(), b"2".to_vec()]);
}

#[test]
fn caller_headers_ride_along() {
    let mut dialogue = Dialogue::new(uri("rtsp://example.com/stream"));
    let mut headers = Headers::new();
    headers.insert(b"Accept".to_vec(), b"application/sdp".to_vec());
    let mut exchange = Exchange::new(Method::Describe, headers);
    let request = dialogue.next_request(&mut exchange).unwrap();
    assert_eq!(request.method, Method::Describe);
    assert_eq!(request.headers.get(b"Accept").unwrap(), b"application/sdp");
    assert_eq!(request.headers.get(b"CSeq").unwrap(), b"0");
    assert_eq!(request.uri.to_bytes(), b"rtsp://example.com/stream");
}

#[test]
fn endless_redirects_stop_after_twenty_requests() {
    let mut dialogue = Dialogue::new(uri("rtsp://example.com/stream"));
    let mut exchange = Exchange::new(Method::Describe, Headers::new());
    let mut sent = 0;
    let failure = loop {
        match dialogue.next_request(&mut exchange) {
            Ok(request) => {
                assert_eq!(
                    request.headers.get(b"CSeq").unwrap(),
                    sent.to_string().as_bytes()
                );
                sent += 1;
                let redirect = ResponseBuilder::error(Status::MovedTemporarily)
                    .with_header(b"Location", format!("/moved/{}", sent).as_bytes())
                    .build();
                assert!(matches!(
                    dialogue.on_reply(Reply::Message(redirect)),
                    Outcome::Retry
                ));
                assert_eq!(
                    dialogue.uri().to_bytes(),
                    format!("rtsp://example.com/moved/{}", sent).as_bytes()
                );
            }
            Err(error) => break error,
        }
    };
    assert_eq!(sent, 20);
    assert!(matches!(
        failure,
        ClientError::MaximumNumberOfRedirectsReached
    ));
}

#[test]
fn replies_that_fail_the_exchange() {
    let mut dialogue = Dialogue::new(uri("rtsp://example.com/stream"));
    let not_found = ResponseBuilder::error(Status::NotFound).build();
    match dialogue.on_reply(Reply::Message(not_found)) {
        Outcome::Failed(ClientError::Status(response)) => assert_eq!(response.status, 404),
        _ => panic!(),
    }
    let no_location = ResponseBuilder::error(Status::MovedPermanently).build();
    assert!(matches!(
        dialogue.on_reply(Reply::Message(no_location)),
        Outcome::Failed(ClientError::InvalidRedirect)
    ));
    let bad_location = ResponseBuilder::error(Status::MovedPermanently)
        .with_header(b"Location", b"not a path \x7f")
        .build();
    assert!(matches!(
        dialogue.on_reply(Reply::Message(bad_location)),
        Outcome::Failed(ClientError::InvalidRedirect)
    ));
    assert!(matches!(
        dialogue.on_reply(Reply::Interleaved),
        Outcome::Failed(ClientError::UnexpectedInterleavedMessage)
    ));
    assert!(matches!(
        dialogue.on_reply(Reply::Closed),
        Outcome::Failed(ClientError::ConnectionClosed)
    ));
    assert!(matches!(
        dialogue.on_reply(Reply::Failed(Error::Encoding)),
        Outcome::Failed(ClientError::Protocol(Error::Encoding))
    ));
    assert_eq!(dialogue.uri().to_bytes(), b"rtsp://example.com/stream");
}

#[test]
fn options_lists_the_methods_it_knows() {
    let response = Response::ok()
        .with_header(b"Public", b"DESCRIBE, SETUP,TEARDOWN , FLY, PLAY,PAUSE")
        .build();
    assert_eq!(
        options_methods(&response),
        vec![
            Method::Describe,
            Method::Setup,
            Method::Teardown,
            Method::Play,
            Method::Pause
        ]
    );
    assert!(options_methods(&Response::ok().build()).is_empty());
}

#[test]
fn describe_needs_a_session_description() {
    assert!(matches!(
        describe_sdp(&Response::ok().build()),
        Err(ClientError::MissingSdp)
    ));
    let broken = Response::ok().with_sdp(b"v=1\n".to_vec()).build();
    assert!(matches!(
        describe_sdp(&broken),
        Err(ClientError::InvalidSdp(_))
    ));
    let good = Response::ok()
        .with_body(
            Bytes::from_static(b"v=0\no=- 0 0 IN IP4 1.2.3.4\ns=X\nc=IN IP4 1.2.3.4\nt=0 0\n"),
            b"application/sdp",
        )
        .build();
    assert_eq!(describe_sdp(&good).unwrap().session_name, b"X");
}
