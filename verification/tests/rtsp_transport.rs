use rave::ip::IpAddress;
use rave::rtsp::error::Error;
use rave::rtsp::message::Method;
use rave::rtsp::transport::{Channel, Lower, Parameter, Port, Transport};

#[test]
fn parse_minimal() {
    assert_eq!(Transport::from_bytes(b"RTP/AVP").unwrap(), Transport::new(),);
}

#[test]
fn parse_lower_tcp() {
    assert_eq!(
        Transport::from_bytes(b"RTP/AVP/TCP").unwrap(),
        Transport::new().with_lower_protocol(Lower::Tcp),
    );
}

#[test]
fn parse_lower_udp() {
    assert_eq!(
        Transport::from_bytes(b"RTP/AVP/UDP").unwrap(),
        Transport::new().with_lower_protocol(Lower::Udp),
    );
}

#[test]
fn parse_unicast() {
    assert_eq!(
        Transport::from_bytes(b"RTP/AVP;unicast").unwrap(),
        Transport::new().with_parameter(Parameter::Unicast),
    );
}

#[test]
fn parse_destination_missing_value() {
    assert!(matches!(
        Transport::from_bytes(b"RTP/AVP/UDP;destination"),
        Err(Error::TransportParameterValueMissing { var: _ }),
    ),);
}

#[test]
fn parse_destination_ip() {
    assert_eq!(
        Transport::from_bytes(b"RTP/AVP/UDP;destination=127.0.0.1").unwrap(),
        Transport::new()
            .with_lower_protocol(Lower::Udp)
            .with_parameter(Parameter::Destination(IpAddress::V4(127, 0, 0, 1))),
    );
}

#[test]
fn parse_interleaved_invalid() {
    assert!(matches!(
        Transport::from_bytes(b"RTP/AVP/UDP;interleaved=invalid"),
        Err(Error::TransportParameterValueInvalid { var: _, val: _ }),
    ),);
}

#[test]
fn parse_interleaved_channel() {
    assert_eq!(
        Transport::from_bytes(b"RTP/AVP/UDP;interleaved=8-9").unwrap(),
        Transport::new()
            .with_lower_protocol(Lower::Udp)
            .with_parameter(Parameter::Interleaved(Channel::Range(8, 9))),
    );
}

#[test]
fn parse_layers() {
    assert_eq!(
        Transport::from_bytes(b"RTP/AVP/UDP;layers=3").unwrap(),
        Transport::new()
            .with_lower_protocol(Lower::Udp)
            .with_parameter(Parameter::Layers(3)),
    );
}

#[test]
fn parse_port_single() {
    assert_eq!(
        Transport::from_bytes(b"RTP/AVP/UDP;port=3").unwrap(),
        Transport::new()
            .with_lower_protocol(Lower::Udp)
            .with_parameter(Parameter::Port(Port::Single(3))),
    );
}

#[test]
fn parse_server_port_range() {
    assert_eq!(
        Transport::from_bytes(b"RTP/AVP/UDP;server_port=3-4").unwrap(),
        Transport::new()
            .with_lower_protocol(Lower::Udp)
            .with_parameter(Parameter::ServerPort(Port::Range(3, 4))),
    );
}

#[test]
fn parse_ssrc() {
    assert_eq!(
        Transport::from_bytes(b"RTP/AVP/UDP;ssrc=ABCDEF").unwrap(),
        Transport::new()
            .with_lower_protocol(Lower::Udp)
            .with_parameter(Parameter::Ssrc(b"ABCDEF".to_vec())),
    );
}

#[test]
fn parse_mode_method_unknown() {
    assert!(matches!(
        Transport::from_bytes(b"RTP/AVP/UDP;mode=UNKNOWN"),
        Err(Error::TransportParameterValueInvalid { var: _, val: _ }),
    ),);
}

#[test]
fn parse_mode_method() {
    assert_eq!(
        Transport::from_bytes(b"RTP/AVP/UDP;mode=PLAY").unwrap(),
        Transport::new()
            .with_lower_protocol(Lower::Udp)
            .with_parameter(Parameter::Mode(Method::Play)),
    );
    assert_eq!(
        Transport::from_bytes(b"RTP/AVP/UDP;mode=\"PLAY\"").unwrap(),
        Transport::new()
            .with_lower_protocol(Lower::Udp)
            .with_parameter(Parameter::Mode(Method::Play)),
    );
}

#[test]
fn parse_rfc2326_section_12_39_examples() {
    assert_eq!(
        Transport::from_bytes(b"RTP/AVP;multicast;ttl=127;mode=\"PLAY\"").unwrap(),
        Transport::new()
            .with_parameter(Parameter::Multicast)
            .with_parameter(Parameter::Ttl(127))
            .with_parameter(Parameter::Mode(Method::Play)),
    );
    assert_eq!(
        Transport::from_bytes(b"RTP/AVP;unicast;client_port=3456-3457;mode=\"PLAY\"").unwrap(),
        Transport::new()
            .with_parameter(Parameter::Unicast)
            .with_parameter(Parameter::ClientPort(Port::Range(3456, 3457)))
            .with_parameter(Parameter::Mode(Method::Play)),
    );
}

#[test]
fn format_minimal() {
    assert_eq!(
        Transport::new().to_bytes(),
        b"RTP/AVP",
    );
}

#[test]
fn format_lower_tcp() {
    assert_eq!(
        Transport::new().with_lower_protocol(Lower::Tcp).to_bytes(),
        b"RTP/AVP/TCP",
    );
}

#[test]
fn format_lower_udp() {
    assert_eq!(
        Transport::new().with_lower_protocol(Lower::Udp).to_bytes(),
        b"RTP/AVP/UDP",
    );
}

#[test]
fn format_unicast() {
    assert_eq!(
        Transport::new()
            .with_lower_protocol(Lower::Udp)
            .with_parameter(Parameter::Unicast).to_bytes(),
        b"RTP/AVP/UDP;unicast",
    );
}

#[test]
fn format_rfc2326_section_12_39_examples() {
    assert_eq!(
        Transport::new()
            .with_parameter(Parameter::Multicast)
            .with_parameter(Parameter::Ttl(127))
            .with_parameter(Parameter::Mode(Method::Play)).to_bytes(),
        b"RTP/AVP;multicast;ttl=127;mode=\"PLAY\"",
    );
    assert_eq!(
        Transport::new()
            .with_parameter(Parameter::Unicast)
            .with_parameter(Parameter::ClientPort(Port::Range(3456, 3457)))
            .with_parameter(Parameter::Mode(Method::Play)).to_bytes(),
        b"RTP/AVP;unicast;client_port=3456-3457;mode=\"PLAY\"",
    );
}

#[test]
fn format_every_parameter() {
    assert_eq!(
        Transport::new()
            .with_lower_protocol(Lower::Tcp)
            .with_parameter(Parameter::Unicast)
            .with_parameter(Parameter::Multicast)
            .with_parameter(Parameter::Destination(IpAddress::V4(1, 2, 3, 4)))
            .with_parameter(Parameter::Interleaved(Channel::Range(12, 13)))
            .with_parameter(Parameter::Append)
            .with_parameter(Parameter::Ttl(999))
            .with_parameter(Parameter::Layers(2))
            .with_parameter(Parameter::Port(Port::Single(8)))
            .with_parameter(Parameter::ClientPort(Port::Range(9, 10)))
            .with_parameter(Parameter::ServerPort(Port::Range(11, 12)))
            .with_parameter(Parameter::Ssrc(b"01234ABCDEF".to_vec()))
            .with_parameter(Parameter::Mode(Method::Describe))
            .to_bytes(),
        b"RTP/AVP/TCP;unicast;multicast;destination=1.2.3.4;interleaved=12-13;\
            append;ttl=999;layers=2;port=8;client_port=9-10;server_port=11-12;\
            ssrc=01234ABCDEF;mode=\"DESCRIBE\"",
    );
}

#[test]
fn transport_round_trips_through_text() {
    let text: &[u8] = b"RTP/AVP;multicast;ttl=127;mode=\"PLAY\"";
    let transport = Transport::from_bytes(text).unwrap();
    assert_eq!(transport.lower_protocol(), None);
    assert_eq!(transport.parameters().len(), 3);
    assert_eq!(transport.to_bytes(), text);
}

#[test]
fn transport_getters_find_first() {
    let transport =
        Transport::from_bytes(b"RTP/AVP/TCP;port=1;client_port=2-3;server_port=4;interleaved=0-1;destination=10.0.0.7;port=9")
            .unwrap();
    assert_eq!(transport.port(), Some(&Port::Single(1)));
    assert_eq!(transport.client_port(), Some(&Port::Range(2, 3)));
    assert_eq!(transport.server_port(), Some(&Port::Single(4)));
    assert_eq!(transport.interleaved_channel(), Some(&Channel::Range(0, 1)));
    assert_eq!(transport.destination(), Some(&IpAddress::V4(10, 0, 0, 7)));
}

#[test]
fn transport_errors() {
    assert!(matches!(
        Transport::from_bytes(b"RTSP/AVP"),
        Err(Error::TransportProtocolProfileMissing { value: _ })
    ));
    assert!(matches!(
        Transport::from_bytes(b"RTP/AVP/SCTP"),
        Err(Error::TransportLowerUnknown { value: _ })
    ));
    assert!(matches!(
        Transport::from_bytes(b"RTP/AVP;bogus"),
        Err(Error::TransportParameterUnknown { var: _ })
    ));
    assert!(matches!(
        Transport::from_bytes(b"RTP/AVP;destination=999.1.1.1"),
        Err(Error::TransportParameterValueInvalid { var: _, val: _ })
    ));
    assert!(matches!(
        Channel::from_bytes(b"256"),
        Err(Error::TransportChannelMalformed { value: _ })
    ));
    assert!(matches!(
        Port::from_bytes(b"1-x"),
        Err(Error::TransportPortMalformed { value: _ })
    ));
}
