use rave::ip::IpAddress;
use rave::sdp::builder::Builder;
use rave::sdp::codec::h264::Parameters;
use rave::sdp::codec::{CodecInfo, MediaAttributes};
use rave::sdp::error::Error;
use rave::sdp::reader::Reader;
use rave::sdp::sdp::{
    ip_addr_type, parse_time, AddressType, Attribute, Bandwidth, Connection, Direction, Kind,
    Media, NetworkType, Origin, Protocol, RepeatTimes, Sdp, TimeActive, TimeZoneAdjustment,
    TimeZoneAdjustments, Version,
};
use rave::sdp::time_range::{
    convert_system_time_to_sdp_time, convert_time_to_unix_epoch, TimeRange,
};

const MINIMAL: &[u8] = b"v=0\no=- 0 0 IN IP4 1.2.3.4\ns=X\nc=IN IP4 1.2.3.4\nt=0 0\n";

#[test]
fn minimal_session_round_trips() {
    let sdp = Sdp::parse(MINIMAL).unwrap();
    assert_eq!(sdp.version, Version::V0);
    assert_eq!(sdp.origin.username, b"-");
    assert_eq!(sdp.origin.network_type, NetworkType::Internet);
    assert_eq!(sdp.origin.address_type, AddressType::IpV4);
    assert_eq!(sdp.origin.unicast_address, b"1.2.3.4");
    assert_eq!(sdp.session_name, b"X");
    assert_eq!(sdp.time_active, vec![TimeActive { start: 0, stop: 0 }]);
    assert_eq!(sdp.to_bytes(), MINIMAL);
    assert_eq!(Sdp::parse(&sdp.to_bytes()).unwrap(), sdp);
}

#[test]
fn session_without_connection_is_rejected() {
    assert!(matches!(
        Sdp::parse(b"v=0\no=- 0 0 IN IP4 1.2.3.4\ns=X\nt=0 0\n"),
        Err(Error::ConnectionMissing)
    ));
    assert!(matches!(
        Sdp::parse(
            b"v=0\no=- 0 0 IN IP4 1.2.3.4\ns=X\nt=0 0\nm=video 0 RTP/AVP 96\nc=IN IP4 1.2.3.4\nm=audio 0 RTP/AVP 97\n"
        ),
        Err(Error::ConnectionMissing)
    ));
    assert!(Sdp::parse(
        b"v=0\no=- 0 0 IN IP4 1.2.3.4\ns=X\nt=0 0\nm=video 0 RTP/AVP 96\nc=IN IP4 1.2.3.4\n"
    )
    .is_ok());
}

#[test]
fn adjustments_need_repeat_times() {
    assert!(matches!(
        Sdp::parse(b"v=0\no=- 0 0 IN IP4 1.2.3.4\ns=X\nc=IN IP4 1.2.3.4\nt=0 0\nz=0 0\n"),
        Err(Error::TimezoneAdjustmentsWithoutRepeatTimes)
    ));
}

#[test]
fn what_must_be_there() {
    assert!(matches!(Sdp::parse(b""), Err(Error::VersionMissing)));
    assert!(matches!(Sdp::parse(b"v=0\n"), Err(Error::OriginMissing)));
    assert!(matches!(
        Sdp::parse(b"v=0\no=- 0 0 IN IP4 1.2.3.4\n"),
        Err(Error::SessionNameMissing)
    ));
    assert!(matches!(
        Sdp::parse(b"v=0\no=- 0 0 IN IP4 1.2.3.4\ns=X\nc=IN IP4 1.2.3.4\n"),
        Err(Error::TimeActiveMissing)
    ));
    assert!(matches!(
        Sdp::parse(b"v=0\nx\n"),
        Err(Error::LinePrefixInvalid { line: _ })
    ));
    assert!(matches!(
        Sdp::parse(b"v=0\nq=what\n"),
        Err(Error::LinePrefixInvalid { line: _ })
    ));
    assert!(matches!(
        Sdp::parse(b"v=1\n"),
        Err(Error::VersionUnknown { version: _ })
    ));
}

#[test]
fn full_session_parses_and_comes_back_in_order() {
    let text: &[u8] = b"v=0\r\n\
o=mhandley 2890844526 2890845468 IN IP4 126.16.64.4\r\n\
s=SDP Seminar\r\n\
i=A Seminar on the session description protocol\r\n\
u=http://www.cs.ucl.ac.uk/staff/M.Handley/sdp.03.ps\r\n\
e=mjh@isi.edu (Mark Handley)\r\n\
p=+1 617 555-6011\r\n\
c=IN IP4 224.2.17.12/127\r\n\
b=CT:128\r\n\
t=2873397496 2873404696\r\n\
r=7d 1h 0 25h\r\n\
z=2882844526 -1h 2898848070 0\r\n\
a=recvonly\r\n\
m=audio 3456 RTP/AVP 0\r\n\
i=the sound\r\n\
b=AS:64\r\n\
m=video 2232 RTP/AVP 31\r\n\
c=IN IP6 ff15::101\r\n\
a=rtpmap:31 H261/90000\r\n\
a=sendonly\r\n";
    let sdp = Sdp::parse(text).unwrap();
    assert_eq!(sdp.session_description.as_deref(), Some(&b"A Seminar on the session description protocol"[..]));
    assert_eq!(sdp.phone.as_deref(), Some(&b"+1 617 555-6011"[..]));
    assert_eq!(sdp.bandwidth, vec![Bandwidth::ConferenceTotal(128)]);
    assert_eq!(sdp.repeats.len(), 1);
    assert_eq!(
        sdp.repeats[0].times,
        RepeatTimes {
            repeat_interval: 604800,
            active_duration: 3600,
            offsets: vec![0, 90000]
        }
    );
    assert_eq!(
        sdp.repeats[0].timezone_adjustments,
        Some(TimeZoneAdjustments(vec![
            TimeZoneAdjustment {
                time: 2882844526,
                offset: -3600
            },
            TimeZoneAdjustment {
                time: 2898848070,
                offset: 0
            },
        ]))
    );
    assert_eq!(sdp.attributes, vec![Attribute::Property(b"recvonly".to_vec())]);
    assert_eq!(sdp.media.len(), 2);
    assert_eq!(sdp.media[0].title.as_deref(), Some(&b"the sound"[..]));
    assert_eq!(sdp.media[0].bandwidth, vec![Bandwidth::ApplicationSpecific(64)]);
    assert_eq!(
        sdp.media[1].media,
        Media {
            kind: Kind::Video,
            port: 2232,
            protocol: Protocol::RtpAvp,
            format: 31
        }
    );
    assert_eq!(sdp.media[1].connection.as_ref().unwrap().address_type, AddressType::IpV6);
    assert_eq!(
        sdp.media[1].attributes,
        vec![
            Attribute::Value(b"rtpmap".to_vec(), b"31 H261/90000".to_vec()),
            Attribute::Property(b"sendonly".to_vec()),
        ]
    );
    let expected: &[u8] = b"v=0\n\
o=mhandley 2890844526 2890845468 IN IP4 126.16.64.4\n\
s=SDP Seminar\n\
i=A Seminar on the session description protocol\n\
u=http://www.cs.ucl.ac.uk/staff/M.Handley/sdp.03.ps\n\
e=mjh@isi.edu (Mark Handley)\n\
p=+1 617 555-6011\n\
c=IN IP4 224.2.17.12/127\n\
b=CT:128\n\
t=2873397496 2873404696\n\
r=604800 3600 0 90000\n\
z=2882844526 -3600 2898848070 0\n\
a=recvonly\n\
m=audio 3456 RTP/AVP 0\n\
i=the sound\n\
b=AS:64\n\
m=video 2232 RTP/AVP 31\n\
c=IN IP6 ff15::101\n\
a=rtpmap:31 H261/90000\n\
a=sendonly\n";
    assert_eq!(sdp.to_bytes(), expected);
    assert_eq!(Sdp::parse(expected).unwrap(), sdp);
}

#[test]
fn line_errors() {
    assert!(matches!(
        Origin::from_bytes(b"- 0 0"),
        Err(Error::OriginLineInvalid { line: _ })
    ));
    assert!(matches!(
        Origin::from_bytes(b"- 0 0 IP4 IP4 1.2.3.4"),
        Err(Error::NetworkTypeUnknown { network_type: _ })
    ));
    assert!(matches!(
        Origin::from_bytes(b"- 0 0 IN IP5 1.2.3.4"),
        Err(Error::AddressTypeUnknown { address_type: _ })
    ));
    assert!(matches!(
        Connection::from_bytes(b"IN IP4"),
        Err(Error::ConnectionLineInvalid { line: _ })
    ));
    assert!(matches!(
        Bandwidth::from_bytes(b"CT"),
        Err(Error::BandwidthLineMalformed { line: _ })
    ));
    assert!(matches!(
        Bandwidth::from_bytes(b"XX:1"),
        Err(Error::BandwidthTypeUnknown { bandwidth_type: _ })
    ));
    assert!(matches!(
        Bandwidth::from_bytes(b"AS:x"),
        Err(Error::BandwidthValueInvalid { bandwidth: _ })
    ));
    assert!(matches!(
        TimeActive::from_bytes(b"0"),
        Err(Error::TimeMalformed { time: _ })
    ));
    assert!(matches!(
        TimeActive::from_bytes(b"0 x"),
        Err(Error::TimeDescriptionInvalid { time: _ })
    ));
    assert!(matches!(
        RepeatTimes::from_bytes(b"1 2"),
        Err(Error::RepeatTimesLineMalformed { line: _ })
    ));
    assert!(matches!(
        RepeatTimes::from_bytes(b"1 x 3"),
        Err(Error::TimeInvalid { time: _ })
    ));
    assert!(matches!(
        TimeZoneAdjustments::from_bytes(b"1 2 3"),
        Err(Error::TimeZoneAdjustmentsLineMalformed { line: _ })
    ));
    assert!(matches!(
        TimeZoneAdjustment::from_time_and_offset_strings(b"x", b"1"),
        Err(Error::TimeZoneAdjustmentTimeInvalid { time: _ })
    ));
    assert!(matches!(
        Media::from_bytes(b"smell 1 RTP/AVP 96"),
        Err(Error::KindUnknown { kind: _ })
    ));
    assert!(matches!(
        Media::from_bytes(b"video 70000 RTP/AVP 96"),
        Err(Error::MediaPortInvalid { line: _ })
    ));
    assert!(matches!(
        Media::from_bytes(b"video 1 UDP 96"),
        Err(Error::ProtocolUnknown { protocol: _ })
    ));
    assert!(matches!(
        Media::from_bytes(b"video 1 RTP/AVP x"),
        Err(Error::MediaFormatInvalid { line: _ })
    ));
    assert!(matches!(
        Media::from_bytes(b"video 1"),
        Err(Error::MediaLineInvalid { line: _ })
    ));
    assert!(matches!(
        Direction::from_bytes(b"both"),
        Err(Error::DirectionUnknown { direction: _ })
    ));
}

#[test]
fn times_with_units() {
    assert_eq!(parse_time(b"90").unwrap(), 90);
    assert_eq!(parse_time(b"90s").unwrap(), 90);
    assert_eq!(parse_time(b"2m").unwrap(), 120);
    assert_eq!(parse_time(b"3h").unwrap(), 10800);
    assert_eq!(parse_time(b"7d").unwrap(), 604800);
    assert!(matches!(parse_time(b"d"), Err(Error::TimeInvalid { time: _ })));
    assert!(matches!(
        parse_time(b"18446744073709551615d"),
        Err(Error::TimeInvalid { time: _ })
    ));
    assert_eq!(
        TimeZoneAdjustment::from_time_and_offset_strings(b"5", b"-2m").unwrap(),
        TimeZoneAdjustment {
            time: 5,
            offset: -120
        }
    );
    assert_eq!(
        TimeZoneAdjustment {
            time: 5,
            offset: -120
        }
        .to_bytes(),
        b"5 -120"
    );
}

#[test]
fn builder_hands_out_dynamic_payload_types() {
    let sps = vec![0x67, 0x42, 0xc0, 0x1e, 0xd9, 0x00];
    let pps = vec![vec![0x68, 0xce, 0x3c, 0x80], vec![0xff]];
    let mut builder = Builder::with_session_id(
        b"Camera",
        IpAddress::V4(10, 0, 0, 1),
        77,
        IpAddress::V4(10, 0, 0, 2),
        TimeRange::Live,
    )
    .with_origin_username(b"cam")
    .with_description(b"front door")
    .with_uri(b"http://example.com/")
    .with_email(b"a@example.com")
    .with_phone(b"+1")
    .with_time_active(TimeRange::Playback { start: 5, end: 6 })
    .with_property(b"recvonly")
    .with_value(b"tool", b"rave");
    builder
        .add_media(
            Kind::Video,
            b"video",
            0,
            Protocol::RtpAvp,
            Direction::SendOnly,
            Parameters::new(sps.clone(), pps.clone(), 1),
        )
        .unwrap();
    let sdp = builder
        .with_media(
            Kind::Video,
            b"other",
            0,
            Protocol::RtpAvp,
            Direction::ReceiveOnly,
            Parameters::new(sps, pps, 0),
        )
        .unwrap()
        .build();
    let expected: &[u8] = b"v=0\n\
o=cam 77 0 IN IP4 10.0.0.1\n\
s=Camera\n\
i=front door\n\
u=http://example.com/\n\
e=a@example.com\n\
p=+1\n\
c=IN IP4 10.0.0.2\n\
t=0 0\n\
t=5 6\n\
a=recvonly\n\
a=tool:rave\n\
m=video 0 RTP/AVP 96\n\
i=video\n\
a=rtpmap:96 H264/90000\n\
a=fmtp:96 packetization-mode=1; profile-level-id=42c01e; sprop-parameter-sets=Z0LAHtkA,aM48gA,/w\n\
a=sendonly\n\
m=video 0 RTP/AVP 97\n\
i=other\n\
a=rtpmap:97 H264/90000\n\
a=fmtp:97 packetization-mode=0; profile-level-id=42c01e; sprop-parameter-sets=Z0LAHtkA,aM48gA,/w\n\
a=recvonly\n";
    assert_eq!(sdp.to_bytes(), expected);
    assert_eq!(Sdp::parse(expected).unwrap(), sdp);
}

#[test]
fn builder_runs_out_of_payload_types() {
    let mut builder = Builder::with_session_id(
        b"Many",
        IpAddress::V4(10, 0, 0, 1),
        1,
        IpAddress::V4(10, 0, 0, 2),
        TimeRange::live(),
    );
    for _ in 96..128 {
        builder
            .add_media(
                Kind::Audio,
                b"t",
                0,
                Protocol::RtpAvp,
                Direction::SendAndReceive,
                Parameters::new(vec![1, 2, 3, 4], Vec::new(), 1),
            )
            .unwrap();
    }
    assert!(matches!(
        builder.add_media(
            Kind::Audio,
            b"t",
            0,
            Protocol::RtpAvp,
            Direction::SendAndReceive,
            Parameters::new(vec![1, 2, 3, 4], Vec::new(), 1),
        ),
        Err(Error::TooManyMediaItems)
    ));
    let sdp = builder.build();
    assert_eq!(sdp.media.len(), 32);
    assert_eq!(sdp.media[31].media.format, 127);
}

#[test]
fn session_made_now_has_a_session_id() {
    let sdp = Sdp::new(
        IpAddress::V6(b"::1".to_vec()),
        b"Now",
        IpAddress::V4(1, 2, 3, 4),
        TimeRange::Live,
    )
    .with_username(b"me")
    .with_session_version(3)
    .with_description(b"d")
    .with_attribute(Attribute::Property(b"x".to_vec()))
    .with_attributes(vec![Attribute::Value(b"k".to_vec(), b"v".to_vec())])
    .with_media(
        Kind::Video,
        b"t",
        5004,
        Protocol::RtpAvp,
        CodecInfo::h264(vec![0x67, 0x64, 0x00, 0x28], vec![vec![0x68]], 1),
        Direction::SendOnly,
    );
    assert!(String::from_utf8(sdp.origin.session_id.clone())
        .unwrap()
        .parse::<u64>()
        .unwrap() > 1_600_000_000);
    assert_eq!(sdp.origin.address_type, AddressType::IpV6);
    assert_eq!(sdp.origin.session_version, b"3");
    assert_eq!(sdp.connection.as_ref().unwrap().address, b"1.2.3.4");
    assert_eq!(sdp.media[0].media.format, 96);
    assert_eq!(
        sdp.media[0].attributes[1],
        Attribute::Value(
            b"fmtp".to_vec(),
            b"96 packetization-mode=1; profile-level-id=640028; sprop-parameter-sets=Z2QAKA,aA"
                .to_vec()
        )
    );
    assert_eq!(Sdp::parse(&sdp.to_bytes()).unwrap(), sdp);
    let made_by_builder = Builder::new(
        b"Now",
        IpAddress::V4(1, 2, 3, 4),
        IpAddress::V4(1, 2, 3, 4),
        TimeRange::Live,
    )
    .build();
    assert_eq!(made_by_builder.session_name, b"Now");
}

#[test]
fn codec_info_attributes() {
    let info = CodecInfo::h264(vec![0x67, 0x42, 0xc0, 0x1e], Vec::new(), 1);
    assert_eq!(
        info.media_attributes(),
        vec![
            Attribute::Value(b"rtpmap".to_vec(), b"96 H264/90000".to_vec()),
            Attribute::Value(
                b"fmtp".to_vec(),
                b"96 packetization-mode=1; profile-level-id=42c01e; sprop-parameter-sets=Z0LAHg"
                    .to_vec()
            ),
        ]
    );
}

#[test]
fn reader_answers_from_the_session() {
    let reader = Reader::parse(
        b"v=0\no=alice 42 1 IN IP4 192.0.2.7\ns=Talk\ni=about\nu=http://x/\ne=a@b\np=+1\nc=IN IP4 1.2.3.4\nb=AS:5\nt=0 0\nr=1 2 3\n",
    )
    .unwrap();
    assert_eq!(reader.username(), b"alice");
    assert_eq!(reader.session_id(), b"42");
    assert_eq!(reader.origin().unwrap(), IpAddress::V4(192, 0, 2, 7));
    assert_eq!(reader.session_name(), b"Talk");
    assert_eq!(reader.session_description().unwrap(), b"about");
    assert_eq!(reader.uri().unwrap(), b"http://x/");
    assert_eq!(reader.email().unwrap(), b"a@b");
    assert_eq!(reader.phone().unwrap(), b"+1");
    assert_eq!(reader.bandwidth_info(), &vec![Bandwidth::ApplicationSpecific(5)]);
    assert_eq!(reader.repeats().len(), 1);
    let odd = Reader::parse(b"v=0\no=- 0 0 IN IP4 host.example\ns=X\nc=IN IP4 1.2.3.4\nt=0 0\n")
        .unwrap();
    assert!(matches!(
        odd.origin(),
        Err(Error::OriginUnicastAddressInvalid { unicast_address: _ })
    ));
}

#[test]
fn addresses_by_text() {
    assert_eq!(IpAddress::from_bytes(b"0.10.200.255"), Some(IpAddress::V4(0, 10, 200, 255)));
    assert_eq!(IpAddress::from_bytes(b"1.2.3.256"), None);
    assert_eq!(IpAddress::from_bytes(b"01.2.3.4"), None);
    assert_eq!(IpAddress::from_bytes(b"1.2.3"), None);
    assert_eq!(
        IpAddress::from_bytes(b"fe80::1"),
        Some(IpAddress::V6(b"fe80::1".to_vec()))
    );
    assert_eq!(IpAddress::from_bytes(b"example.com"), None);
    assert_eq!(IpAddress::V4(1, 22, 133, 4).to_bytes(), b"1.22.133.4");
    assert_eq!(ip_addr_type(&IpAddress::V4(1, 2, 3, 4)), AddressType::IpV4);
    assert_eq!(
        AddressType::of_ip_addr(&IpAddress::V6(b"::".to_vec())),
        AddressType::IpV6
    );
}

#[test]
fn time_ranges() {
    assert_eq!(TimeRange::live(), TimeRange::Live);
    let epoch = std::time::UNIX_EPOCH;
    let later = epoch + std::time::Duration::from_secs(100);
    assert_eq!(convert_time_to_unix_epoch(later), 100);
    assert_eq!(convert_system_time_to_sdp_time(epoch), 2208988800);
    assert_eq!(
        TimeRange::playback(epoch, later),
        TimeRange::Playback {
            start: 2208988800,
            end: 2208988900
        }
    );
    assert_eq!(TimeRange::Live.to_bytes(), b"live");
    assert_eq!(
        TimeRange::Playback { start: 1, end: 2 }.to_bytes(),
        b"from 1 to 2"
    );
    assert_eq!(
        TimeActive::from_time_range(TimeRange::Playback { start: 1, end: 2 }),
        TimeActive { start: 1, stop: 2 }
    );
}

#[test]
fn time_before_the_epoch_counts_as_zero() {
    let earlier = std::time::UNIX_EPOCH - std::time::Duration::from_secs(5);
    assert_eq!(convert_time_to_unix_epoch(earlier), 0);
    assert_eq!(convert_system_time_to_sdp_time(earlier), 2208988800);
    let later = std::time::UNIX_EPOCH + std::time::Duration::from_millis(2999);
    assert_eq!(convert_time_to_unix_epoch(later), 2);
    assert_eq!(
        TimeRange::playback(earlier, later),
        TimeRange::Playback {
            start: 2208988800,
            end: 2208988802
        }
    );
}
