use bytes::{Bytes, BytesMut};
use rave::rtp::error::Error;
use rave::rtp::packet::{Extension, Header, Packet, Version};

fn sample_header() -> Header {
    Header {
        version: Version::Version2,
        padding: false,
        marker: true,
        payload_type: 96,
        sequence_number: 0x1234,
        timestamp: 0xDEADBEEF,
        ssrc: 0xCAFEBABE,
        csrc: Vec::new(),
        extension: None,
    }
}

#[test]
fn header_serializes_to_twelve_bytes() {
    let mut dst = BytesMut::new();
    sample_header().serialize(&mut dst).unwrap();
    assert_eq!(
        &dst[..],
        &[0x80, 0xE0, 0x12, 0x34, 0xDE, 0xAD, 0xBE, 0xEF, 0xCA, 0xFE, 0xBA, 0xBE][..]
    );
}

#[test]
fn header_round_trip() {
    let mut dst = BytesMut::new();
    sample_header().serialize(&mut dst).unwrap();
    let mut src: Bytes = dst.freeze();
    let parsed = Header::parse(&mut src).unwrap();
    assert_eq!(parsed, sample_header());
    assert_eq!(src.len(), 0);
}

#[test]
fn header_round_trip_with_csrc_and_extension() {
    let header = Header {
        version: Version::Version1,
        padding: false,
        marker: false,
        payload_type: 127,
        sequence_number: 65535,
        timestamp: 1,
        ssrc: 2,
        csrc: vec![0x01020304, 0xA0B0C0D0, 7],
        extension: Some(Extension {
            profile_identifier: 0xBEDE,
            data: vec![0x11223344, 0x55667788],
        }),
    };
    assert_eq!(header.serialized_len(), 12 + 12 + 4 + 8);
    let mut dst = BytesMut::new();
    header.clone().serialize(&mut dst).unwrap();
    assert_eq!(dst.len(), 36);
    assert_eq!(dst[0], 0x53);
    dst.extend_from_slice(&[9, 9]);
    let mut src = dst.freeze();
    assert_eq!(Header::parse(&mut src).unwrap(), header);
    assert_eq!(&src[..], &[9, 9][..]);
}

#[test]
fn header_parse_errors() {
    let mut short = Bytes::from_static(&[0x80, 0x60, 0, 0]);
    assert!(matches!(
        Header::parse(&mut short),
        Err(Error::NotEnoughData { have: 4, need: 12 })
    ));
    assert_eq!(short.len(), 4);
    let mut version = Bytes::from_static(&[0x00, 0x60, 0, 1, 0, 0, 0, 2, 0, 0, 0, 3]);
    assert!(matches!(
        Header::parse(&mut version),
        Err(Error::VersionUnknown { version: 0 })
    ));
    let mut csrc = Bytes::from_static(&[0x82, 0x60, 0, 1, 0, 0, 0, 2, 0, 0, 0, 3, 1, 2, 3, 4]);
    assert!(matches!(
        Header::parse(&mut csrc),
        Err(Error::NotEnoughData { have: 16, need: 20 })
    ));
    let mut extension = Bytes::from_static(&[0x90, 0x60, 0, 1, 0, 0, 0, 2, 0, 0, 0, 3, 0, 1]);
    assert!(matches!(
        Header::parse(&mut extension),
        Err(Error::NotEnoughData { have: 2, need: 4 })
    ));
    let mut words =
        Bytes::from_static(&[0x90, 0x60, 0, 1, 0, 0, 0, 2, 0, 0, 0, 3, 0, 1, 0, 2, 1, 2, 3, 4]);
    assert!(matches!(
        Header::parse(&mut words),
        Err(Error::NotEnoughData { have: 4, need: 8 })
    ));
}

#[test]
fn header_serialize_errors() {
    let mut header = sample_header();
    header.csrc = vec![0; 16];
    let mut dst = BytesMut::new();
    assert!(matches!(
        header.serialize(&mut dst),
        Err(Error::CsrcCountInvalid { count: 16 })
    ));
    assert_eq!(dst.len(), 0);
    let mut header = sample_header();
    header.extension = Some(Extension {
        profile_identifier: 1,
        data: vec![0; 65536],
    });
    assert!(matches!(
        header.serialize(&mut dst),
        Err(Error::ExtensionLengthInvalid { len: 65536 })
    ));
}

#[test]
fn packet_parse_strips_padding() {
    let mut src = Bytes::from(vec![
        0xA0, 0x60, 0x00, 0x01, 0x00, 0x00, 0x00, 0x02, 0x00, 0x00, 0x00, 0x03, 0xAA, 0xBB, 0x00,
        0x02,
    ]);
    let packet = Packet::parse(&mut src).unwrap();
    assert!(!packet.header.padding);
    assert_eq!(&packet.payload[..], &[0xAA, 0xBB][..]);
    assert_eq!(&src[..], &[0x00, 0x02][..]);
}

#[test]
fn packet_parse_padding_errors() {
    let mut empty = Bytes::from(vec![0xA0, 0x60, 0, 1, 0, 0, 0, 2, 0, 0, 0, 3]);
    assert!(matches!(
        Packet::parse(&mut empty),
        Err(Error::NotEnoughData { have: 0, need: 1 })
    ));
    let mut long = Bytes::from(vec![0xA0, 0x60, 0, 1, 0, 0, 0, 2, 0, 0, 0, 3, 1, 9]);
    assert!(matches!(
        Packet::parse(&mut long),
        Err(Error::NotEnoughData { have: 2, need: 9 })
    ));
    assert_eq!(long.len(), 14);
}

#[test]
fn packet_serializes_header_then_payload() {
    let packet = Packet::new(sample_header(), Bytes::from_static(&[1, 2, 3]));
    assert_eq!(packet.serialized_len(), 15);
    let mut dst = BytesMut::new();
    dst.extend_from_slice(&[0xFF]);
    packet.serialize(&mut dst).unwrap();
    assert_eq!(
        &dst[..],
        &[0xFF, 0x80, 0xE0, 0x12, 0x34, 0xDE, 0xAD, 0xBE, 0xEF, 0xCA, 0xFE, 0xBA, 0xBE, 1, 2, 3][..]
    );
}

#[test]
fn padded_packet_ends_with_pad_count() {
    let padded = Packet::new(sample_header(), Bytes::from_static(&[1, 2, 3])).with_padding(8);
    assert!(padded.packet.header.padding);
    assert_eq!(padded.serialized_len(), 16);
    let mut dst = BytesMut::new();
    padded.serialize(&mut dst).unwrap();
    assert_eq!(
        &dst[..],
        &[0xA0, 0xE0, 0x12, 0x34, 0xDE, 0xAD, 0xBE, 0xEF, 0xCA, 0xFE, 0xBA, 0xBE, 1, 2, 3, 1][..]
    );
    let mut src = dst.freeze();
    let packet = Packet::parse(&mut src).unwrap();
    assert_eq!(&packet.payload[..], &[1, 2, 3][..]);
    assert_eq!(&src[..], &[1][..]);
}

#[test]
fn padded_packet_of_full_length_gets_a_full_pad() {
    let padded = Packet::new(sample_header(), Bytes::from_static(&[1, 2, 3, 4])).with_padding(4);
    let mut dst = BytesMut::new();
    padded.serialize(&mut dst).unwrap();
    assert_eq!(dst.len(), 20);
    assert_eq!(&dst[16..], &[0, 0, 0, 4][..]);
}

#[test]
fn padding_divisor_zero_is_rejected() {
    let padded = Packet::new(sample_header(), Bytes::from_static(&[1, 2, 3])).with_padding(0);
    let mut dst = BytesMut::new();
    assert!(matches!(
        padded.serialize(&mut dst),
        Err(Error::PaddingLengthInvalid {
            padding_divisor: 0,
            len: 15
        })
    ));
    assert_eq!(dst.len(), 0);
}

#[test]
fn version_numbers() {
    assert_eq!(Version::Version1.as_number(), 1);
    assert_eq!(Version::Version2.as_number(), 2);
    assert_eq!(Version::try_from(2).unwrap(), Version::Version2);
    assert!(matches!(
        Version::try_from(3),
        Err(Error::VersionUnknown { version: 3 })
    ));
}
