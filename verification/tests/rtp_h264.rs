use bytes::Bytes;
use rave::rtp::error::{Error, H264PacketizationMode};
use rave::rtp::h264::{
    H264Depacketizer, H264Packetizer, H264PacketizerMode0, H264PacketizerMode1,
};
use rave::rtp::packet::Packet;
use rave::rtp::packetization::{PacketizationParameters, Packetizer};

fn params(mtu: Option<usize>) -> PacketizationParameters {
    PacketizationParameters {
        payload_type: 96,
        ssrc: 7,
        csrc: Vec::new(),
        mtu,
    }
}

fn nal(first: u8, len: usize) -> Bytes {
    let mut bytes = vec![first];
    for i in 1..len {
        bytes.push((i % 251) as u8);
    }
    Bytes::from(bytes)
}

fn depacketize_all(packets: &[Packet]) -> Vec<Bytes> {
    let mut depacketizer = H264Depacketizer::new();
    let mut nals = Vec::new();
    for packet in packets {
        nals.extend(depacketizer.depacketize(packet).unwrap());
    }
    nals
}

#[test]
fn packetizer_counts_sequence_numbers_and_wraps() {
    let mut packetizer = Packetizer::with_sequence_number(96, 7, vec![1, 2], None, 65535);
    assert_eq!(packetizer.header_serialized_len(), 20);
    let first = packetizer
        .packetize(Bytes::from_static(&[1]), 10, false)
        .unwrap();
    let second = packetizer
        .packetize(Bytes::from_static(&[2]), 11, true)
        .unwrap();
    assert_eq!(first.header.sequence_number, 65535);
    assert_eq!(second.header.sequence_number, 0);
    assert_eq!(first.header.timestamp, 10);
    assert!(!first.header.marker);
    assert!(second.header.marker);
    assert_eq!(second.header.csrc, vec![1, 2]);
    assert_eq!(second.header.ssrc, 7);
    assert_eq!(second.header.payload_type, 96);
}

#[test]
fn packetizer_starts_anywhere_and_counts_up() {
    let mut packetizer = Packetizer::new(96, 7, Vec::new(), None);
    let first = packetizer
        .packetize(Bytes::from_static(&[1]), 0, false)
        .unwrap();
    let second = packetizer
        .packetize(Bytes::from_static(&[1]), 0, false)
        .unwrap();
    assert_eq!(
        second.header.sequence_number,
        first.header.sequence_number.wrapping_add(1)
    );
}

#[test]
fn packetizer_rejects_what_exceeds_mtu() {
    let mut packetizer = Packetizer::with_sequence_number(96, 7, Vec::new(), Some(14), 5);
    assert!(packetizer
        .packetize(Bytes::from_static(&[1, 2]), 0, false)
        .is_ok());
    match packetizer.packetize(Bytes::from_static(&[1, 2, 3]), 0, false) {
        Err(Error::PacketSizeExceedsMtu { packet, mtu }) => {
            assert_eq!(mtu, 14);
            assert_eq!(packet.header.sequence_number, 6);
        }
        other => panic!("{:?}", other),
    }
    let next = packetizer
        .packetize(Bytes::from_static(&[1]), 0, false)
        .unwrap();
    assert_eq!(next.header.sequence_number, 7);
}

#[test]
fn mode0_one_packet_per_nal_marker_on_last() {
    let mut packetizer = H264PacketizerMode0::from_packetizer(Packetizer::with_sequence_number(
        96,
        7,
        Vec::new(),
        Some(100),
        0,
    ));
    let nals = vec![nal(0x65, 10), nal(0x41, 20), nal(0x41, 30)];
    let packets = packetizer.packetize(nals.clone(), 1234).unwrap();
    assert_eq!(packets.len(), 3);
    assert_eq!(
        packets.iter().map(|p| p.header.marker).collect::<Vec<_>>(),
        vec![false, false, true]
    );
    assert_eq!(packets[1].payload, nals[1]);
    assert_eq!(depacketize_all(&packets), nals);
}

#[test]
fn mode0_fails_on_large_nal() {
    let mut packetizer = H264PacketizerMode0::new(params(Some(40)));
    assert!(matches!(
        packetizer.packetize(vec![nal(0x65, 10), nal(0x65, 29)], 0),
        Err(Error::PacketSizeExceedsMtu { packet: _, mtu: 40 })
    ));
}

#[test]
fn mode1_aggregates_three_small_nals() {
    let mut packetizer = H264PacketizerMode1::new(params(Some(80)));
    let nals = vec![nal(0x67, 10), nal(0x68, 20), nal(0x65, 30)];
    let packets = packetizer.packetize(nals.clone(), 0).unwrap();
    assert_eq!(packets.len(), 1);
    assert_eq!(packets[0].payload.len(), 1 + (2 + 10) + (2 + 20) + (2 + 30));
    assert_eq!(packets[0].payload[0] & 0x1f, 24);
    assert_eq!(&packets[0].payload[1..3], &[0, 10][..]);
    assert!(packets[0].header.marker);
    assert_eq!(depacketize_all(&packets), nals);
}

#[test]
fn mode1_fragments_large_nal() {
    let mut packetizer = H264PacketizerMode1::new(params(Some(1400)));
    let nals = vec![nal(0x65, 3000)];
    let packets = packetizer.packetize(nals.clone(), 0).unwrap();
    let chunk = 1400 - 12 - 2;
    assert_eq!(packets.len(), (3000 - 1 + chunk - 1) / chunk);
    assert_eq!(packets.len(), 3);
    let starts = packets.iter().filter(|p| p.payload[1] & 0x80 != 0).count();
    let ends = packets.iter().filter(|p| p.payload[1] & 0x40 != 0).count();
    assert_eq!(starts, 1);
    assert_eq!(ends, 1);
    assert!(packets[0].payload[1] & 0x80 != 0);
    assert!(packets[2].payload[1] & 0x40 != 0);
    for packet in &packets {
        assert_eq!(packet.payload[0], 0x60 | 28);
        assert_eq!(packet.payload[1] & 0x1f, 5);
        assert!(packet.serialized_len() <= 1400);
    }
    assert_eq!(
        packets.iter().map(|p| p.header.marker).collect::<Vec<_>>(),
        vec![false, false, true]
    );
    assert_eq!(depacketize_all(&packets), nals);
}

#[test]
fn mode1_mixes_packet_kinds_and_round_trips() {
    let mut packetizer = H264PacketizerMode1::from_packetizer(Packetizer::with_sequence_number(
        96,
        7,
        Vec::new(),
        Some(60),
        100,
    ));
    let nals = vec![
        nal(0x67, 8),
        nal(0x68, 6),
        nal(0x65, 200),
        nal(0x41, 40),
        nal(0x41, 5),
        nal(0x41, 5),
    ];
    let packets = packetizer.packetize(nals.clone(), 9).unwrap();
    for (i, packet) in packets.iter().enumerate() {
        assert!(packet.serialized_len() <= 60);
        assert_eq!(packet.header.sequence_number, 100 + i as u16);
        assert_eq!(packet.header.marker, i == packets.len() - 1);
        assert_eq!(packet.header.timestamp, 9);
    }
    assert_eq!(depacketize_all(&packets), nals);
}

#[test]
fn mode1_without_mtu_makes_one_aggregate() {
    let mut packetizer = H264PacketizerMode1::new(params(None));
    let nals = vec![nal(0x67, 3), nal(0x68, 70000 - 65536 + 1000)];
    let packets = packetizer.packetize(nals.clone(), 0).unwrap();
    assert_eq!(packets.len(), 1);
    assert!(packets[0].header.marker);
    assert_eq!(depacketize_all(&packets), nals);
    assert!(matches!(
        packetizer.packetize(vec![nal(0x67, 3), nal(0x68, 65536)], 0),
        Err(Error::H264NalUnitDataLengthInvalid { len: 65536 })
    ));
}

#[test]
fn packetizer_by_mode() {
    assert!(matches!(
        H264Packetizer::from_packetization_mode(H264PacketizationMode::InterleavedMode, params(None)),
        Err(Error::H264PacketizationModeUnsupported {
            mode: H264PacketizationMode::InterleavedMode
        })
    ));
    let mut single =
        H264Packetizer::from_packetization_mode(H264PacketizationMode::SingleNalUnit, params(None))
            .unwrap();
    assert_eq!(single.packetize(vec![nal(0x65, 4)], 0).unwrap().len(), 1);
    let mut aggregating = H264Packetizer::from_packetization_mode(
        H264PacketizationMode::NonInterleavedMode,
        params(Some(100)),
    )
    .unwrap();
    let packets = aggregating
        .packetize(vec![nal(0x65, 4), nal(0x65, 4)], 0)
        .unwrap();
    assert_eq!(packets.len(), 1);
    assert_eq!(packets[0].payload[0], 24);
}

#[test]
fn packetization_mode_numbers() {
    assert_eq!(
        H264PacketizationMode::try_from(0).unwrap(),
        H264PacketizationMode::SingleNalUnit
    );
    assert_eq!(
        H264PacketizationMode::try_from(1).unwrap(),
        H264PacketizationMode::NonInterleavedMode
    );
    assert_eq!(
        H264PacketizationMode::try_from(2).unwrap(),
        H264PacketizationMode::InterleavedMode
    );
    assert!(matches!(
        H264PacketizationMode::try_from(3),
        Err(Error::H264PacketizationModeUnknown { mode: 3 })
    ));
}

fn packet_of(payload: &[u8]) -> Packet {
    let mut packetizer = Packetizer::with_sequence_number(96, 7, Vec::new(), None, 0);
    packetizer
        .packetize(Bytes::copy_from_slice(payload), 0, false)
        .unwrap()
}

#[test]
fn depacketizer_rejects_short_and_unsupported_payloads() {
    let mut depacketizer = H264Depacketizer::new();
    assert!(matches!(
        depacketizer.depacketize(&packet_of(&[])),
        Err(Error::H264NalUnitLengthTooSmall { len: 0 })
    ));
    assert!(matches!(
        depacketizer.depacketize(&packet_of(&[0x65])),
        Err(Error::H264NalUnitLengthTooSmall { len: 1 })
    ));
    match depacketizer.depacketize(&packet_of(&[25, 0])) {
        Err(Error::H264DepacketizationNalUnitTypeUnsupported { nal_unit_type_name }) => {
            assert_eq!(nal_unit_type_name, "STAP-B")
        }
        other => panic!("{:?}", other),
    }
    match depacketizer.depacketize(&packet_of(&[27, 0])) {
        Err(Error::H264DepacketizationNalUnitTypeUnsupported { nal_unit_type_name }) => {
            assert_eq!(nal_unit_type_name, "MTAP")
        }
        other => panic!("{:?}", other),
    }
    match depacketizer.depacketize(&packet_of(&[29, 0])) {
        Err(Error::H264DepacketizationNalUnitTypeUnsupported { nal_unit_type_name }) => {
            assert_eq!(nal_unit_type_name, "FU-B")
        }
        other => panic!("{:?}", other),
    }
    assert!(matches!(
        depacketizer.depacketize(&packet_of(&[0, 0])),
        Err(Error::H264DepacketizationNalUnitTypeUnknown { nal_unit_type: 0 })
    ));
    assert_eq!(depacketizer.depacketize(&packet_of(&[30, 0])).unwrap().len(), 0);
    assert_eq!(depacketizer.depacketize(&packet_of(&[31, 0])).unwrap().len(), 0);
}

#[test]
fn depacketizer_aggregation_errors() {
    let mut depacketizer = H264Depacketizer::new();
    assert!(matches!(
        depacketizer.depacketize(&packet_of(&[24, 0])),
        Err(Error::H264AggregationUnitHeaderInvalid { len: 1 })
    ));
    assert!(matches!(
        depacketizer.depacketize(&packet_of(&[24, 0, 3, 1, 2])),
        Err(Error::H264AggregationUnitDataTooSmall { have: 2, need: 3 })
    ));
    let units = depacketizer
        .depacketize(&packet_of(&[24, 0, 2, 0x65, 1, 0, 1, 0x41]))
        .unwrap();
    assert_eq!(
        units,
        vec![Bytes::from_static(&[0x65, 1]), Bytes::from_static(&[0x41])]
    );
}

#[test]
fn depacketizer_fragment_states() {
    let mut depacketizer = H264Depacketizer::new();
    assert!(matches!(
        depacketizer.depacketize(&packet_of(&[0x7c, 0x05, 1])),
        Err(Error::H264FragmentedStateNeverStarted)
    ));
    assert!(matches!(
        depacketizer.depacketize(&packet_of(&[0x7c, 0x45, 1])),
        Err(Error::H264FragmentedStateNeverStarted)
    ));
    assert_eq!(
        depacketizer
            .depacketize(&packet_of(&[0x7c, 0x85, 1, 2]))
            .unwrap()
            .len(),
        0
    );
    assert!(matches!(
        depacketizer.depacketize(&packet_of(&[0x7c, 0x85, 9])),
        Err(Error::H264FragmentedStateAlreadyStarted)
    ));
    assert_eq!(
        depacketizer
            .depacketize(&packet_of(&[0x7c, 0x05, 3]))
            .unwrap()
            .len(),
        0
    );
    assert_eq!(
        depacketizer
            .depacketize(&packet_of(&[0x7c, 0x45, 4, 5]))
            .unwrap(),
        vec![Bytes::from_static(&[0x65, 1, 2, 3, 4, 5])]
    );
    assert_eq!(
        depacketizer
            .depacketize(&packet_of(&[0x3c, 0xc1, 8, 9]))
            .unwrap(),
        vec![Bytes::from_static(&[0x21, 8, 9])]
    );
}
