//! Turning payloads into RTP packets: the part that every payload format shares.

use crate::buf::bytes_contents;
use crate::rtp::error::{Error, ErrorView};
use crate::rtp::packet::{Header, HeaderView, Packet, PacketView, Version};
use bytes::Bytes;
use vstd::prelude::*;

verus! {

/// What a packetizer is made from.
#[derive(Debug, Clone, PartialEq, Eq)]
pub struct PacketizationParameters {
    pub payload_type: u8,
    pub ssrc: u32,
    pub csrc: Vec<u32>,
    pub mtu: Option<usize>,
}

/// Stamps payloads with RTP headers, counting sequence numbers up from where it started.
#[derive(Debug)]
pub struct Packetizer {
    header: Header,
    header_serialized_len: usize,
    sequence_number: u16,
    mtu: Option<usize>,
}

/// A packetizer's state: the fields that every packet shares, the sequence number of the
/// next packet, and the size limit.
pub struct PacketizerView {
    pub payload_type: u8,
    pub ssrc: u32,
    pub csrc: Seq<u32>,
    pub sequence_number: u16,
    pub mtu: Option<usize>,
}

/// The sequence number that follows `n`: one more, and zero after the largest.
pub open spec fn next_sequence(n: u16) -> u16 {
    if n == u16::MAX {
        0
    } else {
        (n + 1) as u16
    }
}

impl PacketizerView {
    /// The length of the header that this packetizer puts before every payload.
    pub open spec fn header_len(self) -> nat {
        12 + 4 * self.csrc.len()
    }

    /// The packet that `payload` becomes.
    pub open spec fn packet(self, payload: Seq<u8>, timestamp: u32, marker: bool) -> PacketView {
        PacketView {
            header: HeaderView {
                version: Version::Version2,
                padding: false,
                marker,
                payload_type: self.payload_type,
                sequence_number: self.sequence_number,
                timestamp,
                ssrc: self.ssrc,
                csrc: self.csrc,
                extension: None,
            },
            payload,
        }
    }

    /// Whether a packet around `payload` would be larger than the limit.
    pub open spec fn exceeds(self, payload: Seq<u8>) -> bool {
        self.mtu matches Some(mtu) && self.header_len() + payload.len() > mtu
    }

    /// What packetizing `payload` gives: the packet, or the packet that was too large.
    pub open spec fn packetized(self, payload: Seq<u8>, timestamp: u32, marker: bool) -> Result<
        PacketView,
        ErrorView,
    > {
        if self.exceeds(payload) {
            Err(
                ErrorView::PacketSizeExceedsMtu {
                    packet: self.packet(payload, timestamp, marker),
                    mtu: self.mtu->Some_0,
                },
            )
        } else {
            Ok(self.packet(payload, timestamp, marker))
        }
    }

    /// The state after one more packet, whether it was handed out or found too large.
    pub open spec fn advanced(self) -> PacketizerView {
        PacketizerView { sequence_number: next_sequence(self.sequence_number), ..self }
    }
}

/// `rand::random` for `u16`: a number from the thread-local generator. Nothing is known of
/// the number.
#[verifier::external_body]
fn random_u16() -> u16 {
    rand::random::<u16>()
}

impl View for Packetizer {
    type V = PacketizerView;

    closed spec fn view(&self) -> PacketizerView {
        PacketizerView {
            payload_type: self.header.payload_type,
            ssrc: self.header.ssrc,
            csrc: self.header.csrc@,
            sequence_number: self.sequence_number,
            mtu: self.mtu,
        }
    }
}

impl Packetizer {
    #[verifier::type_invariant]
    spec fn well_formed(self) -> bool {
        &&& self.header.version == Version::Version2
        &&& !self.header.padding
        &&& self.header.extension is None
        &&& self.header_serialized_len == 12 + 4 * self.header.csrc@.len()
    }

    /// A packetizer that starts at a random sequence number.
    pub fn new(payload_type: u8, ssrc: u32, csrc: Vec<u32>, mtu: Option<usize>) -> (r: Packetizer)
        requires
            12 + 4 * csrc@.len() <= usize::MAX,
        ensures
            r@.payload_type == payload_type,
            r@.ssrc == ssrc,
            r@.csrc == csrc@,
            r@.mtu == mtu,
    {
        Packetizer::with_sequence_number(payload_type, ssrc, csrc, mtu, random_u16())
    }

    /// A packetizer that starts at `sequence_number`.
    pub fn with_sequence_number(
        payload_type: u8,
        ssrc: u32,
        csrc: Vec<u32>,
        mtu: Option<usize>,
        sequence_number: u16,
    ) -> (r: Packetizer)
        requires
            12 + 4 * csrc@.len() <= usize::MAX,
        ensures
            r@ == (PacketizerView { payload_type, ssrc, csrc: csrc@, sequence_number, mtu }),
    {
        let header = Header {
            version: Version::Version2,
            padding: false,
            marker: false,
            payload_type,
            sequence_number: 0,
            timestamp: 0,
            ssrc,
            csrc,
            extension: None,
        };
        let header_serialized_len = header.serialized_len();
        Packetizer { header, header_serialized_len, sequence_number, mtu }
    }

    pub fn from_packetization_parameters(
        packetization_parameters: PacketizationParameters,
    ) -> (r: Packetizer)
        requires
            12 + 4 * packetization_parameters.csrc@.len() <= usize::MAX,
        ensures
            r@.payload_type == packetization_parameters.payload_type,
            r@.ssrc == packetization_parameters.ssrc,
            r@.csrc == packetization_parameters.csrc@,
            r@.mtu == packetization_parameters.mtu,
    {
        Packetizer::new(
            packetization_parameters.payload_type,
            packetization_parameters.ssrc,
            packetization_parameters.csrc,
            packetization_parameters.mtu,
        )
    }

    /// Wraps `payload` in a packet with the next sequence number. The sequence number is used
    /// up even when the packet turns out larger than the limit.
    pub fn packetize(&mut self, payload: Bytes, timestamp: u32, marker: bool) -> (r: Result<
        Packet,
        Error,
    >)
        ensures
            final(self)@ == old(self)@.advanced(),
            match old(self)@.packetized(bytes_contents(payload), timestamp, marker) {
                Ok(packet) => r matches Ok(p) && p@ == packet,
                Err(e) => r matches Err(x) && x@ == e,
            },
    {
        proof {
            use_type_invariant(&*self);
        }
        let mut header = self.clone_header();
        header.marker = marker;
        header.sequence_number = self.next_sequence_number();
        header.timestamp = timestamp;
        proof {
            use_type_invariant(&*self);
        }
        let payload_len = payload.len();
        let packet = Packet::new(header, payload);
        if let Some(mtu) = self.mtu {
            if payload_len > mtu || self.header_serialized_len > mtu - payload_len {
                return Err(Error::PacketSizeExceedsMtu { packet, mtu });
            }
        }
        Ok(packet)
    }

    #[inline]
    pub fn header_serialized_len(&self) -> (n: usize)
        ensures
            n == self@.header_len(),
    {
        proof {
            use_type_invariant(self);
        }
        self.header_serialized_len
    }

    /// The size limit, when there is one.
    #[inline]
    pub fn mtu(&self) -> (r: Option<usize>)
        ensures
            r == self@.mtu,
    {
        self.mtu
    }

    fn clone_header(&self) -> (h: Header)
        ensures
            h@ == self.header@,
    {
        let mut csrc: Vec<u32> = Vec::new();
        let mut i: usize = 0;
        proof {
            use_type_invariant(self);
        }
        while i < self.header.csrc.len()
            invariant
                0 <= i <= self.header.csrc@.len(),
                csrc@ == self.header.csrc@.take(i as int),
            decreases self.header.csrc@.len() - i,
        {
            csrc.push(self.header.csrc[i]);
            i += 1;
            assert(csrc@ =~= self.header.csrc@.take(i as int));
        }
        assert(csrc@ =~= self.header.csrc@);
        Header {
            version: self.header.version,
            padding: self.header.padding,
            marker: self.header.marker,
            payload_type: self.header.payload_type,
            sequence_number: self.header.sequence_number,
            timestamp: self.header.timestamp,
            ssrc: self.header.ssrc,
            csrc,
            extension: None,
        }
    }

    #[inline]
    fn next_sequence_number(&mut self) -> (n: u16)
        ensures
            n == old(self)@.sequence_number,
            final(self)@ == old(self)@.advanced(),
    {
        proof {
            use_type_invariant(&*self);
        }
        let sequence_number = self.sequence_number;
        self.sequence_number = self.sequence_number.wrapping_add(1);
        sequence_number
    }
}

} // verus!
