//! The RTP datagram: its header, its wire format, and the codec between the two.

use crate::buf::{bytes_as_slice, bytes_contents, bytes_mut_contents};
use crate::rtp::error::{Error, ErrorView};
use bytes::{Bytes, BytesMut};
use vstd::prelude::*;

verus! {

/// RTP version, the two highest bits of the first header byte.
#[derive(Debug, Clone, Copy, PartialEq, Eq, Structural)]
pub enum Version {
    Version1,
    Version2,
}

impl Version {
    /// The number that stands for this version on the wire.
    pub open spec fn number(self) -> u8 {
        match self {
            Version::Version1 => 1,
            Version::Version2 => 2,
        }
    }

    /// The version that `value` stands for, when it is one or two.
    pub open spec fn of_number(value: usize) -> Result<Version, ErrorView> {
        if value == 1 {
            Ok(Version::Version1)
        } else if value == 2 {
            Ok(Version::Version2)
        } else {
            Err(ErrorView::VersionUnknown { version: value })
        }
    }

    #[inline]
    pub fn as_number(&self) -> (n: usize)
        ensures
            n == self.number(),
    {
        match self {
            Version::Version1 => 1,
            Version::Version2 => 2,
        }
    }

    pub fn try_from(value: usize) -> (r: Result<Version, Error>)
        ensures
            match Version::of_number(value) {
                Ok(v) => r == Ok::<Version, Error>(v),
                Err(e) => r matches Err(x) && x@ == e,
            },
    {
        match value {
            1 => Ok(Version::Version1),
            2 => Ok(Version::Version2),
            _ => Err(Error::VersionUnknown { version: value }),
        }
    }
}

/// RTP header extension: a profile identifier and a run of 32-bit words.
#[derive(Debug, Clone, PartialEq, Eq)]
pub struct Extension {
    pub profile_identifier: u16,
    pub data: Vec<u32>,
}

pub struct ExtensionView {
    pub profile_identifier: u16,
    pub data: Seq<u32>,
}

impl View for Extension {
    type V = ExtensionView;

    open spec fn view(&self) -> ExtensionView {
        ExtensionView { profile_identifier: self.profile_identifier, data: self.data@ }
    }
}

/// RTP header.
#[derive(Debug, Clone, PartialEq, Eq)]
pub struct Header {
    pub version: Version,
    pub padding: bool,
    pub marker: bool,
    pub payload_type: u8,
    pub sequence_number: u16,
    pub timestamp: u32,
    pub ssrc: u32,
    pub csrc: Vec<u32>,
    pub extension: Option<Extension>,
}

pub struct HeaderView {
    pub version: Version,
    pub padding: bool,
    pub marker: bool,
    pub payload_type: u8,
    pub sequence_number: u16,
    pub timestamp: u32,
    pub ssrc: u32,
    pub csrc: Seq<u32>,
    pub extension: Option<ExtensionView>,
}

impl View for Header {
    type V = HeaderView;

    open spec fn view(&self) -> HeaderView {
        HeaderView {
            version: self.version,
            padding: self.padding,
            marker: self.marker,
            payload_type: self.payload_type,
            sequence_number: self.sequence_number,
            timestamp: self.timestamp,
            ssrc: self.ssrc,
            csrc: self.csrc@,
            extension: match self.extension {
                Some(extension) => Some(extension@),
                None => None,
            },
        }
    }
}

/// RTP packet without padding: a header whose padding flag is off, and a payload.
#[derive(Debug, Clone, PartialEq, Eq)]
pub struct Packet {
    pub header: Header,
    pub payload: Bytes,
}

pub struct PacketView {
    pub header: HeaderView,
    pub payload: Seq<u8>,
}

impl View for Packet {
    type V = PacketView;

    open spec fn view(&self) -> PacketView {
        PacketView { header: self.header@, payload: bytes_contents(self.payload) }
    }
}

/// RTP packet that is padded, when serialized, to a multiple of `padding_divisor` bytes.
#[derive(Debug, Clone, PartialEq, Eq)]
pub struct PacketPadded {
    pub packet: Packet,
    pub padding_divisor: u8,
}

pub struct PacketPaddedView {
    pub packet: PacketView,
    pub padding_divisor: u8,
}

impl View for PacketPadded {
    type V = PacketPaddedView;

    open spec fn view(&self) -> PacketPaddedView {
        PacketPaddedView { packet: self.packet@, padding_divisor: self.padding_divisor }
    }
}

/// The two bytes of `x`, most significant first.
pub open spec fn be16(x: u16) -> Seq<u8> {
    seq![(x >> 8) as u8, (x & 0xff) as u8]
}

/// The four bytes of `x`, most significant first.
pub open spec fn be32(x: u32) -> Seq<u8> {
    seq![(x >> 24) as u8, ((x >> 16) & 0xff) as u8, ((x >> 8) & 0xff) as u8, (x & 0xff) as u8]
}

/// The words of `words` in order, four bytes each, most significant byte first.
pub open spec fn be32_all(words: Seq<u32>) -> Seq<u8>
    decreases words.len(),
{
    if words.len() == 0 {
        Seq::<u8>::empty()
    } else {
        be32_all(words.drop_last()) + be32(words.last())
    }
}

/// The 16-bit number that the two bytes at `at` spell, most significant first.
pub open spec fn u16_at(s: Seq<u8>, at: int) -> u16 {
    ((s[at] as u16) << 8) | (s[at + 1] as u16)
}

/// The 32-bit number that the four bytes at `at` spell, most significant first.
pub open spec fn u32_at(s: Seq<u8>, at: int) -> u32 {
    ((s[at] as u32) << 24) | ((s[at + 1] as u32) << 16) | ((s[at + 2] as u32) << 8) | (s[at
        + 3] as u32)
}

/// The `count` 32-bit numbers that start at `at`.
pub open spec fn u32s_at(s: Seq<u8>, at: int, count: nat) -> Seq<u32> {
    Seq::new(count, |i: int| u32_at(s, at + 4 * i))
}

pub open spec fn flag(b: bool) -> u8 {
    if b {
        1u8
    } else {
        0u8
    }
}

impl ExtensionView {
    pub open spec fn wire(self) -> Seq<u8> {
        be16(self.profile_identifier) + be16(self.data.len() as u16) + be32_all(self.data)
    }

    pub open spec fn wire_len(self) -> nat {
        4 + 4 * self.data.len()
    }
}

impl HeaderView {
    /// The first header byte: version, padding flag, extension flag and CSRC count.
    pub open spec fn first_byte(self) -> u8 {
        (self.version.number() << 6) | (self.csrc.len() as u8) | (flag(self.padding) << 5) | (flag(
            self.extension is Some,
        ) << 4)
    }

    /// The second header byte: marker bit and payload type.
    pub open spec fn second_byte(self) -> u8 {
        self.payload_type | (flag(self.marker) << 7)
    }

    /// Whether the header fits the wire format: at most 15 CSRC identifiers, and an extension
    /// of at most 65535 words.
    pub open spec fn encodable(self) -> bool {
        &&& self.csrc.len() <= 15
        &&& self.extension matches Some(extension) ==> extension.data.len() <= 65535
    }

    /// Whether the header is one that the wire format can tell apart from every other: it is
    /// encodable and its payload type has seven bits.
    pub open spec fn valid(self) -> bool {
        self.encodable() && self.payload_type <= 127
    }

    /// The header on the wire.
    pub open spec fn wire(self) -> Seq<u8> {
        seq![self.first_byte(), self.second_byte()] + be16(self.sequence_number) + be32(
            self.timestamp,
        ) + be32(self.ssrc) + be32_all(self.csrc) + match self.extension {
            Some(extension) => extension.wire(),
            None => Seq::<u8>::empty(),
        }
    }

    pub open spec fn wire_len(self) -> nat {
        12 + 4 * self.csrc.len() + match self.extension {
            Some(extension) => extension.wire_len(),
            None => 0,
        }
    }

    /// What serializing the header gives: its wire form, or the field that does not fit.
    pub open spec fn serialized(self) -> Result<Seq<u8>, ErrorView> {
        if self.csrc.len() > 15 {
            Err(ErrorView::CsrcCountInvalid { count: self.csrc.len() as usize })
        } else {
            match self.extension {
                Some(extension) if extension.data.len() > 65535 => Err(
                    ErrorView::ExtensionLengthInvalid { len: extension.data.len() as usize },
                ),
                _ => Ok(self.wire()),
            }
        }
    }
}

/// Reading of a header from the front of `s`: the header and the number of bytes it took, or
/// the reason why `s` does not begin with one.
pub open spec fn parse_header(s: Seq<u8>) -> Result<(HeaderView, nat), ErrorView> {
    if s.len() < 12 {
        Err(ErrorView::NotEnoughData { have: s.len() as usize, need: 12 })
    } else {
        let number = ((s[0] >> 6) & 0x03) as usize;
        let count = (s[0] & 0x0f) as nat;
        let fixed = 12 + 4 * count;
        match Version::of_number(number) {
            Err(e) => Err(e),
            Ok(version) => if s.len() < fixed {
                Err(ErrorView::NotEnoughData { have: s.len() as usize, need: fixed as usize })
            } else {
                let header = HeaderView {
                    version,
                    padding: ((s[0] >> 5) & 0x01) > 0,
                    marker: ((s[1] >> 7) & 0x01) > 0,
                    payload_type: s[1] & 0x7f,
                    sequence_number: u16_at(s, 2),
                    timestamp: u32_at(s, 4),
                    ssrc: u32_at(s, 8),
                    csrc: u32s_at(s, 12, count),
                    extension: None,
                };
                if ((s[0] >> 4) & 0x01) == 0 {
                    Ok((header, fixed))
                } else if s.len() - fixed < 4 {
                    Err(ErrorView::NotEnoughData { have: (s.len() - fixed) as usize, need: 4 })
                } else {
                    let words = u16_at(s, fixed as int + 2) as nat;
                    if s.len() - fixed - 4 < 4 * words {
                        Err(
                            ErrorView::NotEnoughData {
                                have: (s.len() - fixed - 4) as usize,
                                need: (4 * words) as usize,
                            },
                        )
                    } else {
                        Ok(
                            (
                                HeaderView {
                                    extension: Some(
                                        ExtensionView {
                                            profile_identifier: u16_at(s, fixed as int),
                                            data: u32s_at(s, fixed as int + 4, words),
                                        },
                                    ),
                                    ..header
                                },
                                fixed + 4 + 4 * words,
                            ),
                        )
                    }
                }
            },
        }
    }
}

/// Reading of a whole datagram: the packet, and the padding bytes that follow its payload.
/// The packet comes without its padding flag, as every [`Packet`] does.
pub open spec fn parse_packet(s: Seq<u8>) -> Result<(PacketView, Seq<u8>), ErrorView> {
    match parse_header(s) {
        Err(e) => Err(e),
        Ok((header, used)) => {
            let rest = s.skip(used as int);
            if header.padding && rest.len() == 0 {
                Err(ErrorView::NotEnoughData { have: 0, need: 1 })
            } else {
                let pad = if header.padding {
                    rest.last() as nat
                } else {
                    0
                };
                if rest.len() < pad {
                    Err(ErrorView::NotEnoughData { have: rest.len() as usize, need: pad as usize })
                } else {
                    Ok(
                        (
                            PacketView {
                                header: HeaderView { padding: false, ..header },
                                payload: rest.take(rest.len() - pad),
                            },
                            rest.skip(rest.len() - pad),
                        ),
                    )
                }
            }
        },
    }
}

/// The number of padding bytes that bring `len` bytes up to the next multiple of `divisor`;
/// a full `divisor` when `len` already is one.
pub open spec fn padding_len(divisor: u8, len: nat) -> nat
    recommends
        divisor > 0,
{
    (divisor - len % (divisor as nat)) as nat
}

/// `count` padding bytes: zeros, then the count itself.
pub open spec fn padding(count: nat) -> Seq<u8>
    recommends
        1 <= count <= 255,
{
    Seq::new((count - 1) as nat, |i: int| 0u8).push(count as u8)
}

impl PacketView {
    pub open spec fn wire_len(self) -> nat {
        self.header.wire_len() + self.payload.len()
    }

    pub open spec fn serialized(self) -> Result<Seq<u8>, ErrorView> {
        match self.header.serialized() {
            Ok(header) => Ok(header + self.payload),
            Err(e) => Err(e),
        }
    }
}

impl PacketPaddedView {
    pub open spec fn wire_len(self) -> nat {
        self.packet.wire_len() + padding_len(self.padding_divisor, self.packet.wire_len())
    }

    pub open spec fn serialized(self) -> Result<Seq<u8>, ErrorView> {
        match self.packet.serialized() {
            Err(e) => Err(e),
            Ok(packet) => if self.padding_divisor == 0 {
                Err(
                    ErrorView::PaddingLengthInvalid {
                        padding_divisor: 0,
                        len: packet.len() as usize,
                    },
                )
            } else {
                Ok(packet + padding(padding_len(self.padding_divisor, packet.len())))
            },
        }
    }
}

fn read_u16(s: &[u8], at: usize) -> (r: u16)
    requires
        at + 2 <= s@.len(),
    ensures
        r == u16_at(s@, at as int),
{
    ((s[at] as u16) << 8) | (s[at + 1] as u16)
}

fn read_u32(s: &[u8], at: usize) -> (r: u32)
    requires
        at + 4 <= s@.len(),
    ensures
        r == u32_at(s@, at as int),
{
    ((s[at] as u32) << 24) | ((s[at + 1] as u32) << 16) | ((s[at + 2] as u32) << 8) | (s[at
        + 3] as u32)
}

fn read_u32s(s: &[u8], at: usize, count: usize) -> (r: Vec<u32>)
    requires
        at + 4 * count <= s@.len(),
    ensures
        r@ == u32s_at(s@, at as int, count as nat),
{
    let mut words: Vec<u32> = Vec::new();
    let mut i: usize = 0;
    let total = s.len();
    while i < count
        invariant
            total == s@.len(),
            at + 4 * count <= s@.len(),
            0 <= i <= count,
            words@ == u32s_at(s@, at as int, i as nat),
        decreases count - i,
    {
        let word = read_u32(s, at + 4 * i);
        words.push(word);
        i += 1;
        assert(words@ =~= u32s_at(s@, at as int, i as nat));
    }
    words
}

fn write_u16(out: &mut Vec<u8>, x: u16)
    ensures
        final(out)@ == old(out)@ + be16(x),
{
    out.push((x >> 8) as u8);
    out.push((x & 0xff) as u8);
    assert(final(out)@ =~= old(out)@ + be16(x));
}

fn write_u32(out: &mut Vec<u8>, x: u32)
    ensures
        final(out)@ == old(out)@ + be32(x),
{
    out.push((x >> 24) as u8);
    out.push(((x >> 16) & 0xff) as u8);
    out.push(((x >> 8) & 0xff) as u8);
    out.push((x & 0xff) as u8);
    assert(final(out)@ =~= old(out)@ + be32(x));
}

fn write_u32s(out: &mut Vec<u8>, words: &Vec<u32>)
    ensures
        final(out)@ == old(out)@ + be32_all(words@),
{
    let mut i: usize = 0;
    assert(words@.take(0) =~= Seq::<u32>::empty());
    assert(out@ =~= old(out)@ + be32_all(words@.take(0)));
    while i < words.len()
        invariant
            0 <= i <= words@.len(),
            out@ == old(out)@ + be32_all(words@.take(i as int)),
        decreases words@.len() - i,
    {
        let ghost before = out@;
        write_u32(out, words[i]);
        proof {
            let next = words@.take(i + 1);
            assert(next.drop_last() =~= words@.take(i as int));
            assert(next.last() == words@[i as int]);
            assert(out@ =~= old(out)@ + be32_all(next));
        }
        i += 1;
    }
    assert(words@.take(words@.len() as int) =~= words@);
}

pub proof fn lemma_be32_all_len(words: Seq<u32>)
    ensures
        be32_all(words).len() == 4 * words.len(),
    decreases words.len(),
{
    if words.len() > 0 {
        lemma_be32_all_len(words.drop_last());
    }
}

impl Extension {
    pub fn serialized_len(&self) -> (n: usize)
        requires
            self@.wire_len() <= usize::MAX,
        ensures
            n == self@.wire_len(),
    {
        4 + (self.data.len() * 4)
    }
}

impl Header {
    /// Reads a header from the front of `src` and takes its bytes out of `src`. When `src`
    /// does not begin with a header, `src` is left as it was.
    pub fn parse(src: &mut Bytes) -> (r: Result<Header, Error>)
        ensures
            match parse_header(bytes_contents(*old(src))) {
                Ok((header, used)) => {
                    &&& r matches Ok(h) && h@ == header
                    &&& bytes_contents(*final(src)) == bytes_contents(*old(src)).skip(used as int)
                },
                Err(e) => {
                    &&& r matches Err(x) && x@ == e
                    &&& bytes_contents(*final(src)) == bytes_contents(*old(src))
                },
            },
    {
        let s = bytes_as_slice(src);
        let bytes_len = s.len();
        if bytes_len < 12 {
            return Err(Error::NotEnoughData { have: bytes_len, need: 12 });
        }
        let byte = s[0];
        let version = match Version::try_from(((byte >> 6) & 0x03) as usize) {
            Ok(version) => version,
            Err(e) => {
                return Err(e);
            },
        };
        let padding = ((byte >> 5) & 0x01) > 0;
        let extension = ((byte >> 4) & 0x01) > 0;
        let csrc_count = (byte & 0x0f) as usize;
        assert(byte & 0x0f <= 15) by (bit_vector);
        let need = 12 + (csrc_count * 4);
        if bytes_len < need {
            return Err(Error::NotEnoughData { have: bytes_len, need });
        }
        let byte = s[1];
        let marker = ((byte >> 7) & 0x01) > 0;
        let payload_type = byte & 0x7f;
        let sequence_number = read_u16(s, 2);
        let timestamp = read_u32(s, 4);
        let ssrc = read_u32(s, 8);
        let csrc = read_u32s(s, 12, csrc_count);
        let mut used = need;
        let extension = if extension {
            let remaining = bytes_len - need;
            if remaining < 4 {
                return Err(Error::NotEnoughData { have: remaining, need: 4 });
            }
            let profile_identifier = read_u16(s, need);
            let len = read_u16(s, need + 2);
            let data_need = len as usize * 4;
            if remaining - 4 < data_need {
                return Err(Error::NotEnoughData { have: remaining - 4, need: data_need });
            }
            let data = read_u32s(s, need + 4, len as usize);
            used = need + 4 + data_need;
            Some(Extension { profile_identifier, data })
        } else {
            let ghost first: u8 = s@[0];
            assert(((first >> 4) & 0x01) == 0) by (bit_vector)
                requires
                    !(((first >> 4) & 0x01) > 0),
            ;
            None
        };
        let _ = src.split_to(used);
        Ok(
            Header {
                version,
                padding,
                marker,
                payload_type,
                sequence_number,
                timestamp,
                ssrc,
                csrc,
                extension,
            },
        )
    }

    pub fn serialized_len(&self) -> (n: usize)
        requires
            self@.wire_len() <= usize::MAX,
        ensures
            n == self@.wire_len(),
    {
        12 + (self.csrc.len() * 4) + match &self.extension {
            Some(extension) => extension.serialized_len(),
            None => 0,
        }
    }

    /// The header's wire form, or the field that does not fit the format.
    pub fn to_wire(&self) -> (r: Result<Vec<u8>, Error>)
        ensures
            match self@.serialized() {
                Ok(wire) => r matches Ok(w) && w@ == wire,
                Err(e) => r matches Err(x) && x@ == e,
            },
    {
        if self.csrc.len() > 15 {
            return Err(Error::CsrcCountInvalid { count: self.csrc.len() });
        }
        if let Some(extension) = &self.extension {
            if extension.data.len() > 65535 {
                return Err(Error::ExtensionLengthInvalid { len: extension.data.len() });
            }
        }
        let mut out: Vec<u8> = Vec::new();
        let version = (self.version.as_number() as u8) << 6;
        let csrc_count: u8 = self.csrc.len() as u8;
        let padding = (if self.padding {
            0x01_u8
        } else {
            0x00_u8
        }) << 5;
        let extension = (if self.extension.is_some() {
            0x01_u8
        } else {
            0x00_u8
        }) << 4;
        out.push(version | csrc_count | padding | extension);
        let marker = (if self.marker {
            0x01_u8
        } else {
            0x00_u8
        }) << 7;
        out.push(self.payload_type | marker);
        write_u16(&mut out, self.sequence_number);
        write_u32(&mut out, self.timestamp);
        write_u32(&mut out, self.ssrc);
        write_u32s(&mut out, &self.csrc);
        if let Some(extension) = &self.extension {
            write_u16(&mut out, extension.profile_identifier);
            write_u16(&mut out, extension.data.len() as u16);
            write_u32s(&mut out, &extension.data);
        }
        assert(out@ =~= self@.wire());
        Ok(out)
    }

    /// Appends the header's wire form to `dst`. A header that does not fit the format leaves
    /// `dst` as it was.
    pub fn serialize(self, dst: &mut BytesMut) -> (r: Result<(), Error>)
        ensures
            match self@.serialized() {
                Ok(wire) => r is Ok && bytes_mut_contents(*final(dst)) == bytes_mut_contents(
                    *old(dst),
                ) + wire,
                Err(e) => {
                    &&& r matches Err(x) && x@ == e
                    &&& bytes_mut_contents(*final(dst)) == bytes_mut_contents(*old(dst))
                },
            },
    {
        match self.to_wire() {
            Ok(wire) => {
                dst.extend_from_slice(wire.as_slice());
                Ok(())
            },
            Err(e) => Err(e),
        }
    }
}

impl Packet {
    /// A packet of `header` and `payload`, with the header's padding flag switched off.
    pub fn new(header: Header, payload: Bytes) -> (packet: Packet)
        ensures
            packet@ == (PacketView {
                header: HeaderView { padding: false, ..header@ },
                payload: bytes_contents(payload),
            }),
    {
        let mut header = header;
        header.padding = false;
        Packet { header, payload }
    }

    /// The same packet, to be padded to a multiple of `padding_divisor` bytes.
    #[inline]
    pub fn with_padding(self, padding_divisor: u8) -> (padded: PacketPadded)
        ensures
            padded@ == (PacketPaddedView {
                packet: PacketView {
                    header: HeaderView { padding: true, ..self@.header },
                    payload: self@.payload,
                },
                padding_divisor,
            }),
    {
        let mut packet = self;
        packet.header.padding = true;
        PacketPadded { packet, padding_divisor }
    }

    /// Reads one datagram from `src`: header, payload, and the padding that the header
    /// announces. The header and the payload leave `src`; the padding bytes stay. When `src`
    /// holds no well-formed datagram, `src` is left as it was.
    pub fn parse(src: &mut Bytes) -> (r: Result<Packet, Error>)
        ensures
            match parse_packet(bytes_contents(*old(src))) {
                Ok((packet, rest)) => {
                    &&& r matches Ok(p) && p@ == packet
                    &&& bytes_contents(*final(src)) == rest
                },
                Err(e) => {
                    &&& r matches Err(x) && x@ == e
                    &&& bytes_contents(*final(src)) == bytes_contents(*old(src))
                },
            },
    {
        let mut work = src.clone();
        let header = match Header::parse(&mut work) {
            Ok(header) => header,
            Err(e) => {
                return Err(e);
            },
        };
        let remaining = work.len();
        let padding_len = if header.padding {
            if remaining == 0 {
                return Err(Error::NotEnoughData { have: 0, need: 1 });
            }
            bytes_as_slice(&work)[remaining - 1] as usize
        } else {
            0
        };
        if remaining < padding_len {
            return Err(Error::NotEnoughData { have: remaining, need: padding_len });
        }
        let payload_len = remaining - padding_len;
        let payload = work.split_to(payload_len);
        *src = work;
        Ok(Packet::new(header, payload))
    }

    pub fn serialized_len(&self) -> (n: usize)
        requires
            self@.wire_len() <= usize::MAX,
        ensures
            n == self@.wire_len(),
    {
        self.header.serialized_len() + self.payload.len()
    }

    /// Appends the packet's wire form to `dst`: header, then payload. A header that does not
    /// fit the format leaves `dst` as it was.
    pub fn serialize(self, dst: &mut BytesMut) -> (r: Result<(), Error>)
        requires
            !self@.header.padding,
        ensures
            match self@.serialized() {
                Ok(wire) => r is Ok && bytes_mut_contents(*final(dst)) == bytes_mut_contents(
                    *old(dst),
                ) + wire,
                Err(e) => {
                    &&& r matches Err(x) && x@ == e
                    &&& bytes_mut_contents(*final(dst)) == bytes_mut_contents(*old(dst))
                },
            },
    {
        let Packet { header, payload } = self;
        match header.serialize(dst) {
            Ok(()) => {
                dst.extend_from_slice(bytes_as_slice(&payload));
                proof {
                    let wire = self@.header.serialized()->Ok_0;
                    assert(bytes_mut_contents(*dst) =~= bytes_mut_contents(*old(dst)) + (wire
                        + self@.payload));
                }
                Ok(())
            },
            Err(e) => Err(e),
        }
    }
}

impl PacketPadded {
    pub fn serialized_len(&self) -> (n: usize)
        requires
            self@.padding_divisor > 0,
            self@.packet.wire_len() + 255 <= usize::MAX,
        ensures
            n == self@.wire_len(),
    {
        let packet_len = self.packet.serialized_len();
        packet_len + ((self.padding_divisor as usize) - (packet_len % (
        self.padding_divisor as usize)))
    }

    /// Appends the packet's wire form to `dst`: header, payload, then padding up to a
    /// multiple of the divisor. A zero divisor, or a header that does not fit the format,
    /// leaves `dst` as it was.
    pub fn serialize(self, dst: &mut BytesMut) -> (r: Result<(), Error>)
        requires
            self@.packet.header.padding,
        ensures
            match self@.serialized() {
                Ok(wire) => r is Ok && bytes_mut_contents(*final(dst)) == bytes_mut_contents(
                    *old(dst),
                ) + wire,
                Err(e) => {
                    &&& r matches Err(x) && x@ == e
                    &&& bytes_mut_contents(*final(dst)) == bytes_mut_contents(*old(dst))
                },
            },
    {
        let PacketPadded { packet, padding_divisor } = self;
        let Packet { header, payload } = packet;
        let mut out = match header.to_wire() {
            Ok(out) => out,
            Err(e) => {
                return Err(e);
            },
        };
        out.extend_from_slice(bytes_as_slice(&payload));
        assert(out@ =~= self@.packet.serialized()->Ok_0);
        if padding_divisor == 0 {
            return Err(Error::PaddingLengthInvalid { padding_divisor, len: out.len() });
        }
        let count: usize = (padding_divisor as usize) - (out.len() % (padding_divisor as usize));
        let ghost packet_wire = out@;
        let mut i: usize = 1;
        while i < count
            invariant
                1 <= i <= count <= 255,
                out@ == packet_wire + Seq::new((i - 1) as nat, |k: int| 0u8),
            decreases count - i,
        {
            out.push(0x00_u8);
            i += 1;
            assert(out@ =~= packet_wire + Seq::new((i - 1) as nat, |k: int| 0u8));
        }
        out.push(count as u8);
        assert(out@ =~= packet_wire + padding(count as nat));
        dst.extend_from_slice(out.as_slice());
        Ok(())
    }
}

pub proof fn lemma_u16_bytes(x: u16)
    ensures
        (((((x >> 8) as u8) as u16) << 8) | (((x & 0xff) as u8) as u16)) == x,
{
    assert((((((x >> 8) as u8) as u16) << 8) | (((x & 0xff) as u8) as u16)) == x) by (bit_vector);
}

pub proof fn lemma_u32_bytes(x: u32)
    ensures
        (((((x >> 24) as u8) as u32) << 24) | (((((x >> 16) & 0xff) as u8) as u32) << 16) | (((((x
            >> 8) & 0xff) as u8) as u32) << 8) | (((x & 0xff) as u8) as u32)) == x,
{
    assert((((((x >> 24) as u8) as u32) << 24) | (((((x >> 16) & 0xff) as u8) as u32) << 16) | (((((
    x >> 8) & 0xff) as u8) as u32) << 8) | (((x & 0xff) as u8) as u32)) == x) by (bit_vector);
}

/// The four bytes that stand for the word at `i` sit at `4 * i` in the run of all words.
pub proof fn lemma_be32_all_index(words: Seq<u32>, i: int)
    requires
        0 <= i < words.len(),
    ensures
        be32_all(words).len() == 4 * words.len(),
        be32_all(words).subrange(4 * i, 4 * i + 4) == be32(words[i]),
    decreases words.len(),
{
    lemma_be32_all_len(words);
    lemma_be32_all_len(words.drop_last());
    if i == words.len() - 1 {
        assert(be32_all(words).subrange(4 * i, 4 * i + 4) =~= be32(words[i]));
    } else {
        lemma_be32_all_index(words.drop_last(), i);
        assert(be32_all(words).subrange(4 * i, 4 * i + 4) =~= be32_all(
            words.drop_last(),
        ).subrange(4 * i, 4 * i + 4));
    }
}

/// Reading back the words written at `at` gives the words.
pub proof fn lemma_u32s_round_trip(s: Seq<u8>, at: int, words: Seq<u32>)
    requires
        0 <= at,
        at + 4 * words.len() <= s.len(),
        s.subrange(at, at + 4 * words.len()) == be32_all(words),
    ensures
        u32s_at(s, at, words.len()) == words,
{
    assert forall|i: int| 0 <= i < words.len() implies u32_at(s, at + 4 * i) == words[i] by {
        lemma_be32_all_index(words, i);
        let all = be32_all(words);
        let b = be32(words[i]);
        assert(all.subrange(4 * i, 4 * i + 4) == b);
        let part = s.subrange(at, at + 4 * words.len());
        let quad = all.subrange(4 * i, 4 * i + 4);
        assert(part[4 * i] == s[at + 4 * i] && quad[0] == all[4 * i]);
        assert(part[4 * i + 1] == s[at + 4 * i + 1] && quad[1] == all[4 * i + 1]);
        assert(part[4 * i + 2] == s[at + 4 * i + 2] && quad[2] == all[4 * i + 2]);
        assert(part[4 * i + 3] == s[at + 4 * i + 3] && quad[3] == all[4 * i + 3]);
        assert(s[at + 4 * i] == b[0]);
        assert(s[at + 4 * i + 1] == b[1]);
        assert(s[at + 4 * i + 2] == b[2]);
        assert(s[at + 4 * i + 3] == b[3]);
        lemma_u32_bytes(words[i]);
    }
    assert(u32s_at(s, at, words.len()) =~= words);
}

proof fn lemma_first_byte_bits(v: u8, c: u8, p: u8, x: u8)
    requires
        v == 1 || v == 2,
        c <= 15,
        p <= 1,
        x <= 1,
    ensures
        ({
            let b = (v << 6) | c | (p << 5) | (x << 4);
            &&& ((b >> 6) & 0x03) == v
            &&& (b & 0x0f) == c
            &&& ((b >> 5) & 0x01) == p
            &&& ((b >> 4) & 0x01) == x
        }),
{
    let b = (v << 6) | c | (p << 5) | (x << 4);
    assert(((b >> 6) & 0x03) == v && (b & 0x0f) == c && ((b >> 5) & 0x01) == p && ((b >> 4) & 0x01)
        == x) by (bit_vector)
        requires
            b == (v << 6) | c | (p << 5) | (x << 4),
            v == 1 || v == 2,
            c <= 15,
            p <= 1,
            x <= 1,
    ;
}

proof fn lemma_second_byte_bits(t: u8, m: u8)
    requires
        t <= 127,
        m <= 1,
    ensures
        ({
            let b = t | (m << 7);
            &&& ((b >> 7) & 0x01) == m
            &&& (b & 0x7f) == t
        }),
{
    let b = t | (m << 7);
    assert(((b >> 7) & 0x01) == m && (b & 0x7f) == t) by (bit_vector)
        requires
            b == t | (m << 7),
            t <= 127,
            m <= 1,
    ;
}

/// Round trip of the header: a valid header, written to the wire and read back from the
/// front of any byte sequence that begins with what was written, is the same header, and
/// reading takes exactly the bytes that were written.
pub proof fn law_header_round_trip(header: HeaderView, rest: Seq<u8>)
    requires
        header.valid(),
    ensures
        header.serialized() == Ok::<Seq<u8>, ErrorView>(header.wire()),
        header.wire().len() == header.wire_len(),
        parse_header(header.wire() + rest) == Ok::<(HeaderView, nat), ErrorView>(
            (header, header.wire_len()),
        ),
{
    let s = header.wire() + rest;
    let count = header.csrc.len();
    lemma_be32_all_len(header.csrc);
    let fixed = 12 + 4 * count;
    let head = seq![header.first_byte(), header.second_byte()] + be16(header.sequence_number)
        + be32(header.timestamp) + be32(header.ssrc) + be32_all(header.csrc);
    assert(head.len() == fixed);
    let tail = match header.extension {
        Some(extension) => extension.wire(),
        None => Seq::<u8>::empty(),
    };
    assert(header.wire() == head + tail);
    if header.extension is Some {
        lemma_be32_all_len(header.extension->Some_0.data);
    }
    assert(s.len() >= fixed);
    lemma_first_byte_bits(
        header.version.number(),
        count as u8,
        flag(header.padding),
        flag(header.extension is Some),
    );
    lemma_second_byte_bits(header.payload_type, flag(header.marker));
    assert(s[0] == header.first_byte());
    assert(s[1] == header.second_byte());
    lemma_u16_bytes(header.sequence_number);
    assert(s[2] == be16(header.sequence_number)[0]);
    assert(s[3] == be16(header.sequence_number)[1]);
    lemma_u32_bytes(header.timestamp);
    assert(s[4] == be32(header.timestamp)[0]);
    assert(s[5] == be32(header.timestamp)[1]);
    assert(s[6] == be32(header.timestamp)[2]);
    assert(s[7] == be32(header.timestamp)[3]);
    lemma_u32_bytes(header.ssrc);
    assert(s[8] == be32(header.ssrc)[0]);
    assert(s[9] == be32(header.ssrc)[1]);
    assert(s[10] == be32(header.ssrc)[2]);
    assert(s[11] == be32(header.ssrc)[3]);
    assert(s.subrange(12, 12 + 4 * (count as int)) =~= be32_all(header.csrc));
    lemma_u32s_round_trip(s, 12, header.csrc);
    assert(Version::of_number(header.version.number() as usize) == Ok::<Version, ErrorView>(
        header.version,
    ));
    match header.extension {
        None => {
            assert(header.wire() =~= head);
            let parsed = parse_header(s)->Ok_0.0;
            assert(parsed.csrc == header.csrc);
            assert(parsed == header);
        },
        Some(extension) => {
            let words = extension.data.len();
            let f = fixed as int;
            assert(tail.len() == 4 + 4 * words);
            assert(s[f] == be16(extension.profile_identifier)[0]);
            assert(s[f + 1] == be16(extension.profile_identifier)[1]);
            lemma_u16_bytes(extension.profile_identifier);
            assert(s[f + 2] == be16(words as u16)[0]);
            assert(s[f + 3] == be16(words as u16)[1]);
            lemma_u16_bytes(words as u16);
            assert(u16_at(s, f + 2) == words as u16);
            assert(s.subrange(f + 4, f + 4 + 4 * words) =~= be32_all(extension.data));
            lemma_u32s_round_trip(s, f + 4, extension.data);
            let parsed = parse_header(s)->Ok_0.0;
            assert(parsed.extension == Some(extension));
            assert(parsed == header);
        },
    }
}

} // verus!
