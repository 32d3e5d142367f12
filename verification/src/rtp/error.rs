//! Errors of the RTP layer.

use crate::rtp::packet::{Packet, PacketView};
use crate::text::{decimal, lit, push_all, push_decimal};
use vstd::prelude::*;
use vstd::string::StringSliceAdditionalSpecFns;

verus! {

/// H.264 packetization mode, as RFC 6184 numbers them.
#[derive(Debug, Clone, Copy, PartialEq, Eq, Structural)]
pub enum H264PacketizationMode {
    /// Single NAL unit mode: one NAL unit per packet.
    SingleNalUnit,
    /// Non-interleaved mode: NAL units in decoding order, aggregated or fragmented.
    NonInterleavedMode,
    /// Interleaved mode: NAL units out of decoding order.
    InterleavedMode,
}

#[derive(Debug)]
#[allow(inconsistent_fields)]
pub enum Error {
    VersionUnknown { version: usize },
    CsrcCountInvalid { count: usize },
    ExtensionLengthInvalid { len: usize },
    PaddingLengthInvalid { padding_divisor: u8, len: usize },
    NotEnoughData { have: usize, need: usize },
    PacketSizeExceedsMtu { packet: Packet, mtu: usize },
    H264PacketizationModeUnknown { mode: usize },
    H264PacketizationModeUnsupported { mode: H264PacketizationMode },
    H264NalUnitDataLengthInvalid { len: usize },
    H264NalUnitLengthTooSmall { len: usize },
    H264DepacketizationNalUnitTypeUnknown { nal_unit_type: u8 },
    H264DepacketizationNalUnitTypeUnsupported { nal_unit_type_name: String },
    H264AggregationUnitHeaderInvalid { len: usize },
    H264AggregationUnitDataTooSmall { have: usize, need: usize },
    H264FragmentationUnitHeaderInvalid { len: usize },
    H264FragmentedStateAlreadyStarted,
    H264FragmentedStateNeverStarted,
}

/// What an [`Error`] says, with the packet and the name it may carry taken by their views.
#[allow(inconsistent_fields)]
pub enum ErrorView {
    VersionUnknown { version: usize },
    CsrcCountInvalid { count: usize },
    ExtensionLengthInvalid { len: usize },
    PaddingLengthInvalid { padding_divisor: u8, len: usize },
    NotEnoughData { have: usize, need: usize },
    PacketSizeExceedsMtu { packet: PacketView, mtu: usize },
    H264PacketizationModeUnknown { mode: usize },
    H264PacketizationModeUnsupported { mode: H264PacketizationMode },
    H264NalUnitDataLengthInvalid { len: usize },
    H264NalUnitLengthTooSmall { len: usize },
    H264DepacketizationNalUnitTypeUnknown { nal_unit_type: u8 },
    H264DepacketizationNalUnitTypeUnsupported { nal_unit_type_name: Seq<char> },
    H264AggregationUnitHeaderInvalid { len: usize },
    H264AggregationUnitDataTooSmall { have: usize, need: usize },
    H264FragmentationUnitHeaderInvalid { len: usize },
    H264FragmentedStateAlreadyStarted,
    H264FragmentedStateNeverStarted,
}

impl View for Error {
    type V = ErrorView;

    open spec fn view(&self) -> ErrorView {
        match *self {
            Error::VersionUnknown { version } => ErrorView::VersionUnknown { version },
            Error::CsrcCountInvalid { count } => ErrorView::CsrcCountInvalid { count },
            Error::ExtensionLengthInvalid { len } => ErrorView::ExtensionLengthInvalid { len },
            Error::PaddingLengthInvalid { padding_divisor, len } => ErrorView::PaddingLengthInvalid {
                padding_divisor,
                len,
            },
            Error::NotEnoughData { have, need } => ErrorView::NotEnoughData { have, need },
            Error::PacketSizeExceedsMtu { packet, mtu } => ErrorView::PacketSizeExceedsMtu {
                packet: packet@,
                mtu,
            },
            Error::H264PacketizationModeUnknown { mode } => ErrorView::H264PacketizationModeUnknown {
                mode,
            },
            Error::H264PacketizationModeUnsupported {
                mode,
            } => ErrorView::H264PacketizationModeUnsupported { mode },
            Error::H264NalUnitDataLengthInvalid { len } => ErrorView::H264NalUnitDataLengthInvalid {
                len,
            },
            Error::H264NalUnitLengthTooSmall { len } => ErrorView::H264NalUnitLengthTooSmall { len },
            Error::H264DepacketizationNalUnitTypeUnknown {
                nal_unit_type,
            } => ErrorView::H264DepacketizationNalUnitTypeUnknown { nal_unit_type },
            Error::H264DepacketizationNalUnitTypeUnsupported {
                nal_unit_type_name,
            } => ErrorView::H264DepacketizationNalUnitTypeUnsupported {
                nal_unit_type_name: nal_unit_type_name@,
            },
            Error::H264AggregationUnitHeaderInvalid {
                len,
            } => ErrorView::H264AggregationUnitHeaderInvalid { len },
            Error::H264AggregationUnitDataTooSmall {
                have,
                need,
            } => ErrorView::H264AggregationUnitDataTooSmall { have, need },
            Error::H264FragmentationUnitHeaderInvalid {
                len,
            } => ErrorView::H264FragmentationUnitHeaderInvalid { len },
            Error::H264FragmentedStateAlreadyStarted => ErrorView::H264FragmentedStateAlreadyStarted,
            Error::H264FragmentedStateNeverStarted => ErrorView::H264FragmentedStateNeverStarted,
        }
    }
}

impl H264PacketizationMode {
    /// The name of the mode.
    pub open spec fn text(self) -> Seq<u8> {
        match self {
            H264PacketizationMode::SingleNalUnit => lit("single nal unit"),
            H264PacketizationMode::NonInterleavedMode => lit("non-interleaved mode"),
            H264PacketizationMode::InterleavedMode => lit("interleaved mode"),
        }
    }

    /// The name of the mode.
    pub fn as_str(&self) -> (r: &'static str)
        ensures
            r.spec_bytes() == self.text(),
    {
        match self {
            H264PacketizationMode::SingleNalUnit => "single nal unit",
            H264PacketizationMode::NonInterleavedMode => "non-interleaved mode",
            H264PacketizationMode::InterleavedMode => "interleaved mode",
        }
    }
}

impl ErrorView {
    /// What the error says, in words.
    pub open spec fn message(self) -> Seq<u8> {
        match self {
            ErrorView::VersionUnknown { version } => lit("version number unknown: ") + decimal(version as nat),
            ErrorView::CsrcCountInvalid { count } => lit("csrc count invalid (overflow): ") + decimal(count as nat),
            ErrorView::ExtensionLengthInvalid { len } => lit("extension length invalid (overflow): ") + decimal(len as nat),
            ErrorView::PaddingLengthInvalid { padding_divisor, len } => lit("padding divisor produces invalid padding length (overflow): ") + decimal(padding_divisor as nat) + lit(" (to pad ") + decimal(len as nat) + lit(")"),
            ErrorView::NotEnoughData { have, need } => lit("buffer too small: ") + decimal(have as nat) + lit(" (need ") + decimal(need as nat) + lit(")"),
            ErrorView::PacketSizeExceedsMtu { packet, mtu } => lit("packet size exceeds mtu: payload of ") + decimal(packet.payload.len()) + lit(" bytes > ") + decimal(mtu as nat),
            ErrorView::H264PacketizationModeUnknown { mode } => lit("h264 packetization mode unknown: ") + decimal(mode as nat),
            ErrorView::H264PacketizationModeUnsupported { mode } => lit("h264 packetization mode not supported: ") + mode.text(),
            ErrorView::H264NalUnitDataLengthInvalid { len } => lit("nal unit data length invalid (overflow): ") + decimal(len as nat),
            ErrorView::H264NalUnitLengthTooSmall { len } => lit("nal unit data length too small (must be at least one byte): ") + decimal(len as nat),
            ErrorView::H264DepacketizationNalUnitTypeUnknown { nal_unit_type } => lit("encountered unknown nal unit type when depacketizing: ") + decimal(nal_unit_type as nat),
            ErrorView::H264DepacketizationNalUnitTypeUnsupported { nal_unit_type_name } => lit("unsupported nal unit type (packetization mode not supported): ") + vstd::utf8::encode_utf8(nal_unit_type_name),
            ErrorView::H264AggregationUnitHeaderInvalid { len } => lit("aggregation unit header too small (need 2 bytes for nal size): ") + decimal(len as nat),
            ErrorView::H264AggregationUnitDataTooSmall { have, need } => lit("aggregation unit payload too small: ") + decimal(have as nat) + lit(" (need ") + decimal(need as nat) + lit(")"),
            ErrorView::H264FragmentationUnitHeaderInvalid { len } => lit("fragmentation unit header too small (need 1 byte): ") + decimal(len as nat),
            ErrorView::H264FragmentedStateAlreadyStarted => lit("received fragmented unit with start bit set but never finished previous fragmented unit"),
            ErrorView::H264FragmentedStateNeverStarted => lit("received unexpected fragmented unit"),
        }
    }
}

impl Error {
    /// What the error says, in words.
    pub fn message(&self) -> (r: Vec<u8>)
        ensures
            r@ == self@.message(),
    {
        let mut out: Vec<u8> = Vec::new();
        match self {
            Error::VersionUnknown { version } => {
                push_all(&mut out, "version number unknown: ".as_bytes());
                push_decimal(&mut out, *version as u64);
            },
            Error::CsrcCountInvalid { count } => {
                push_all(&mut out, "csrc count invalid (overflow): ".as_bytes());
                push_decimal(&mut out, *count as u64);
            },
            Error::ExtensionLengthInvalid { len } => {
                push_all(&mut out, "extension length invalid (overflow): ".as_bytes());
                push_decimal(&mut out, *len as u64);
            },
            Error::PaddingLengthInvalid { padding_divisor, len } => {
                push_all(&mut out, "padding divisor produces invalid padding length (overflow): ".as_bytes());
                push_decimal(&mut out, *padding_divisor as u64);
                push_all(&mut out, " (to pad ".as_bytes());
                push_decimal(&mut out, *len as u64);
                push_all(&mut out, ")".as_bytes());
            },
            Error::NotEnoughData { have, need } => {
                push_all(&mut out, "buffer too small: ".as_bytes());
                push_decimal(&mut out, *have as u64);
                push_all(&mut out, " (need ".as_bytes());
                push_decimal(&mut out, *need as u64);
                push_all(&mut out, ")".as_bytes());
            },
            Error::PacketSizeExceedsMtu { packet, mtu } => {
                push_all(&mut out, "packet size exceeds mtu: payload of ".as_bytes());
                push_decimal(&mut out, packet.payload.len() as u64);
                push_all(&mut out, " bytes > ".as_bytes());
                push_decimal(&mut out, *mtu as u64);
            },
            Error::H264PacketizationModeUnknown { mode } => {
                push_all(&mut out, "h264 packetization mode unknown: ".as_bytes());
                push_decimal(&mut out, *mode as u64);
            },
            Error::H264PacketizationModeUnsupported { mode } => {
                push_all(&mut out, "h264 packetization mode not supported: ".as_bytes());
                push_all(&mut out, mode.as_str().as_bytes());
            },
            Error::H264NalUnitDataLengthInvalid { len } => {
                push_all(&mut out, "nal unit data length invalid (overflow): ".as_bytes());
                push_decimal(&mut out, *len as u64);
            },
            Error::H264NalUnitLengthTooSmall { len } => {
                push_all(&mut out, "nal unit data length too small (must be at least one byte): ".as_bytes());
                push_decimal(&mut out, *len as u64);
            },
            Error::H264DepacketizationNalUnitTypeUnknown { nal_unit_type } => {
                push_all(&mut out, "encountered unknown nal unit type when depacketizing: ".as_bytes());
                push_decimal(&mut out, *nal_unit_type as u64);
            },
            Error::H264DepacketizationNalUnitTypeUnsupported { nal_unit_type_name } => {
                push_all(&mut out, "unsupported nal unit type (packetization mode not supported): ".as_bytes());
                push_all(&mut out, nal_unit_type_name.as_str().as_bytes());
            },
            Error::H264AggregationUnitHeaderInvalid { len } => {
                push_all(&mut out, "aggregation unit header too small (need 2 bytes for nal size): ".as_bytes());
                push_decimal(&mut out, *len as u64);
            },
            Error::H264AggregationUnitDataTooSmall { have, need } => {
                push_all(&mut out, "aggregation unit payload too small: ".as_bytes());
                push_decimal(&mut out, *have as u64);
                push_all(&mut out, " (need ".as_bytes());
                push_decimal(&mut out, *need as u64);
                push_all(&mut out, ")".as_bytes());
            },
            Error::H264FragmentationUnitHeaderInvalid { len } => {
                push_all(&mut out, "fragmentation unit header too small (need 1 byte): ".as_bytes());
                push_decimal(&mut out, *len as u64);
            },
            Error::H264FragmentedStateAlreadyStarted => {
                push_all(&mut out, "received fragmented unit with start bit set but never finished previous fragmented unit".as_bytes());
            },
            Error::H264FragmentedStateNeverStarted => {
                push_all(&mut out, "received unexpected fragmented unit".as_bytes());
            },
        }
        assert(out@ =~= self@.message());
        out
    }
}

} // verus!
