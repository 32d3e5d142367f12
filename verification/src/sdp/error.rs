//! Errors of the SDP layer.

use crate::text::{lit, push_all};
use vstd::prelude::*;

verus! {

#[derive(Debug)]
pub enum Error {
    AddressTypeUnknown { address_type: Vec<u8> },
    BandwidthLineMalformed { line: Vec<u8> },
    BandwidthTypeUnknown { bandwidth_type: Vec<u8> },
    BandwidthValueInvalid { bandwidth: Vec<u8> },
    ConnectionAddressTtlInvalid { ttl: Vec<u8> },
    ConnectionAddressMulticastInvalid { multicast: Vec<u8> },
    ConnectionLineInvalid { line: Vec<u8> },
    ConnectionMissing,
    DirectionUnknown { direction: Vec<u8> },
    KindUnknown { kind: Vec<u8> },
    LinePrefixInvalid { line: Vec<u8> },
    MediaFormatInvalid { line: Vec<u8> },
    MediaLineInvalid { line: Vec<u8> },
    MediaPortInvalid { line: Vec<u8> },
    NetworkTypeUnknown { network_type: Vec<u8> },
    OriginLineInvalid { line: Vec<u8> },
    OriginMissing,
    OriginUnicastAddressInvalid { unicast_address: Vec<u8> },
    ProtocolUnknown { protocol: Vec<u8> },
    RepeatTimesLineMalformed { line: Vec<u8> },
    SessionNameMissing,
    TimeDescriptionInvalid { time: Vec<u8> },
    TimeInvalid { time: Vec<u8> },
    TimeMalformed { time: Vec<u8> },
    TimeZoneAdjustmentsLineMalformed { line: Vec<u8> },
    TimezoneAdjustmentsWithoutRepeatTimes,
    TimeZoneAdjustmentTimeInvalid { time: Vec<u8> },
    TimeActiveMissing,
    TooManyMediaItems,
    VersionMissing,
    VersionUnknown { version: Vec<u8> },
}

/// What an [`Error`] says, with the text it carries taken as byte sequences.
pub enum ErrorView {
    AddressTypeUnknown { address_type: Seq<u8> },
    BandwidthLineMalformed { line: Seq<u8> },
    BandwidthTypeUnknown { bandwidth_type: Seq<u8> },
    BandwidthValueInvalid { bandwidth: Seq<u8> },
    ConnectionAddressTtlInvalid { ttl: Seq<u8> },
    ConnectionAddressMulticastInvalid { multicast: Seq<u8> },
    ConnectionLineInvalid { line: Seq<u8> },
    ConnectionMissing,
    DirectionUnknown { direction: Seq<u8> },
    KindUnknown { kind: Seq<u8> },
    LinePrefixInvalid { line: Seq<u8> },
    MediaFormatInvalid { line: Seq<u8> },
    MediaLineInvalid { line: Seq<u8> },
    MediaPortInvalid { line: Seq<u8> },
    NetworkTypeUnknown { network_type: Seq<u8> },
    OriginLineInvalid { line: Seq<u8> },
    OriginMissing,
    OriginUnicastAddressInvalid { unicast_address: Seq<u8> },
    ProtocolUnknown { protocol: Seq<u8> },
    RepeatTimesLineMalformed { line: Seq<u8> },
    SessionNameMissing,
    TimeDescriptionInvalid { time: Seq<u8> },
    TimeInvalid { time: Seq<u8> },
    TimeMalformed { time: Seq<u8> },
    TimeZoneAdjustmentsLineMalformed { line: Seq<u8> },
    TimezoneAdjustmentsWithoutRepeatTimes,
    TimeZoneAdjustmentTimeInvalid { time: Seq<u8> },
    TimeActiveMissing,
    TooManyMediaItems,
    VersionMissing,
    VersionUnknown { version: Seq<u8> },
}

impl View for Error {
    type V = ErrorView;

    open spec fn view(&self) -> ErrorView {
        match *self {
            Error::AddressTypeUnknown { address_type } => ErrorView::AddressTypeUnknown { address_type: address_type@ },
            Error::BandwidthLineMalformed { line } => ErrorView::BandwidthLineMalformed { line: line@ },
            Error::BandwidthTypeUnknown { bandwidth_type } => ErrorView::BandwidthTypeUnknown { bandwidth_type: bandwidth_type@ },
            Error::BandwidthValueInvalid { bandwidth } => ErrorView::BandwidthValueInvalid { bandwidth: bandwidth@ },
            Error::ConnectionAddressTtlInvalid { ttl } => ErrorView::ConnectionAddressTtlInvalid { ttl: ttl@ },
            Error::ConnectionAddressMulticastInvalid { multicast } => ErrorView::ConnectionAddressMulticastInvalid { multicast: multicast@ },
            Error::ConnectionLineInvalid { line } => ErrorView::ConnectionLineInvalid { line: line@ },
            Error::ConnectionMissing => ErrorView::ConnectionMissing,
            Error::DirectionUnknown { direction } => ErrorView::DirectionUnknown { direction: direction@ },
            Error::KindUnknown { kind } => ErrorView::KindUnknown { kind: kind@ },
            Error::LinePrefixInvalid { line } => ErrorView::LinePrefixInvalid { line: line@ },
            Error::MediaFormatInvalid { line } => ErrorView::MediaFormatInvalid { line: line@ },
            Error::MediaLineInvalid { line } => ErrorView::MediaLineInvalid { line: line@ },
            Error::MediaPortInvalid { line } => ErrorView::MediaPortInvalid { line: line@ },
            Error::NetworkTypeUnknown { network_type } => ErrorView::NetworkTypeUnknown { network_type: network_type@ },
            Error::OriginLineInvalid { line } => ErrorView::OriginLineInvalid { line: line@ },
            Error::OriginMissing => ErrorView::OriginMissing,
            Error::OriginUnicastAddressInvalid { unicast_address } => ErrorView::OriginUnicastAddressInvalid { unicast_address: unicast_address@ },
            Error::ProtocolUnknown { protocol } => ErrorView::ProtocolUnknown { protocol: protocol@ },
            Error::RepeatTimesLineMalformed { line } => ErrorView::RepeatTimesLineMalformed { line: line@ },
            Error::SessionNameMissing => ErrorView::SessionNameMissing,
            Error::TimeDescriptionInvalid { time } => ErrorView::TimeDescriptionInvalid { time: time@ },
            Error::TimeInvalid { time } => ErrorView::TimeInvalid { time: time@ },
            Error::TimeMalformed { time } => ErrorView::TimeMalformed { time: time@ },
            Error::TimeZoneAdjustmentsLineMalformed { line } => ErrorView::TimeZoneAdjustmentsLineMalformed { line: line@ },
            Error::TimezoneAdjustmentsWithoutRepeatTimes => ErrorView::TimezoneAdjustmentsWithoutRepeatTimes,
            Error::TimeZoneAdjustmentTimeInvalid { time } => ErrorView::TimeZoneAdjustmentTimeInvalid { time: time@ },
            Error::TimeActiveMissing => ErrorView::TimeActiveMissing,
            Error::TooManyMediaItems => ErrorView::TooManyMediaItems,
            Error::VersionMissing => ErrorView::VersionMissing,
            Error::VersionUnknown { version } => ErrorView::VersionUnknown { version: version@ },
        }
    }
}

impl ErrorView {
    /// What the error says, in words.
    pub open spec fn message(self) -> Seq<u8> {
        match self {
            ErrorView::AddressTypeUnknown { address_type } => lit("address type unknown: ") + address_type,
            ErrorView::BandwidthLineMalformed { line } => lit("bandwidth line malformed (must be in format <bwtype>:<bandwidth>): ") + line,
            ErrorView::BandwidthTypeUnknown { bandwidth_type } => lit("bandwidth type unknown: ") + bandwidth_type,
            ErrorView::BandwidthValueInvalid { bandwidth } => lit("bandwidth value not a valid integer: ") + bandwidth,
            ErrorView::ConnectionAddressTtlInvalid { ttl } => lit("connection address ttl invalid: ") + ttl,
            ErrorView::ConnectionAddressMulticastInvalid { multicast } => lit("connection address multicast number invalid: ") + multicast,
            ErrorView::ConnectionLineInvalid { line } => lit("connection line is invalid: ") + line,
            ErrorView::ConnectionMissing => lit("connection missing in global info or one or more media items"),
            ErrorView::DirectionUnknown { direction } => lit("direction unknown: ") + direction,
            ErrorView::KindUnknown { kind } => lit("media kind unknown: ") + kind,
            ErrorView::LinePrefixInvalid { line } => lit("line does not start with a valid prefix: ") + line,
            ErrorView::MediaFormatInvalid { line } => lit("media item has format identifier that is invalid (not an integer): ") + line,
            ErrorView::MediaLineInvalid { line } => lit("media line is invalid: ") + line,
            ErrorView::MediaPortInvalid { line } => lit("media item has port that is invalid (not an integer): ") + line,
            ErrorView::NetworkTypeUnknown { network_type } => lit("network type unknown: ") + network_type,
            ErrorView::OriginLineInvalid { line } => lit("origin line is invalid: ") + line,
            ErrorView::OriginMissing => lit("origin missing"),
            ErrorView::OriginUnicastAddressInvalid { unicast_address } => lit("origin specifies invalid unicast address: ") + unicast_address,
            ErrorView::ProtocolUnknown { protocol } => lit("protocol unknown: ") + protocol,
            ErrorView::RepeatTimesLineMalformed { line } => lit("repeat times line malformed: ") + line,
            ErrorView::SessionNameMissing => lit("session name missing"),
            ErrorView::TimeDescriptionInvalid { time } => lit("time description not a valid integer: ") + time,
            ErrorView::TimeInvalid { time } => lit("time not a valid integer: ") + time,
            ErrorView::TimeMalformed { time } => lit("time field malformed: ") + time,
            ErrorView::TimeZoneAdjustmentsLineMalformed { line } => lit("timezone adjustment line malformed: ") + line,
            ErrorView::TimezoneAdjustmentsWithoutRepeatTimes => lit("encountered timezone adjustments without repeat times (z= must follow r=)"),
            ErrorView::TimeZoneAdjustmentTimeInvalid { time } => lit("timezone adjustment time not a valid integer: ") + time,
            ErrorView::TimeActiveMissing => lit("timing missing"),
            ErrorView::TooManyMediaItems => lit("too many media items (ran out of dynamic payload assignments)"),
            ErrorView::VersionMissing => lit("version missing"),
            ErrorView::VersionUnknown { version } => lit("version unknown: ") + version,
        }
    }
}

impl Error {
    /// What the error says, in words.
    pub fn message(&self) -> (r: Vec<u8>)
        ensures
            r@ == self@.message(),
    {
        let mut out: Vec<u8> = Vec::new();
        match self {
            Error::AddressTypeUnknown { address_type } => {
                push_all(&mut out, "address type unknown: ".as_bytes());
                push_all(&mut out, address_type.as_slice());
            },
            Error::BandwidthLineMalformed { line } => {
                push_all(&mut out, "bandwidth line malformed (must be in format <bwtype>:<bandwidth>): ".as_bytes());
                push_all(&mut out, line.as_slice());
            },
            Error::BandwidthTypeUnknown { bandwidth_type } => {
                push_all(&mut out, "bandwidth type unknown: ".as_bytes());
                push_all(&mut out, bandwidth_type.as_slice());
            },
            Error::BandwidthValueInvalid { bandwidth } => {
                push_all(&mut out, "bandwidth value not a valid integer: ".as_bytes());
                push_all(&mut out, bandwidth.as_slice());
            },
            Error::ConnectionAddressTtlInvalid { ttl } => {
                push_all(&mut out, "connection address ttl invalid: ".as_bytes());
                push_all(&mut out, ttl.as_slice());
            },
            Error::ConnectionAddressMulticastInvalid { multicast } => {
                push_all(&mut out, "connection address multicast number invalid: ".as_bytes());
                push_all(&mut out, multicast.as_slice());
            },
            Error::ConnectionLineInvalid { line } => {
                push_all(&mut out, "connection line is invalid: ".as_bytes());
                push_all(&mut out, line.as_slice());
            },
            Error::ConnectionMissing => {
                push_all(&mut out, "connection missing in global info or one or more media items".as_bytes());
            },
            Error::DirectionUnknown { direction } => {
                push_all(&mut out, "direction unknown: ".as_bytes());
                push_all(&mut out, direction.as_slice());
            },
            Error::KindUnknown { kind } => {
                push_all(&mut out, "media kind unknown: ".as_bytes());
                push_all(&mut out, kind.as_slice());
            },
            Error::LinePrefixInvalid { line } => {
                push_all(&mut out, "line does not start with a valid prefix: ".as_bytes());
                push_all(&mut out, line.as_slice());
            },
            Error::MediaFormatInvalid { line } => {
                push_all(&mut out, "media item has format identifier that is invalid (not an integer): ".as_bytes());
                push_all(&mut out, line.as_slice());
            },
            Error::MediaLineInvalid { line } => {
                push_all(&mut out, "media line is invalid: ".as_bytes());
                push_all(&mut out, line.as_slice());
            },
            Error::MediaPortInvalid { line } => {
                push_all(&mut out, "media item has port that is invalid (not an integer): ".as_bytes());
                push_all(&mut out, line.as_slice());
            },
            Error::NetworkTypeUnknown { network_type } => {
                push_all(&mut out, "network type unknown: ".as_bytes());
                push_all(&mut out, network_type.as_slice());
            },
            Error::OriginLineInvalid { line } => {
                push_all(&mut out, "origin line is invalid: ".as_bytes());
                push_all(&mut out, line.as_slice());
            },
            Error::OriginMissing => {
                push_all(&mut out, "origin missing".as_bytes());
            },
            Error::OriginUnicastAddressInvalid { unicast_address } => {
                push_all(&mut out, "origin specifies invalid unicast address: ".as_bytes());
                push_all(&mut out, unicast_address.as_slice());
            },
            Error::ProtocolUnknown { protocol } => {
                push_all(&mut out, "protocol unknown: ".as_bytes());
                push_all(&mut out, protocol.as_slice());
            },
            Error::RepeatTimesLineMalformed { line } => {
                push_all(&mut out, "repeat times line malformed: ".as_bytes());
                push_all(&mut out, line.as_slice());
            },
            Error::SessionNameMissing => {
                push_all(&mut out, "session name missing".as_bytes());
            },
            Error::TimeDescriptionInvalid { time } => {
                push_all(&mut out, "time description not a valid integer: ".as_bytes());
                push_all(&mut out, time.as_slice());
            },
            Error::TimeInvalid { time } => {
                push_all(&mut out, "time not a valid integer: ".as_bytes());
                push_all(&mut out, time.as_slice());
            },
            Error::TimeMalformed { time } => {
                push_all(&mut out, "time field malformed: ".as_bytes());
                push_all(&mut out, time.as_slice());
            },
            Error::TimeZoneAdjustmentsLineMalformed { line } => {
                push_all(&mut out, "timezone adjustment line malformed: ".as_bytes());
                push_all(&mut out, line.as_slice());
            },
            Error::TimezoneAdjustmentsWithoutRepeatTimes => {
                push_all(&mut out, "encountered timezone adjustments without repeat times (z= must follow r=)".as_bytes());
            },
            Error::TimeZoneAdjustmentTimeInvalid { time } => {
                push_all(&mut out, "timezone adjustment time not a valid integer: ".as_bytes());
                push_all(&mut out, time.as_slice());
            },
            Error::TimeActiveMissing => {
                push_all(&mut out, "timing missing".as_bytes());
            },
            Error::TooManyMediaItems => {
                push_all(&mut out, "too many media items (ran out of dynamic payload assignments)".as_bytes());
            },
            Error::VersionMissing => {
                push_all(&mut out, "version missing".as_bytes());
            },
            Error::VersionUnknown { version } => {
                push_all(&mut out, "version unknown: ".as_bytes());
                push_all(&mut out, version.as_slice());
            },
        }
        assert(out@ =~= self@.message());
        out
    }
}

} // verus!
