//! The session description: its parts, their text, and the whole in both directions.

use crate::ip::{IpAddress, IpAddressView};
use crate::sdp::codec::{CodecInfo, MediaAttributes, FMT_RTP_PAYLOAD_DYNAMIC};
use crate::sdp::error::{Error, ErrorView};
use crate::sdp::time_range::{convert_time_to_unix_epoch, current_time, TimeRange};
use crate::text::{
    bytes_eq, copy_of, copy_of_option, decimal, digits_value, ends_with, has_suffix, lit,
    option_view, parse_number, parse_unsigned, push_all, push_decimal, split, split_at_each,
    split_once, split_once_at, text_of, trim, trim_bytes, views, COLON, DASH, LF, PLUS, SPACE,
};
use vstd::prelude::*;
use vstd::slice::slice_subrange;
use vstd::string::StringSliceAdditionalSpecFns;

verus! {

/// SDP version.
#[derive(Debug, Clone, Copy, PartialEq, Eq, Structural)]
pub enum Version {
    V0,
}

impl Default for Version {
    fn default() -> (r: Version)
        ensures
            r == Version::V0,
    {
        Version::V0
    }
}

impl Version {
    pub open spec fn text(self) -> Seq<u8> {
        match self {
            Version::V0 => lit("0"),
        }
    }

    pub open spec fn of_text(s: Seq<u8>) -> Result<Version, ErrorView> {
        if s == lit("0") {
            Ok(Version::V0)
        } else {
            Err(ErrorView::VersionUnknown { version: s })
        }
    }

    pub fn as_str(&self) -> (r: &'static str)
        ensures
            r.spec_bytes() == self.text(),
    {
        match self {
            Version::V0 => "0",
        }
    }

    pub fn to_bytes(&self) -> (r: Vec<u8>)
        ensures
            r@ == self.text(),
    {
        text_of(self.as_str())
    }

    pub fn from_bytes(s: &[u8]) -> (r: Result<Version, Error>)
        ensures
            match Version::of_text(s@) {
                Ok(value) => r matches Ok(v) && v == value,
                Err(e) => r matches Err(x) && x@ == e,
            },
    {
        if bytes_eq(s, "0".as_bytes()) {
            Ok(Version::V0)
        } else {
            Err(Error::VersionUnknown { version: copy_of(s) })
        }
    }
}

/// Direction in which media flows.
#[derive(Debug, Clone, Copy, PartialEq, Eq, Structural)]
pub enum Direction {
    ReceiveOnly,
    SendOnly,
    SendAndReceive,
}

impl Direction {
    pub open spec fn text(self) -> Seq<u8> {
        match self {
            Direction::ReceiveOnly => lit("recvonly"),
            Direction::SendOnly => lit("sendonly"),
            Direction::SendAndReceive => lit("sendrecv"),
        }
    }

    pub open spec fn of_text(s: Seq<u8>) -> Result<Direction, ErrorView> {
        if s == lit("recvonly") {
            Ok(Direction::ReceiveOnly)
        } else if s == lit("sendonly") {
            Ok(Direction::SendOnly)
        } else if s == lit("sendrecv") {
            Ok(Direction::SendAndReceive)
        } else {
            Err(ErrorView::DirectionUnknown { direction: s })
        }
    }

    pub fn as_str(&self) -> (r: &'static str)
        ensures
            r.spec_bytes() == self.text(),
    {
        match self {
            Direction::ReceiveOnly => "recvonly",
            Direction::SendOnly => "sendonly",
            Direction::SendAndReceive => "sendrecv",
        }
    }

    pub fn to_bytes(&self) -> (r: Vec<u8>)
        ensures
            r@ == self.text(),
    {
        text_of(self.as_str())
    }

    pub fn from_bytes(s: &[u8]) -> (r: Result<Direction, Error>)
        ensures
            match Direction::of_text(s@) {
                Ok(value) => r matches Ok(v) && v == value,
                Err(e) => r matches Err(x) && x@ == e,
            },
    {
        if bytes_eq(s, "recvonly".as_bytes()) {
            Ok(Direction::ReceiveOnly)
        } else if bytes_eq(s, "sendonly".as_bytes()) {
            Ok(Direction::SendOnly)
        } else if bytes_eq(s, "sendrecv".as_bytes()) {
            Ok(Direction::SendAndReceive)
        } else {
            Err(Error::DirectionUnknown { direction: copy_of(s) })
        }
    }
}

/// Kind of media.
#[derive(Debug, Clone, Copy, PartialEq, Eq, Structural)]
pub enum Kind {
    Video,
    Audio,
    Text,
    Application,
    Message,
}

impl Kind {
    pub open spec fn text(self) -> Seq<u8> {
        match self {
            Kind::Video => lit("video"),
            Kind::Audio => lit("audio"),
            Kind::Text => lit("text"),
            Kind::Application => lit("application"),
            Kind::Message => lit("message"),
        }
    }

    pub open spec fn of_text(s: Seq<u8>) -> Result<Kind, ErrorView> {
        if s == lit("video") {
            Ok(Kind::Video)
        } else if s == lit("audio") {
            Ok(Kind::Audio)
        } else if s == lit("text") {
            Ok(Kind::Text)
        } else if s == lit("application") {
            Ok(Kind::Application)
        } else if s == lit("message") {
            Ok(Kind::Message)
        } else {
            Err(ErrorView::KindUnknown { kind: s })
        }
    }

    pub fn as_str(&self) -> (r: &'static str)
        ensures
            r.spec_bytes() == self.text(),
    {
        match self {
            Kind::Video => "video",
            Kind::Audio => "audio",
            Kind::Text => "text",
            Kind::Application => "application",
            Kind::Message => "message",
        }
    }

    pub fn to_bytes(&self) -> (r: Vec<u8>)
        ensures
            r@ == self.text(),
    {
        text_of(self.as_str())
    }

    pub fn from_bytes(s: &[u8]) -> (r: Result<Kind, Error>)
        ensures
            match Kind::of_text(s@) {
                Ok(value) => r matches Ok(v) && v == value,
                Err(e) => r matches Err(x) && x@ == e,
            },
    {
        if bytes_eq(s, "video".as_bytes()) {
            Ok(Kind::Video)
        } else if bytes_eq(s, "audio".as_bytes()) {
            Ok(Kind::Audio)
        } else if bytes_eq(s, "text".as_bytes()) {
            Ok(Kind::Text)
        } else if bytes_eq(s, "application".as_bytes()) {
            Ok(Kind::Application)
        } else if bytes_eq(s, "message".as_bytes()) {
            Ok(Kind::Message)
        } else {
            Err(Error::KindUnknown { kind: copy_of(s) })
        }
    }
}

/// The transport protocol of a media item.
#[derive(Debug, Clone, Copy, PartialEq, Eq, Structural)]
pub enum Protocol {
    RtpAvp,
    RtpSAvp,
}

impl Default for Protocol {
    fn default() -> (r: Protocol)
        ensures
            r == Protocol::RtpAvp,
    {
        Protocol::RtpAvp
    }
}

impl Protocol {
    pub open spec fn text(self) -> Seq<u8> {
        match self {
            Protocol::RtpAvp => lit("RTP/AVP"),
            Protocol::RtpSAvp => lit("RTP/SAVP"),
        }
    }

    pub open spec fn of_text(s: Seq<u8>) -> Result<Protocol, ErrorView> {
        if s == lit("RTP/AVP") {
            Ok(Protocol::RtpAvp)
        } else if s == lit("RTP/SAVP") {
            Ok(Protocol::RtpSAvp)
        } else {
            Err(ErrorView::ProtocolUnknown { protocol: s })
        }
    }

    pub fn as_str(&self) -> (r: &'static str)
        ensures
            r.spec_bytes() == self.text(),
    {
        match self {
            Protocol::RtpAvp => "RTP/AVP",
            Protocol::RtpSAvp => "RTP/SAVP",
        }
    }

    pub fn to_bytes(&self) -> (r: Vec<u8>)
        ensures
            r@ == self.text(),
    {
        text_of(self.as_str())
    }

    pub fn from_bytes(s: &[u8]) -> (r: Result<Protocol, Error>)
        ensures
            match Protocol::of_text(s@) {
                Ok(value) => r matches Ok(v) && v == value,
                Err(e) => r matches Err(x) && x@ == e,
            },
    {
        if bytes_eq(s, "RTP/AVP".as_bytes()) {
            Ok(Protocol::RtpAvp)
        } else if bytes_eq(s, "RTP/SAVP".as_bytes()) {
            Ok(Protocol::RtpSAvp)
        } else {
            Err(Error::ProtocolUnknown { protocol: copy_of(s) })
        }
    }
}

/// The network type.
#[derive(Debug, Clone, Copy, PartialEq, Eq, Structural)]
pub enum NetworkType {
    Internet,
}

impl Default for NetworkType {
    fn default() -> (r: NetworkType)
        ensures
            r == NetworkType::Internet,
    {
        NetworkType::Internet
    }
}

impl NetworkType {
    pub open spec fn text(self) -> Seq<u8> {
        match self {
            NetworkType::Internet => lit("IN"),
        }
    }

    pub open spec fn of_text(s: Seq<u8>) -> Result<NetworkType, ErrorView> {
        if s == lit("IN") {
            Ok(NetworkType::Internet)
        } else {
            Err(ErrorView::NetworkTypeUnknown { network_type: s })
        }
    }

    pub fn as_str(&self) -> (r: &'static str)
        ensures
            r.spec_bytes() == self.text(),
    {
        match self {
            NetworkType::Internet => "IN",
        }
    }

    pub fn to_bytes(&self) -> (r: Vec<u8>)
        ensures
            r@ == self.text(),
    {
        text_of(self.as_str())
    }

    pub fn from_bytes(s: &[u8]) -> (r: Result<NetworkType, Error>)
        ensures
            match NetworkType::of_text(s@) {
                Ok(value) => r matches Ok(v) && v == value,
                Err(e) => r matches Err(x) && x@ == e,
            },
    {
        if bytes_eq(s, "IN".as_bytes()) {
            Ok(NetworkType::Internet)
        } else {
            Err(Error::NetworkTypeUnknown { network_type: copy_of(s) })
        }
    }
}

/// The address type.
#[derive(Debug, Clone, Copy, PartialEq, Eq, Structural)]
pub enum AddressType {
    IpV4,
    IpV6,
}

impl AddressType {
    pub open spec fn text(self) -> Seq<u8> {
        match self {
            AddressType::IpV4 => lit("IP4"),
            AddressType::IpV6 => lit("IP6"),
        }
    }

    pub open spec fn of_text(s: Seq<u8>) -> Result<AddressType, ErrorView> {
        if s == lit("IP4") {
            Ok(AddressType::IpV4)
        } else if s == lit("IP6") {
            Ok(AddressType::IpV6)
        } else {
            Err(ErrorView::AddressTypeUnknown { address_type: s })
        }
    }

    pub fn as_str(&self) -> (r: &'static str)
        ensures
            r.spec_bytes() == self.text(),
    {
        match self {
            AddressType::IpV4 => "IP4",
            AddressType::IpV6 => "IP6",
        }
    }

    pub fn to_bytes(&self) -> (r: Vec<u8>)
        ensures
            r@ == self.text(),
    {
        text_of(self.as_str())
    }

    pub fn from_bytes(s: &[u8]) -> (r: Result<AddressType, Error>)
        ensures
            match AddressType::of_text(s@) {
                Ok(value) => r matches Ok(v) && v == value,
                Err(e) => r matches Err(x) && x@ == e,
            },
    {
        if bytes_eq(s, "IP4".as_bytes()) {
            Ok(AddressType::IpV4)
        } else if bytes_eq(s, "IP6".as_bytes()) {
            Ok(AddressType::IpV6)
        } else {
            Err(Error::AddressTypeUnknown { address_type: copy_of(s) })
        }
    }
}

/// The fields of a line: its parts between single spaces.
pub open spec fn fields(s: Seq<u8>) -> Seq<Seq<u8>> {
    split(s, SPACE)
}

/// Reading of a time of seconds, minutes, hours or days: a number, and behind it `s`, `m`,
/// `h`, `d` or nothing. The time is in seconds.
pub open spec fn time_unit(ts: Seq<u8>) -> (Seq<u8>, nat) {
    if has_suffix(ts, lit("s")) {
        (ts.take(ts.len() - 1), 1)
    } else if has_suffix(ts, lit("m")) {
        (ts.take(ts.len() - 1), 60)
    } else if has_suffix(ts, lit("h")) {
        (ts.take(ts.len() - 1), 3600)
    } else if has_suffix(ts, lit("d")) {
        (ts.take(ts.len() - 1), 86400)
    } else {
        (ts, 1)
    }
}

/// Reading of an unsigned time with a unit.
pub open spec fn time_parsed(ts: Seq<u8>) -> Result<u64, ErrorView> {
    let (number, factor) = time_unit(ts);
    match parse_unsigned(number, u64::MAX as nat) {
        None => Err(ErrorView::TimeInvalid { time: number }),
        Some(value) => if value * factor <= u64::MAX {
            Ok((value * factor) as u64)
        } else {
            Err(ErrorView::TimeInvalid { time: ts })
        },
    }
}

/// Reading of a signed time with a unit.
pub open spec fn offset_parsed(ts: Seq<u8>) -> Result<i64, ErrorView> {
    let (number, factor) = time_unit(ts);
    match crate::text::parse_signed(number, i64::MIN as int, i64::MAX as int) {
        None => Err(ErrorView::TimeInvalid { time: number }),
        Some(value) => if i64::MIN <= value * factor <= i64::MAX {
            Ok((value * factor) as i64)
        } else {
            Err(ErrorView::TimeInvalid { time: ts })
        },
    }
}

fn split_time_unit<'a>(ts: &'a [u8]) -> (r: (&'a [u8], u32))
    ensures
        (r.0@, r.1 as nat) == time_unit(ts@),
        r.1 == 1 || r.1 == 60 || r.1 == 3600 || r.1 == 86400,
{
    proof {
        lemma_unit_lengths();
    }
    if ends_with(ts, "s".as_bytes()) {
        let number = slice_subrange(ts, 0, ts.len() - 1);
        assert(number@ =~= ts@.take(ts@.len() - 1));
        (number, 1)
    } else if ends_with(ts, "m".as_bytes()) {
        let number = slice_subrange(ts, 0, ts.len() - 1);
        assert(number@ =~= ts@.take(ts@.len() - 1));
        (number, 60)
    } else if ends_with(ts, "h".as_bytes()) {
        let number = slice_subrange(ts, 0, ts.len() - 1);
        assert(number@ =~= ts@.take(ts@.len() - 1));
        (number, 3600)
    } else if ends_with(ts, "d".as_bytes()) {
        let number = slice_subrange(ts, 0, ts.len() - 1);
        assert(number@ =~= ts@.take(ts@.len() - 1));
        (number, 86400)
    } else {
        (ts, 1)
    }
}

proof fn lemma_unit_lengths()
    ensures
        lit("s").len() == 1,
        lit("m").len() == 1,
        lit("h").len() == 1,
        lit("d").len() == 1,
{
    broadcast use vstd::string::is_ascii_spec_bytes;

    reveal_strlit("s");
    reveal_strlit("m");
    reveal_strlit("h");
    reveal_strlit("d");
    assert(vstd::string::is_ascii("s"));
    assert(vstd::string::is_ascii("m"));
    assert(vstd::string::is_ascii("h"));
    assert(vstd::string::is_ascii("d"));
}

/// Reads an unsigned time with a unit.
pub fn parse_time(ts: &[u8]) -> (r: Result<u64, Error>)
    ensures
        match time_parsed(ts@) {
            Ok(time) => r matches Ok(t) && t == time,
            Err(e) => r matches Err(x) && x@ == e,
        },
{
    proof {
        lemma_unit_lengths();
    }
    let (number, factor) = split_time_unit(ts);
    match parse_number(number, u64::MAX) {
        None => Err(Error::TimeInvalid { time: copy_of(number) }),
        Some(value) => match value.checked_mul(factor as u64) {
            Some(time) => Ok(time),
            None => Err(Error::TimeInvalid { time: copy_of(ts) }),
        },
    }
}

/// Reads a signed time with a unit.
pub fn parse_offset(ts: &[u8]) -> (r: Result<i64, Error>)
    ensures
        match offset_parsed(ts@) {
            Ok(time) => r matches Ok(t) && t == time,
            Err(e) => r matches Err(x) && x@ == e,
        },
{
    proof {
        lemma_unit_lengths();
    }
    let (number, factor) = split_time_unit(ts);
    match crate::text::parse_i64(number) {
        None => Err(Error::TimeInvalid { time: copy_of(number) }),
        Some(value) => match value.checked_mul(factor as i64) {
            Some(time) => Ok(time),
            None => Err(Error::TimeInvalid { time: copy_of(ts) }),
        },
    }
}

/// The originator of the session, and the session's identifier and version.
#[derive(Debug, Clone, PartialEq, Eq)]
pub struct Origin {
    pub username: Vec<u8>,
    pub session_id: Vec<u8>,
    pub session_version: Vec<u8>,
    pub network_type: NetworkType,
    pub address_type: AddressType,
    pub unicast_address: Vec<u8>,
}

pub struct OriginView {
    pub username: Seq<u8>,
    pub session_id: Seq<u8>,
    pub session_version: Seq<u8>,
    pub network_type: NetworkType,
    pub address_type: AddressType,
    pub unicast_address: Seq<u8>,
}

impl View for Origin {
    type V = OriginView;

    open spec fn view(&self) -> OriginView {
        OriginView {
            username: self.username@,
            session_id: self.session_id@,
            session_version: self.session_version@,
            network_type: self.network_type,
            address_type: self.address_type,
            unicast_address: self.unicast_address@,
        }
    }
}

impl OriginView {
    pub open spec fn text(self) -> Seq<u8> {
        self.username + seq![SPACE] + self.session_id + seq![SPACE] + self.session_version + seq![
            SPACE,
        ] + self.network_type.text() + seq![SPACE] + self.address_type.text() + seq![SPACE]
            + self.unicast_address
    }

    /// Reading of an origin: six fields, of which the fourth is a network type and the fifth
    /// an address type.
    pub open spec fn of_text(s: Seq<u8>) -> Result<OriginView, ErrorView> {
        let parts = fields(s);
        if parts.len() < 4 {
            Err(ErrorView::OriginLineInvalid { line: s })
        } else {
            match NetworkType::of_text(parts[3]) {
                Err(e) => Err(e),
                Ok(network_type) => if parts.len() < 5 {
                    Err(ErrorView::OriginLineInvalid { line: s })
                } else {
                    match AddressType::of_text(parts[4]) {
                        Err(e) => Err(e),
                        Ok(address_type) => if parts.len() < 6 {
                            Err(ErrorView::OriginLineInvalid { line: s })
                        } else {
                            Ok(
                                OriginView {
                                    username: parts[0],
                                    session_id: parts[1],
                                    session_version: parts[2],
                                    network_type,
                                    address_type,
                                    unicast_address: parts[5],
                                },
                            )
                        },
                    }
                },
            }
        }
    }
}

impl Origin {
    pub fn to_bytes(&self) -> (r: Vec<u8>)
        ensures
            r@ == self@.text(),
    {
        let mut out = copy_of(self.username.as_slice());
        out.push(SPACE);
        push_all(&mut out, self.session_id.as_slice());
        out.push(SPACE);
        push_all(&mut out, self.session_version.as_slice());
        out.push(SPACE);
        push_all(&mut out, self.network_type.as_str().as_bytes());
        out.push(SPACE);
        push_all(&mut out, self.address_type.as_str().as_bytes());
        out.push(SPACE);
        push_all(&mut out, self.unicast_address.as_slice());
        assert(out@ =~= self@.text());
        out
    }

    pub fn from_bytes(s: &[u8]) -> (r: Result<Origin, Error>)
        ensures
            match OriginView::of_text(s@) {
                Ok(origin) => r matches Ok(o) && o@ == origin,
                Err(e) => r matches Err(x) && x@ == e,
            },
    {
        let parts = split_at_each(s, SPACE);
        if parts.len() < 4 {
            return Err(Error::OriginLineInvalid { line: copy_of(s) });
        }
        assert(views(parts@)[0] == parts@[0]@);
        assert(views(parts@)[1] == parts@[1]@);
        assert(views(parts@)[2] == parts@[2]@);
        assert(views(parts@)[3] == parts@[3]@);
        let network_type = match NetworkType::from_bytes(parts[3].as_slice()) {
            Ok(network_type) => network_type,
            Err(e) => {
                return Err(e);
            },
        };
        if parts.len() < 5 {
            return Err(Error::OriginLineInvalid { line: copy_of(s) });
        }
        assert(views(parts@)[4] == parts@[4]@);
        let address_type = match AddressType::from_bytes(parts[4].as_slice()) {
            Ok(address_type) => address_type,
            Err(e) => {
                return Err(e);
            },
        };
        if parts.len() < 6 {
            return Err(Error::OriginLineInvalid { line: copy_of(s) });
        }
        assert(views(parts@)[5] == parts@[5]@);
        Ok(
            Origin {
                username: copy_of(parts[0].as_slice()),
                session_id: copy_of(parts[1].as_slice()),
                session_version: copy_of(parts[2].as_slice()),
                network_type,
                address_type,
                unicast_address: copy_of(parts[5].as_slice()),
            },
        )
    }

    /// A copy of the origin.
    pub fn duplicate(&self) -> (r: Origin)
        ensures
            r@ == self@,
    {
        Origin {
            username: copy_of(self.username.as_slice()),
            session_id: copy_of(self.session_id.as_slice()),
            session_version: copy_of(self.session_version.as_slice()),
            network_type: self.network_type,
            address_type: self.address_type,
            unicast_address: copy_of(self.unicast_address.as_slice()),
        }
    }
}

/// What it takes to connect for the media.
#[derive(Debug, Clone, PartialEq, Eq)]
pub struct Connection {
    pub network_type: NetworkType,
    pub address_type: AddressType,
    pub address: Vec<u8>,
}

pub struct ConnectionView {
    pub network_type: NetworkType,
    pub address_type: AddressType,
    pub address: Seq<u8>,
}

impl View for Connection {
    type V = ConnectionView;

    open spec fn view(&self) -> ConnectionView {
        ConnectionView {
            network_type: self.network_type,
            address_type: self.address_type,
            address: self.address@,
        }
    }
}

impl ConnectionView {
    pub open spec fn text(self) -> Seq<u8> {
        self.network_type.text() + seq![SPACE] + self.address_type.text() + seq![SPACE]
            + self.address
    }

    /// Reading of a connection: a network type, an address type and an address.
    pub open spec fn of_text(s: Seq<u8>) -> Result<ConnectionView, ErrorView> {
        let parts = fields(s);
        match NetworkType::of_text(parts[0]) {
            Err(e) => Err(e),
            Ok(network_type) => if parts.len() < 2 {
                Err(ErrorView::ConnectionLineInvalid { line: s })
            } else {
                match AddressType::of_text(parts[1]) {
                    Err(e) => Err(e),
                    Ok(address_type) => if parts.len() < 3 {
                        Err(ErrorView::ConnectionLineInvalid { line: s })
                    } else {
                        Ok(ConnectionView { network_type, address_type, address: parts[2] })
                    },
                }
            },
        }
    }
}

/// The view of an optional connection.
pub open spec fn connection_view(connection: Option<Connection>) -> Option<ConnectionView> {
    match connection {
        Some(connection) => Some(connection@),
        None => None,
    }
}

impl Connection {
    pub fn to_bytes(&self) -> (r: Vec<u8>)
        ensures
            r@ == self@.text(),
    {
        let mut out = self.network_type.to_bytes();
        out.push(SPACE);
        push_all(&mut out, self.address_type.as_str().as_bytes());
        out.push(SPACE);
        push_all(&mut out, self.address.as_slice());
        assert(out@ =~= self@.text());
        out
    }

    pub fn from_bytes(s: &[u8]) -> (r: Result<Connection, Error>)
        ensures
            match ConnectionView::of_text(s@) {
                Ok(connection) => r matches Ok(c) && c@ == connection,
                Err(e) => r matches Err(x) && x@ == e,
            },
    {
        let parts = split_at_each(s, SPACE);
        assert(views(parts@)[0] == parts@[0]@);
        let network_type = match NetworkType::from_bytes(parts[0].as_slice()) {
            Ok(network_type) => network_type,
            Err(e) => {
                return Err(e);
            },
        };
        if parts.len() < 2 {
            return Err(Error::ConnectionLineInvalid { line: copy_of(s) });
        }
        assert(views(parts@)[1] == parts@[1]@);
        let address_type = match AddressType::from_bytes(parts[1].as_slice()) {
            Ok(address_type) => address_type,
            Err(e) => {
                return Err(e);
            },
        };
        if parts.len() < 3 {
            return Err(Error::ConnectionLineInvalid { line: copy_of(s) });
        }
        assert(views(parts@)[2] == parts@[2]@);
        Ok(Connection { network_type, address_type, address: copy_of(parts[2].as_slice()) })
    }

    /// A copy of the connection.
    pub fn duplicate(&self) -> (r: Connection)
        ensures
            r@ == self@,
    {
        Connection {
            network_type: self.network_type,
            address_type: self.address_type,
            address: copy_of(self.address.as_slice()),
        }
    }
}

/// The bandwidth that the session or a media item is meant to use, in kilobits per second.
#[derive(Debug, Clone, Copy, PartialEq, Eq, Structural)]
pub enum Bandwidth {
    ConferenceTotal(usize),
    ApplicationSpecific(usize),
}

impl Bandwidth {
    pub open spec fn text(self) -> Seq<u8> {
        match self {
            Bandwidth::ConferenceTotal(rate) => lit("CT:") + decimal(rate as nat),
            Bandwidth::ApplicationSpecific(rate) => lit("AS:") + decimal(rate as nat),
        }
    }

    /// Reading of a bandwidth: `CT` or `AS`, a colon, and a number.
    pub open spec fn of_text(s: Seq<u8>) -> Result<Bandwidth, ErrorView> {
        match split_once(s, COLON) {
            None => Err(ErrorView::BandwidthLineMalformed { line: s }),
            Some((bandwidth_type, bandwidth)) => if bandwidth_type == lit("CT") {
                match parse_unsigned(bandwidth, usize::MAX as nat) {
                    Some(rate) => Ok(Bandwidth::ConferenceTotal(rate as usize)),
                    None => Err(ErrorView::BandwidthValueInvalid { bandwidth }),
                }
            } else if bandwidth_type == lit("AS") {
                match parse_unsigned(bandwidth, usize::MAX as nat) {
                    Some(rate) => Ok(Bandwidth::ApplicationSpecific(rate as usize)),
                    None => Err(ErrorView::BandwidthValueInvalid { bandwidth }),
                }
            } else {
                Err(ErrorView::BandwidthTypeUnknown { bandwidth_type })
            },
        }
    }

    pub fn to_bytes(&self) -> (r: Vec<u8>)
        ensures
            r@ == self.text(),
    {
        let mut out: Vec<u8> = Vec::new();
        match self {
            Bandwidth::ConferenceTotal(rate) => {
                push_all(&mut out, "CT:".as_bytes());
                push_decimal(&mut out, *rate as u64);
            },
            Bandwidth::ApplicationSpecific(rate) => {
                push_all(&mut out, "AS:".as_bytes());
                push_decimal(&mut out, *rate as u64);
            },
        }
        assert(out@ =~= self.text());
        out
    }

    pub fn from_bytes(s: &[u8]) -> (r: Result<Bandwidth, Error>)
        ensures
            match Bandwidth::of_text(s@) {
                Ok(bandwidth) => r matches Ok(b) && b == bandwidth,
                Err(e) => r matches Err(x) && x@ == e,
            },
    {
        let (bandwidth_type, bandwidth) = match split_once_at(s, COLON) {
            Some(parts) => parts,
            None => {
                return Err(Error::BandwidthLineMalformed { line: copy_of(s) });
            },
        };
        if bytes_eq(bandwidth_type, "CT".as_bytes()) {
            match parse_number(bandwidth, usize::MAX as u64) {
                Some(rate) => Ok(Bandwidth::ConferenceTotal(rate as usize)),
                None => Err(Error::BandwidthValueInvalid { bandwidth: copy_of(bandwidth) }),
            }
        } else if bytes_eq(bandwidth_type, "AS".as_bytes()) {
            match parse_number(bandwidth, usize::MAX as u64) {
                Some(rate) => Ok(Bandwidth::ApplicationSpecific(rate as usize)),
                None => Err(Error::BandwidthValueInvalid { bandwidth: copy_of(bandwidth) }),
            }
        } else {
            Err(Error::BandwidthTypeUnknown { bandwidth_type: copy_of(bandwidth_type) })
        }
    }
}

/// When the session is active, in seconds since 1900; zero for a side that is open.
#[derive(Debug, Clone, Copy, PartialEq, Eq, Structural)]
pub struct TimeActive {
    pub start: u64,
    pub stop: u64,
}

impl TimeActive {
    pub open spec fn text(self) -> Seq<u8> {
        decimal(self.start as nat) + seq![SPACE] + decimal(self.stop as nat)
    }

    /// Reading of the active time: two numbers with a space between them.
    pub open spec fn of_text(s: Seq<u8>) -> Result<TimeActive, ErrorView> {
        match split_once(s, SPACE) {
            None => Err(ErrorView::TimeMalformed { time: s }),
            Some((start, stop)) => match parse_unsigned(start, u64::MAX as nat) {
                None => Err(ErrorView::TimeDescriptionInvalid { time: start }),
                Some(start) => match parse_unsigned(stop, u64::MAX as nat) {
                    None => Err(ErrorView::TimeDescriptionInvalid { time: stop }),
                    Some(stop) => Ok(TimeActive { start: start as u64, stop: stop as u64 }),
                },
            },
        }
    }

    pub fn to_bytes(&self) -> (r: Vec<u8>)
        ensures
            r@ == self.text(),
    {
        let mut out: Vec<u8> = Vec::new();
        push_decimal(&mut out, self.start);
        out.push(SPACE);
        push_decimal(&mut out, self.stop);
        assert(out@ =~= self.text());
        out
    }

    pub fn from_bytes(s: &[u8]) -> (r: Result<TimeActive, Error>)
        ensures
            match TimeActive::of_text(s@) {
                Ok(time) => r matches Ok(t) && t == time,
                Err(e) => r matches Err(x) && x@ == e,
            },
    {
        let (start, stop) = match split_once_at(s, SPACE) {
            Some(parts) => parts,
            None => {
                return Err(Error::TimeMalformed { time: copy_of(s) });
            },
        };
        let start = match parse_number(start, u64::MAX) {
            Some(start) => start,
            None => {
                return Err(Error::TimeDescriptionInvalid { time: copy_of(start) });
            },
        };
        match parse_number(stop, u64::MAX) {
            Some(stop) => Ok(TimeActive { start, stop }),
            None => Err(Error::TimeDescriptionInvalid { time: copy_of(stop) }),
        }
    }
}

/// When the session repeats: every `repeat_interval` seconds for `active_duration` seconds,
/// at each of the offsets from the start.
#[derive(Debug, Clone, PartialEq, Eq)]
pub struct RepeatTimes {
    pub repeat_interval: u64,
    pub active_duration: u64,
    pub offsets: Vec<u64>,
}

pub struct RepeatTimesView {
    pub repeat_interval: u64,
    pub active_duration: u64,
    pub offsets: Seq<u64>,
}

impl View for RepeatTimes {
    type V = RepeatTimesView;

    open spec fn view(&self) -> RepeatTimesView {
        RepeatTimesView {
            repeat_interval: self.repeat_interval,
            active_duration: self.active_duration,
            offsets: self.offsets@,
        }
    }
}

/// The numbers of `times` in decimal, each behind a space.
pub open spec fn spaced_numbers(times: Seq<u64>) -> Seq<u8>
    decreases times.len(),
{
    if times.len() == 0 {
        Seq::<u8>::empty()
    } else {
        spaced_numbers(times.drop_last()) + seq![SPACE] + decimal(times.last() as nat)
    }
}

/// Reading of times, one after the other: all of them, or the first error.
pub open spec fn times_parsed(parts: Seq<Seq<u8>>) -> Result<Seq<u64>, ErrorView>
    decreases parts.len(),
{
    if parts.len() == 0 {
        Ok(Seq::<u64>::empty())
    } else {
        match times_parsed(parts.drop_last()) {
            Err(e) => Err(e),
            Ok(times) => match time_parsed(parts.last()) {
                Err(e) => Err(e),
                Ok(time) => Ok(times.push(time)),
            },
        }
    }
}

proof fn lemma_times_parsed_fails(parts: Seq<Seq<u8>>, k: int)
    requires
        0 <= k <= parts.len(),
        times_parsed(parts.take(k)) is Err,
    ensures
        times_parsed(parts) == times_parsed(parts.take(k)),
    decreases parts.len() - k,
{
    if k < parts.len() {
        assert(parts.take(k + 1).drop_last() =~= parts.take(k));
        lemma_times_parsed_fails(parts, k + 1);
    } else {
        assert(parts.take(k) =~= parts);
    }
}

impl RepeatTimesView {
    /// The repeat times as text: the interval, the duration, and the offsets, or a zero
    /// where there is no offset.
    pub open spec fn text(self) -> Seq<u8> {
        decimal(self.repeat_interval as nat) + seq![SPACE] + decimal(self.active_duration as nat)
            + if self.offsets.len() == 0 {
            seq![SPACE, 48u8]
        } else {
            spaced_numbers(self.offsets)
        }
    }

    /// Reading of repeat times: the interval, the duration, and one offset or more, each a
    /// time with a unit.
    pub open spec fn of_text(s: Seq<u8>) -> Result<RepeatTimesView, ErrorView> {
        let parts = fields(s);
        let required = if parts.len() < 3 {
            parts.len() as int
        } else {
            3
        };
        match times_parsed(parts.subrange(0, required)) {
            Err(e) => Err(e),
            Ok(first) => if parts.len() < 3 {
                Err(ErrorView::RepeatTimesLineMalformed { line: s })
            } else {
                match times_parsed(parts.subrange(3, parts.len() as int)) {
                    Err(e) => Err(e),
                    Ok(more) => Ok(
                        RepeatTimesView {
                            repeat_interval: first[0],
                            active_duration: first[1],
                            offsets: seq![first[2]] + more,
                        },
                    ),
                }
            },
        }
    }
}

fn parse_times(parts: &Vec<Vec<u8>>, from: usize, to: usize) -> (r: Result<Vec<u64>, Error>)
    requires
        from <= to <= parts@.len(),
    ensures
        match times_parsed(views(parts@).subrange(from as int, to as int)) {
            Ok(times) => r matches Ok(t) && t@ == times,
            Err(e) => r matches Err(x) && x@ == e,
        },
{
    let ghost all = views(parts@).subrange(from as int, to as int);
    let mut times: Vec<u64> = Vec::new();
    let mut i: usize = from;
    assert(all.take(0) =~= Seq::<Seq<u8>>::empty());
    while i < to
        invariant
            from <= i <= to <= parts@.len(),
            all == views(parts@).subrange(from as int, to as int),
            times_parsed(all.take(i - from)) == Ok::<Seq<u64>, ErrorView>(times@),
        decreases to - i,
    {
        proof {
            let next = all.take(i - from + 1);
            assert(next.drop_last() =~= all.take(i - from));
            assert(next.last() == parts@[i as int]@);
        }
        match parse_time(parts[i].as_slice()) {
            Ok(time) => {
                times.push(time);
            },
            Err(e) => {
                proof {
                    assert(times_parsed(all.take(i - from + 1)) == Err::<Seq<u64>, ErrorView>(e@));
                    lemma_times_parsed_fails(all, i - from + 1);
                }
                return Err(e);
            },
        }
        i += 1;
    }
    assert(all.take(all.len() as int) =~= all);
    Ok(times)
}

proof fn lemma_times_parsed_len(parts: Seq<Seq<u8>>)
    ensures
        times_parsed(parts) matches Ok(times) ==> times.len() == parts.len(),
    decreases parts.len(),
{
    if parts.len() > 0 {
        lemma_times_parsed_len(parts.drop_last());
    }
}

impl RepeatTimes {
    pub fn to_bytes(&self) -> (r: Vec<u8>)
        ensures
            r@ == self@.text(),
    {
        let mut out: Vec<u8> = Vec::new();
        push_decimal(&mut out, self.repeat_interval);
        out.push(SPACE);
        push_decimal(&mut out, self.active_duration);
        let ghost head = out@;
        if self.offsets.len() == 0 {
            out.push(SPACE);
            out.push(48u8);
            assert(out@ =~= self@.text());
        } else {
            let mut i: usize = 0;
            assert(self.offsets@.take(0) =~= Seq::<u64>::empty());
            assert(out@ =~= head + spaced_numbers(self.offsets@.take(0)));
            while i < self.offsets.len()
                invariant
                    0 <= i <= self.offsets@.len(),
                    out@ == head + spaced_numbers(self.offsets@.take(i as int)),
                decreases self.offsets@.len() - i,
            {
                out.push(SPACE);
                push_decimal(&mut out, self.offsets[i]);
                proof {
                    let next = self.offsets@.take(i + 1);
                    assert(next.drop_last() =~= self.offsets@.take(i as int));
                    assert(out@ =~= head + spaced_numbers(next));
                }
                i += 1;
            }
            assert(self.offsets@.take(self.offsets@.len() as int) =~= self.offsets@);
            assert(out@ =~= self@.text());
        }
        out
    }

    pub fn from_bytes(s: &[u8]) -> (r: Result<RepeatTimes, Error>)
        ensures
            match RepeatTimesView::of_text(s@) {
                Ok(times) => r matches Ok(t) && t@ == times,
                Err(e) => r matches Err(x) && x@ == e,
            },
    {
        let parts = split_at_each(s, SPACE);
        let required: usize = if parts.len() < 3 {
            parts.len()
        } else {
            3
        };
        let first = match parse_times(&parts, 0, required) {
            Ok(first) => first,
            Err(e) => {
                return Err(e);
            },
        };
        if parts.len() < 3 {
            return Err(Error::RepeatTimesLineMalformed { line: copy_of(s) });
        }
        proof {
            lemma_times_parsed_len(views(parts@).subrange(0, 3));
        }
        let mut more = match parse_times(&parts, 3, parts.len()) {
            Ok(more) => more,
            Err(e) => {
                return Err(e);
            },
        };
        let ghost rest = more@;
        let mut offsets: Vec<u64> = Vec::new();
        offsets.push(first[2]);
        offsets.append(&mut more);
        assert(offsets@ =~= seq![first@[2]] + rest);
        Ok(RepeatTimes { repeat_interval: first[0], active_duration: first[1], offsets })
    }
}

/// One adjustment of the repeat times for a change of the time zone: at `time`, the times
/// shift by `offset` seconds.
#[derive(Debug, Clone, Copy, PartialEq, Eq, Structural)]
pub struct TimeZoneAdjustment {
    pub time: u64,
    pub offset: i64,
}

impl TimeZoneAdjustment {
    pub open spec fn text(self) -> Seq<u8> {
        decimal(self.time as nat) + seq![SPACE] + crate::text::signed_decimal(self.offset as int)
    }

    /// Reading of an adjustment: a number, and a signed time with a unit.
    pub open spec fn of_texts(time: Seq<u8>, offset: Seq<u8>) -> Result<
        TimeZoneAdjustment,
        ErrorView,
    > {
        match parse_unsigned(time, u64::MAX as nat) {
            None => Err(ErrorView::TimeZoneAdjustmentTimeInvalid { time }),
            Some(time) => match offset_parsed(offset) {
                Err(e) => Err(e),
                Ok(offset) => Ok(TimeZoneAdjustment { time: time as u64, offset }),
            },
        }
    }

    pub fn from_time_and_offset_strings(time: &[u8], offset: &[u8]) -> (r: Result<
        TimeZoneAdjustment,
        Error,
    >)
        ensures
            match TimeZoneAdjustment::of_texts(time@, offset@) {
                Ok(adjustment) => r matches Ok(a) && a == adjustment,
                Err(e) => r matches Err(x) && x@ == e,
            },
    {
        let time = match parse_number(time, u64::MAX) {
            Some(time) => time,
            None => {
                return Err(Error::TimeZoneAdjustmentTimeInvalid { time: copy_of(time) });
            },
        };
        match parse_offset(offset) {
            Ok(offset) => Ok(TimeZoneAdjustment { time, offset }),
            Err(e) => Err(e),
        }
    }

    pub fn to_bytes(&self) -> (r: Vec<u8>)
        ensures
            r@ == self.text(),
    {
        let mut out: Vec<u8> = Vec::new();
        push_decimal(&mut out, self.time);
        out.push(SPACE);
        crate::text::push_signed_decimal(&mut out, self.offset);
        assert(out@ =~= self.text());
        out
    }
}

/// The adjustments of the repeat times for changes of the time zone.
#[derive(Debug, Clone, PartialEq, Eq)]
pub struct TimeZoneAdjustments(pub Vec<TimeZoneAdjustment>);

impl View for TimeZoneAdjustments {
    type V = Seq<TimeZoneAdjustment>;

    open spec fn view(&self) -> Seq<TimeZoneAdjustment> {
        self.0@
    }
}

/// The texts of `adjustments`, with a space between each two.
pub open spec fn adjustments_text(adjustments: Seq<TimeZoneAdjustment>) -> Seq<u8>
    decreases adjustments.len(),
{
    if adjustments.len() == 0 {
        lit("0 0")
    } else if adjustments.len() == 1 {
        adjustments[0].text()
    } else {
        adjustments_text(adjustments.drop_last()) + seq![SPACE] + adjustments.last().text()
    }
}

/// Reading of adjustments from the fields of a line, two fields for each: all of them, or
/// the first error. A field without its partner makes the line malformed.
pub open spec fn adjustments_parsed(parts: Seq<Seq<u8>>, line: Seq<u8>) -> Result<
    Seq<TimeZoneAdjustment>,
    ErrorView,
>
    decreases parts.len(),
{
    if parts.len() == 0 {
        Ok(Seq::<TimeZoneAdjustment>::empty())
    } else if parts.len() == 1 {
        Err(ErrorView::TimeZoneAdjustmentsLineMalformed { line })
    } else {
        match TimeZoneAdjustment::of_texts(parts[0], parts[1]) {
            Err(e) => Err(e),
            Ok(adjustment) => match adjustments_parsed(parts.skip(2), line) {
                Err(e) => Err(e),
                Ok(rest) => Ok(seq![adjustment] + rest),
            },
        }
    }
}

/// `done`, then what `rest` gives, unless `rest` is an error.
pub open spec fn then<T>(done: Seq<T>, rest: Result<Seq<T>, ErrorView>) -> Result<
    Seq<T>,
    ErrorView,
> {
    match rest {
        Ok(more) => Ok(done + more),
        Err(e) => Err(e),
    }
}

impl TimeZoneAdjustments {
    /// No adjustments.
    #[inline(always)]
    pub fn new() -> (r: TimeZoneAdjustments)
        ensures
            r@ == Seq::<TimeZoneAdjustment>::empty(),
    {
        TimeZoneAdjustments(Vec::new())
    }

    pub fn to_bytes(&self) -> (r: Vec<u8>)
        ensures
            r@ == adjustments_text(self@),
    {
        if self.0.len() == 0 {
            return text_of("0 0");
        }
        let mut out: Vec<u8> = Vec::new();
        let mut i: usize = 0;
        while i < self.0.len()
            invariant
                0 <= i <= self.0@.len(),
                self.0@.len() > 0,
                i > 0 ==> out@ == adjustments_text(self.0@.take(i as int)),
                i == 0 ==> out@.len() == 0,
            decreases self.0@.len() - i,
        {
            let ghost before = out@;
            if i > 0 {
                out.push(SPACE);
            }
            push_all(&mut out, self.0[i].to_bytes().as_slice());
            proof {
                let next = self.0@.take(i + 1);
                assert(next.drop_last() =~= self.0@.take(i as int));
                assert(next.last() == self.0@[i as int]);
                if i == 0 {
                    assert(next[0] == self.0@[0]);
                    assert(out@ =~= next[0].text());
                } else {
                    assert(out@ =~= before + seq![SPACE] + next.last().text());
                }
            }
            i += 1;
        }
        assert(self.0@.take(self.0@.len() as int) =~= self.0@);
        out
    }

    pub fn from_bytes(s: &[u8]) -> (r: Result<TimeZoneAdjustments, Error>)
        ensures
            match adjustments_parsed(fields(s@), s@) {
                Ok(adjustments) => r matches Ok(a) && a@ == adjustments,
                Err(e) => r matches Err(x) && x@ == e,
            },
    {
        let parts = split_at_each(s, SPACE);
        let ghost all = views(parts@);
        let mut adjustments: Vec<TimeZoneAdjustment> = Vec::new();
        let mut i: usize = 0;
        proof {
            assert(all.skip(0) =~= all);
            match adjustments_parsed(all, s@) {
                Ok(a) => {
                    assert(adjustments@ + a =~= a);
                },
                Err(_) => {},
            }
        }
        while i < parts.len()
            invariant
                0 <= i <= parts@.len(),
                all == views(parts@),
                all == fields(s@),
                then(adjustments@, adjustments_parsed(all.skip(i as int), s@)) == adjustments_parsed(
                    all,
                    s@,
                ),
            decreases parts@.len() - i,
        {
            let ghost rest = all.skip(i as int);
            if i + 1 >= parts.len() {
                assert(rest.len() == 1);
                return Err(Error::TimeZoneAdjustmentsLineMalformed { line: copy_of(s) });
            }
            assert(rest[0] == parts@[i as int]@);
            assert(rest[1] == parts@[i + 1]@);
            assert(rest.skip(2) =~= all.skip(i + 2));
            let ghost before = adjustments@;
            match TimeZoneAdjustment::from_time_and_offset_strings(
                parts[i].as_slice(),
                parts[i + 1].as_slice(),
            ) {
                Ok(adjustment) => {
                    adjustments.push(adjustment);
                    proof {
                        match adjustments_parsed(all.skip(i + 2), s@) {
                            Ok(more) => {
                                assert(before.push(adjustment) + more =~= before + (seq![
                                    adjustment,
                                ] + more));
                            },
                            Err(_) => {},
                        }
                    }
                },
                Err(e) => {
                    return Err(e);
                },
            }
            i += 2;
        }
        assert(adjustments@ + Seq::<TimeZoneAdjustment>::empty() =~= adjustments@);
        Ok(TimeZoneAdjustments(adjustments))
    }
}

impl Default for TimeZoneAdjustments {
    #[inline(always)]
    fn default() -> (r: TimeZoneAdjustments)
        ensures
            r@ == Seq::<TimeZoneAdjustment>::empty(),
    {
        TimeZoneAdjustments::new()
    }
}

/// One repetition of the session, with the adjustments that belong to it.
#[derive(Debug, Clone, PartialEq, Eq)]
pub struct Repeat {
    pub times: RepeatTimes,
    pub timezone_adjustments: Option<TimeZoneAdjustments>,
}

pub struct RepeatView {
    pub times: RepeatTimesView,
    pub timezone_adjustments: Option<Seq<TimeZoneAdjustment>>,
}

impl View for Repeat {
    type V = RepeatView;

    open spec fn view(&self) -> RepeatView {
        RepeatView {
            times: self.times@,
            timezone_adjustments: match self.timezone_adjustments {
                Some(adjustments) => Some(adjustments@),
                None => None,
            },
        }
    }
}

/// Something that extends the description of the session or of a media item: a property,
/// or a value under a name.
#[derive(Debug, Clone, PartialEq, Eq)]
pub enum Attribute {
    Property(Vec<u8>),
    Value(Vec<u8>, Vec<u8>),
}

pub enum AttributeView {
    Property(Seq<u8>),
    Value(Seq<u8>, Seq<u8>),
}

impl View for Attribute {
    type V = AttributeView;

    open spec fn view(&self) -> AttributeView {
        match *self {
            Attribute::Property(value) => AttributeView::Property(value@),
            Attribute::Value(variable, value) => AttributeView::Value(variable@, value@),
        }
    }
}

impl AttributeView {
    pub open spec fn text(self) -> Seq<u8> {
        match self {
            AttributeView::Property(value) => value,
            AttributeView::Value(variable, value) => variable + seq![COLON] + value,
        }
    }

    /// Reading of an attribute: a name and a value where there is a colon, a property where
    /// there is none.
    pub open spec fn of_text(s: Seq<u8>) -> AttributeView {
        match split_once(s, COLON) {
            Some((variable, value)) => AttributeView::Value(variable, value),
            None => AttributeView::Property(s),
        }
    }
}

impl Attribute {
    pub fn to_bytes(&self) -> (r: Vec<u8>)
        ensures
            r@ == self@.text(),
    {
        match self {
            Attribute::Property(value) => copy_of(value.as_slice()),
            Attribute::Value(variable, value) => {
                let mut out = copy_of(variable.as_slice());
                out.push(COLON);
                push_all(&mut out, value.as_slice());
                assert(out@ =~= self@.text());
                out
            },
        }
    }

    pub fn from_bytes(s: &[u8]) -> (r: Attribute)
        ensures
            r@ == AttributeView::of_text(s@),
    {
        match split_once_at(s, COLON) {
            Some((variable, value)) => Attribute::Value(copy_of(variable), copy_of(value)),
            None => Attribute::Property(copy_of(s)),
        }
    }

    /// A copy of the attribute.
    pub fn duplicate(&self) -> (r: Attribute)
        ensures
            r@ == self@,
    {
        match self {
            Attribute::Property(value) => Attribute::Property(copy_of(value.as_slice())),
            Attribute::Value(variable, value) => Attribute::Value(
                copy_of(variable.as_slice()),
                copy_of(value.as_slice()),
            ),
        }
    }
}

/// What a media item is: its kind, its port, its protocol and its format.
#[derive(Debug, Clone, Copy, PartialEq, Eq, Structural)]
pub struct Media {
    pub kind: Kind,
    pub port: u16,
    pub protocol: Protocol,
    pub format: usize,
}

impl Media {
    pub open spec fn text(self) -> Seq<u8> {
        self.kind.text() + seq![SPACE] + decimal(self.port as nat) + seq![SPACE]
            + self.protocol.text() + seq![SPACE] + decimal(self.format as nat)
    }

    /// Reading of a media description: a kind, a port, a protocol and a format.
    pub open spec fn of_text(s: Seq<u8>) -> Result<Media, ErrorView> {
        let parts = fields(s);
        match Kind::of_text(parts[0]) {
            Err(e) => Err(e),
            Ok(kind) => if parts.len() < 2 {
                Err(ErrorView::MediaLineInvalid { line: s })
            } else {
                match parse_unsigned(parts[1], u16::MAX as nat) {
                    None => Err(ErrorView::MediaPortInvalid { line: s }),
                    Some(port) => if parts.len() < 3 {
                        Err(ErrorView::MediaLineInvalid { line: s })
                    } else {
                        match Protocol::of_text(parts[2]) {
                            Err(e) => Err(e),
                            Ok(protocol) => if parts.len() < 4 {
                                Err(ErrorView::MediaLineInvalid { line: s })
                            } else {
                                match parse_unsigned(parts[3], usize::MAX as nat) {
                                    None => Err(ErrorView::MediaFormatInvalid { line: s }),
                                    Some(format) => Ok(
                                        Media {
                                            kind,
                                            port: port as u16,
                                            protocol,
                                            format: format as usize,
                                        },
                                    ),
                                }
                            },
                        }
                    },
                }
            },
        }
    }

    pub fn to_bytes(&self) -> (r: Vec<u8>)
        ensures
            r@ == self.text(),
    {
        let mut out = self.kind.to_bytes();
        out.push(SPACE);
        push_decimal(&mut out, self.port as u64);
        out.push(SPACE);
        push_all(&mut out, self.protocol.as_str().as_bytes());
        out.push(SPACE);
        push_decimal(&mut out, self.format as u64);
        assert(out@ =~= self.text());
        out
    }

    pub fn from_bytes(s: &[u8]) -> (r: Result<Media, Error>)
        ensures
            match Media::of_text(s@) {
                Ok(media) => r matches Ok(m) && m == media,
                Err(e) => r matches Err(x) && x@ == e,
            },
    {
        let parts = split_at_each(s, SPACE);
        assert(views(parts@)[0] == parts@[0]@);
        let kind = match Kind::from_bytes(parts[0].as_slice()) {
            Ok(kind) => kind,
            Err(e) => {
                return Err(e);
            },
        };
        if parts.len() < 2 {
            return Err(Error::MediaLineInvalid { line: copy_of(s) });
        }
        assert(views(parts@)[1] == parts@[1]@);
        let port = match parse_number(parts[1].as_slice(), u16::MAX as u64) {
            Some(port) => port as u16,
            None => {
                return Err(Error::MediaPortInvalid { line: copy_of(s) });
            },
        };
        if parts.len() < 3 {
            return Err(Error::MediaLineInvalid { line: copy_of(s) });
        }
        assert(views(parts@)[2] == parts@[2]@);
        let protocol = match Protocol::from_bytes(parts[2].as_slice()) {
            Ok(protocol) => protocol,
            Err(e) => {
                return Err(e);
            },
        };
        if parts.len() < 4 {
            return Err(Error::MediaLineInvalid { line: copy_of(s) });
        }
        assert(views(parts@)[3] == parts@[3]@);
        match parse_number(parts[3].as_slice(), usize::MAX as u64) {
            Some(format) => Ok(Media { kind, port, protocol, format: format as usize }),
            None => Err(Error::MediaFormatInvalid { line: copy_of(s) }),
        }
    }
}

/// One media item, with what belongs to it alone.
#[derive(Debug, Clone, PartialEq, Eq)]
pub struct MediaItem {
    pub media: Media,
    pub title: Option<Vec<u8>>,
    pub connection: Option<Connection>,
    pub bandwidth: Vec<Bandwidth>,
    pub attributes: Vec<Attribute>,
}

pub struct MediaItemView {
    pub media: Media,
    pub title: Option<Seq<u8>>,
    pub connection: Option<ConnectionView>,
    pub bandwidth: Seq<Bandwidth>,
    pub attributes: Seq<AttributeView>,
}

impl View for MediaItem {
    type V = MediaItemView;

    open spec fn view(&self) -> MediaItemView {
        MediaItemView {
            media: self.media,
            title: option_view(self.title),
            connection: connection_view(self.connection),
            bandwidth: self.bandwidth@,
            attributes: views(self.attributes@),
        }
    }
}

/// A session description.
#[derive(Debug, Clone, PartialEq, Eq)]
pub struct Sdp {
    pub version: Version,
    pub origin: Origin,
    pub session_name: Vec<u8>,
    pub session_description: Option<Vec<u8>>,
    pub uri: Option<Vec<u8>>,
    pub email: Option<Vec<u8>>,
    pub phone: Option<Vec<u8>>,
    pub connection: Option<Connection>,
    pub bandwidth: Vec<Bandwidth>,
    pub time_active: Vec<TimeActive>,
    pub repeats: Vec<Repeat>,
    pub attributes: Vec<Attribute>,
    pub media: Vec<MediaItem>,
}

pub struct SdpView {
    pub version: Version,
    pub origin: OriginView,
    pub session_name: Seq<u8>,
    pub session_description: Option<Seq<u8>>,
    pub uri: Option<Seq<u8>>,
    pub email: Option<Seq<u8>>,
    pub phone: Option<Seq<u8>>,
    pub connection: Option<ConnectionView>,
    pub bandwidth: Seq<Bandwidth>,
    pub time_active: Seq<TimeActive>,
    pub repeats: Seq<RepeatView>,
    pub attributes: Seq<AttributeView>,
    pub media: Seq<MediaItemView>,
}

impl View for Sdp {
    type V = SdpView;

    open spec fn view(&self) -> SdpView {
        SdpView {
            version: self.version,
            origin: self.origin@,
            session_name: self.session_name@,
            session_description: option_view(self.session_description),
            uri: option_view(self.uri),
            email: option_view(self.email),
            phone: option_view(self.phone),
            connection: connection_view(self.connection),
            bandwidth: self.bandwidth@,
            time_active: self.time_active@,
            repeats: views(self.repeats@),
            attributes: views(self.attributes@),
            media: views(self.media@),
        }
    }
}

/// A session description in the making: what the lines read so far have said.
pub struct Draft {
    version: Option<Version>,
    origin: Option<Origin>,
    session_name: Option<Vec<u8>>,
    session_description: Option<Vec<u8>>,
    uri: Option<Vec<u8>>,
    email: Option<Vec<u8>>,
    phone: Option<Vec<u8>>,
    connection: Option<Connection>,
    bandwidth: Vec<Bandwidth>,
    time_active: Vec<TimeActive>,
    repeats: Vec<Repeat>,
    attributes: Vec<Attribute>,
    media: Vec<MediaItem>,
}

pub struct DraftView {
    pub version: Option<Version>,
    pub origin: Option<OriginView>,
    pub session_name: Option<Seq<u8>>,
    pub session_description: Option<Seq<u8>>,
    pub uri: Option<Seq<u8>>,
    pub email: Option<Seq<u8>>,
    pub phone: Option<Seq<u8>>,
    pub connection: Option<ConnectionView>,
    pub bandwidth: Seq<Bandwidth>,
    pub time_active: Seq<TimeActive>,
    pub repeats: Seq<RepeatView>,
    pub attributes: Seq<AttributeView>,
    pub media: Seq<MediaItemView>,
}

impl View for Draft {
    type V = DraftView;

    closed spec fn view(&self) -> DraftView {
        DraftView {
            version: self.version,
            origin: match self.origin {
                Some(origin) => Some(origin@),
                None => None,
            },
            session_name: option_view(self.session_name),
            session_description: option_view(self.session_description),
            uri: option_view(self.uri),
            email: option_view(self.email),
            phone: option_view(self.phone),
            connection: connection_view(self.connection),
            bandwidth: self.bandwidth@,
            time_active: self.time_active@,
            repeats: views(self.repeats@),
            attributes: views(self.attributes@),
            media: views(self.media@),
        }
    }
}

/// A draft that no line has said anything to.
pub open spec fn blank() -> DraftView {
    DraftView {
        version: None,
        origin: None,
        session_name: None,
        session_description: None,
        uri: None,
        email: None,
        phone: None,
        connection: None,
        bandwidth: Seq::<Bandwidth>::empty(),
        time_active: Seq::<TimeActive>::empty(),
        repeats: Seq::<RepeatView>::empty(),
        attributes: Seq::<AttributeView>::empty(),
        media: Seq::<MediaItemView>::empty(),
    }
}

/// `items` with its last item replaced.
pub open spec fn with_last<T>(items: Seq<T>, last: T) -> Seq<T> {
    items.drop_last().push(last)
}

impl DraftView {
    /// The draft after a line of information: the title of the last media item where there
    /// is one, the description of the session where there is none.
    pub open spec fn with_information(self, value: Seq<u8>) -> DraftView {
        if self.media.len() > 0 {
            DraftView {
                media: with_last(
                    self.media,
                    MediaItemView { title: Some(value), ..self.media.last() },
                ),
                ..self
            }
        } else {
            DraftView { session_description: Some(value), ..self }
        }
    }

    /// The draft after a connection line, which goes to the last media item where there is
    /// one.
    pub open spec fn with_connection(self, connection: ConnectionView) -> DraftView {
        if self.media.len() > 0 {
            DraftView {
                media: with_last(
                    self.media,
                    MediaItemView { connection: Some(connection), ..self.media.last() },
                ),
                ..self
            }
        } else {
            DraftView { connection: Some(connection), ..self }
        }
    }

    /// The draft after a bandwidth line, which goes to the last media item where there is
    /// one.
    pub open spec fn with_bandwidth(self, bandwidth: Bandwidth) -> DraftView {
        if self.media.len() > 0 {
            DraftView {
                media: with_last(
                    self.media,
                    MediaItemView {
                        bandwidth: self.media.last().bandwidth.push(bandwidth),
                        ..self.media.last()
                    },
                ),
                ..self
            }
        } else {
            DraftView { bandwidth: self.bandwidth.push(bandwidth), ..self }
        }
    }

    /// The draft after an attribute line, which goes to the last media item where there is
    /// one.
    pub open spec fn with_attribute(self, attribute: AttributeView) -> DraftView {
        if self.media.len() > 0 {
            DraftView {
                media: with_last(
                    self.media,
                    MediaItemView {
                        attributes: self.media.last().attributes.push(attribute),
                        ..self.media.last()
                    },
                ),
                ..self
            }
        } else {
            DraftView { attributes: self.attributes.push(attribute), ..self }
        }
    }

    /// The draft after one line, which is trimmed and not empty. The first two bytes of the
    /// line say what the rest is.
    pub open spec fn line_applied(self, line: Seq<u8>) -> Result<DraftView, ErrorView> {
        if line.len() < 2 {
            Err(ErrorView::LinePrefixInvalid { line })
        } else {
            let key = line.take(2);
            let value = line.skip(2);
            if key == lit("v=") {
                match Version::of_text(value) {
                    Ok(version) => Ok(DraftView { version: Some(version), ..self }),
                    Err(e) => Err(e),
                }
            } else if key == lit("o=") {
                match OriginView::of_text(value) {
                    Ok(origin) => Ok(DraftView { origin: Some(origin), ..self }),
                    Err(e) => Err(e),
                }
            } else if key == lit("s=") {
                Ok(DraftView { session_name: Some(value), ..self })
            } else if key == lit("i=") {
                Ok(self.with_information(value))
            } else if key == lit("u=") {
                Ok(DraftView { uri: Some(value), ..self })
            } else if key == lit("e=") {
                Ok(DraftView { email: Some(value), ..self })
            } else if key == lit("p=") {
                Ok(DraftView { phone: Some(value), ..self })
            } else if key == lit("c=") {
                match ConnectionView::of_text(value) {
                    Ok(connection) => Ok(self.with_connection(connection)),
                    Err(e) => Err(e),
                }
            } else if key == lit("b=") {
                match Bandwidth::of_text(value) {
                    Ok(bandwidth) => Ok(self.with_bandwidth(bandwidth)),
                    Err(e) => Err(e),
                }
            } else if key == lit("t=") {
                match TimeActive::of_text(value) {
                    Ok(time) => Ok(DraftView { time_active: self.time_active.push(time), ..self }),
                    Err(e) => Err(e),
                }
            } else if key == lit("r=") {
                match RepeatTimesView::of_text(value) {
                    Ok(times) => Ok(
                        DraftView {
                            repeats: self.repeats.push(
                                RepeatView { times, timezone_adjustments: None },
                            ),
                            ..self
                        },
                    ),
                    Err(e) => Err(e),
                }
            } else if key == lit("z=") {
                if self.repeats.len() == 0 {
                    Err(ErrorView::TimezoneAdjustmentsWithoutRepeatTimes)
                } else {
                    match adjustments_parsed(fields(value), value) {
                        Ok(adjustments) => Ok(
                            DraftView {
                                repeats: with_last(
                                    self.repeats,
                                    RepeatView {
                                        timezone_adjustments: Some(adjustments),
                                        ..self.repeats.last()
                                    },
                                ),
                                ..self
                            },
                        ),
                        Err(e) => Err(e),
                    }
                }
            } else if key == lit("a=") {
                Ok(self.with_attribute(AttributeView::of_text(value)))
            } else if key == lit("m=") {
                match Media::of_text(value) {
                    Ok(media) => Ok(
                        DraftView {
                            media: self.media.push(
                                MediaItemView {
                                    media,
                                    title: None,
                                    connection: None,
                                    bandwidth: Seq::<Bandwidth>::empty(),
                                    attributes: Seq::<AttributeView>::empty(),
                                },
                            ),
                            ..self
                        },
                    ),
                    Err(e) => Err(e),
                }
            } else {
                Err(ErrorView::LinePrefixInvalid { line })
            }
        }
    }

    /// The draft after `lines`, each of which is trimmed first; empty lines say nothing.
    pub open spec fn lines_applied(self, lines: Seq<Seq<u8>>) -> Result<DraftView, ErrorView>
        decreases lines.len(),
    {
        if lines.len() == 0 {
            Ok(self)
        } else {
            match self.lines_applied(lines.drop_last()) {
                Err(e) => Err(e),
                Ok(draft) => if trim(lines.last()).len() == 0 {
                    Ok(draft)
                } else {
                    draft.line_applied(trim(lines.last()))
                },
            }
        }
    }

    /// Whether there is a connection for every media item: one for the session, or, where
    /// there are media items, one for each of them.
    pub open spec fn connected(self) -> bool {
        self.connection is Some || (self.media.len() > 0 && forall|i: int|
            0 <= i < self.media.len() ==> (#[trigger] self.media[i]).connection is Some)
    }

    /// The session description that the draft has come to, or what it lacks: the version,
    /// the origin, the session name, an active time, or a connection.
    pub open spec fn finished(self) -> Result<SdpView, ErrorView> {
        match (self.version, self.origin, self.session_name) {
            (None, _, _) => Err(ErrorView::VersionMissing),
            (Some(_), None, _) => Err(ErrorView::OriginMissing),
            (Some(_), Some(_), None) => Err(ErrorView::SessionNameMissing),
            (Some(version), Some(origin), Some(session_name)) => if self.time_active.len() == 0 {
                Err(ErrorView::TimeActiveMissing)
            } else if !self.connected() {
                Err(ErrorView::ConnectionMissing)
            } else {
                Ok(
                    SdpView {
                        version,
                        origin,
                        session_name,
                        session_description: self.session_description,
                        uri: self.uri,
                        email: self.email,
                        phone: self.phone,
                        connection: self.connection,
                        bandwidth: self.bandwidth,
                        time_active: self.time_active,
                        repeats: self.repeats,
                        attributes: self.attributes,
                        media: self.media,
                    },
                )
            },
        }
    }
}

/// Reading of a session description: its lines, one after the other, and then the check that
/// nothing is missing.
pub open spec fn sdp_parsed(s: Seq<u8>) -> Result<SdpView, ErrorView> {
    match blank().lines_applied(split(s, LF)) {
        Err(e) => Err(e),
        Ok(draft) => draft.finished(),
    }
}

proof fn lemma_lines_applied_fails(draft: DraftView, lines: Seq<Seq<u8>>, k: int)
    requires
        0 <= k <= lines.len(),
        draft.lines_applied(lines.take(k)) is Err,
    ensures
        draft.lines_applied(lines) == draft.lines_applied(lines.take(k)),
    decreases lines.len() - k,
{
    if k < lines.len() {
        assert(lines.take(k + 1).drop_last() =~= lines.take(k));
        lemma_lines_applied_fails(draft, lines, k + 1);
    } else {
        assert(lines.take(k) =~= lines);
    }
}

impl Draft {
    /// A draft that no line has said anything to.
    pub fn new() -> (r: Draft)
        ensures
            r@ == blank(),
    {
        let draft = Draft {
            version: None,
            origin: None,
            session_name: None,
            session_description: None,
            uri: None,
            email: None,
            phone: None,
            connection: None,
            bandwidth: Vec::new(),
            time_active: Vec::new(),
            repeats: Vec::new(),
            attributes: Vec::new(),
            media: Vec::new(),
        };
        assert(views(draft.repeats@) =~= Seq::<RepeatView>::empty());
        assert(views(draft.attributes@) =~= Seq::<AttributeView>::empty());
        assert(views(draft.media@) =~= Seq::<MediaItemView>::empty());
        draft
    }

    fn set_information(self, value: Vec<u8>) -> (r: Draft)
        ensures
            r@ == self@.with_information(value@),
    {
        let mut draft = self;
        match draft.media.pop() {
            Some(item) => {
                let ghost before = views(draft.media@);
                let mut item = item;
                item.title = Some(value);
                draft.media.push(item);
                assert(views(draft.media@) =~= before.push(item@));
                assert(before =~= self@.media.drop_last());
                draft
            },
            None => {
                draft.session_description = Some(value);
                assert(views(draft.media@) =~= self@.media);
                draft
            },
        }
    }

    fn set_connection(self, connection: Connection) -> (r: Draft)
        ensures
            r@ == self@.with_connection(connection@),
    {
        let mut draft = self;
        match draft.media.pop() {
            Some(item) => {
                let ghost before = views(draft.media@);
                let mut item = item;
                item.connection = Some(connection);
                draft.media.push(item);
                assert(views(draft.media@) =~= before.push(item@));
                assert(before =~= self@.media.drop_last());
                draft
            },
            None => {
                draft.connection = Some(connection);
                assert(views(draft.media@) =~= self@.media);
                draft
            },
        }
    }

    fn add_bandwidth(self, bandwidth: Bandwidth) -> (r: Draft)
        ensures
            r@ == self@.with_bandwidth(bandwidth),
    {
        let mut draft = self;
        match draft.media.pop() {
            Some(item) => {
                let ghost before = views(draft.media@);
                let mut item = item;
                item.bandwidth.push(bandwidth);
                draft.media.push(item);
                assert(views(draft.media@) =~= before.push(item@));
                assert(before =~= self@.media.drop_last());
                draft
            },
            None => {
                draft.bandwidth.push(bandwidth);
                assert(views(draft.media@) =~= self@.media);
                draft
            },
        }
    }

    fn add_attribute(self, attribute: Attribute) -> (r: Draft)
        ensures
            r@ == self@.with_attribute(attribute@),
    {
        let mut draft = self;
        match draft.media.pop() {
            Some(item) => {
                let ghost before = views(draft.media@);
                let ghost old_attributes = views(item.attributes@);
                let mut item = item;
                item.attributes.push(attribute);
                assert(views(item.attributes@) =~= old_attributes.push(attribute@));
                draft.media.push(item);
                assert(views(draft.media@) =~= before.push(item@));
                assert(before =~= self@.media.drop_last());
                draft
            },
            None => {
                let ghost old_attributes = views(draft.attributes@);
                draft.attributes.push(attribute);
                assert(views(draft.attributes@) =~= old_attributes.push(attribute@));
                assert(views(draft.media@) =~= self@.media);
                draft
            },
        }
    }

    fn add_repeat(self, times: RepeatTimes) -> (r: Draft)
        ensures
            r@ == (DraftView {
                repeats: self@.repeats.push(RepeatView { times: times@, timezone_adjustments: None }),
                ..self@
            }),
    {
        let mut draft = self;
        let ghost before = views(draft.repeats@);
        let repeat = Repeat { times, timezone_adjustments: None };
        draft.repeats.push(repeat);
        assert(views(draft.repeats@) =~= before.push(repeat@));
        draft
    }

    fn set_adjustments(self, adjustments: TimeZoneAdjustments) -> (r: Draft)
        requires
            self@.repeats.len() > 0,
        ensures
            r@ == (DraftView {
                repeats: with_last(
                    self@.repeats,
                    RepeatView {
                        timezone_adjustments: Some(adjustments@),
                        ..self@.repeats.last()
                    },
                ),
                ..self@
            }),
    {
        let mut draft = self;
        let mut repeat = draft.repeats.pop().unwrap();
        let ghost before = views(draft.repeats@);
        repeat.timezone_adjustments = Some(adjustments);
        draft.repeats.push(repeat);
        assert(views(draft.repeats@) =~= before.push(repeat@));
        assert(before =~= self@.repeats.drop_last());
        draft
    }

    fn add_media(self, media: Media) -> (r: Draft)
        ensures
            r@ == (DraftView {
                media: self@.media.push(
                    MediaItemView {
                        media,
                        title: None,
                        connection: None,
                        bandwidth: Seq::<Bandwidth>::empty(),
                        attributes: Seq::<AttributeView>::empty(),
                    },
                ),
                ..self@
            }),
    {
        let mut draft = self;
        let ghost before = views(draft.media@);
        let item = MediaItem {
            media,
            title: None,
            connection: None,
            bandwidth: Vec::new(),
            attributes: Vec::new(),
        };
        assert(views(item.attributes@) =~= Seq::<AttributeView>::empty());
        draft.media.push(item);
        assert(views(draft.media@) =~= before.push(item@));
        draft
    }

    /// Takes one line, which is trimmed and not empty.
    pub fn apply_line(self, line: &[u8]) -> (r: Result<Draft, Error>)
        ensures
            match self@.line_applied(line@) {
                Ok(draft) => r matches Ok(d) && d@ == draft,
                Err(e) => r matches Err(x) && x@ == e,
            },
    {
        if line.len() < 2 {
            return Err(Error::LinePrefixInvalid { line: copy_of(line) });
        }
        let key = slice_subrange(line, 0, 2);
        let value = slice_subrange(line, 2, line.len());
        assert(key@ =~= line@.take(2));
        assert(value@ =~= line@.skip(2));
        let mut draft = self;
        if bytes_eq(key, "v=".as_bytes()) {
            match Version::from_bytes(value) {
                Ok(version) => {
                    draft.version = Some(version);
                    Ok(draft)
                },
                Err(e) => Err(e),
            }
        } else if bytes_eq(key, "o=".as_bytes()) {
            match Origin::from_bytes(value) {
                Ok(origin) => {
                    draft.origin = Some(origin);
                    Ok(draft)
                },
                Err(e) => Err(e),
            }
        } else if bytes_eq(key, "s=".as_bytes()) {
            draft.session_name = Some(copy_of(value));
            Ok(draft)
        } else if bytes_eq(key, "i=".as_bytes()) {
            Ok(draft.set_information(copy_of(value)))
        } else if bytes_eq(key, "u=".as_bytes()) {
            draft.uri = Some(copy_of(value));
            Ok(draft)
        } else if bytes_eq(key, "e=".as_bytes()) {
            draft.email = Some(copy_of(value));
            Ok(draft)
        } else if bytes_eq(key, "p=".as_bytes()) {
            draft.phone = Some(copy_of(value));
            Ok(draft)
        } else if bytes_eq(key, "c=".as_bytes()) {
            match Connection::from_bytes(value) {
                Ok(connection) => Ok(draft.set_connection(connection)),
                Err(e) => Err(e),
            }
        } else if bytes_eq(key, "b=".as_bytes()) {
            match Bandwidth::from_bytes(value) {
                Ok(bandwidth) => Ok(draft.add_bandwidth(bandwidth)),
                Err(e) => Err(e),
            }
        } else if bytes_eq(key, "t=".as_bytes()) {
            match TimeActive::from_bytes(value) {
                Ok(time) => {
                    draft.time_active.push(time);
                    Ok(draft)
                },
                Err(e) => Err(e),
            }
        } else if bytes_eq(key, "r=".as_bytes()) {
            match RepeatTimes::from_bytes(value) {
                Ok(times) => Ok(draft.add_repeat(times)),
                Err(e) => Err(e),
            }
        } else if bytes_eq(key, "z=".as_bytes()) {
            if draft.repeats.len() == 0 {
                assert(views(draft.repeats@).len() == 0);
                Err(Error::TimezoneAdjustmentsWithoutRepeatTimes)
            } else {
                assert(views(draft.repeats@).len() > 0);
                match TimeZoneAdjustments::from_bytes(value) {
                    Ok(adjustments) => Ok(draft.set_adjustments(adjustments)),
                    Err(e) => Err(e),
                }
            }
        } else if bytes_eq(key, "a=".as_bytes()) {
            Ok(draft.add_attribute(Attribute::from_bytes(value)))
        } else if bytes_eq(key, "m=".as_bytes()) {
            match Media::from_bytes(value) {
                Ok(media) => Ok(draft.add_media(media)),
                Err(e) => Err(e),
            }
        } else {
            Err(Error::LinePrefixInvalid { line: copy_of(line) })
        }
    }

    fn is_connected(&self) -> (r: bool)
        ensures
            r == self@.connected(),
    {
        if self.connection.is_some() {
            return true;
        }
        if self.media.len() == 0 {
            assert(views(self.media@).len() == 0);
            return false;
        }
        let mut i: usize = 0;
        while i < self.media.len()
            invariant
                0 <= i <= self.media@.len(),
                self.media@.len() > 0,
                self.connection is None,
                forall|j: int| 0 <= j < i ==> (#[trigger] views(self.media@)[j]).connection is Some,
            decreases self.media@.len() - i,
        {
            if self.media[i].connection.is_none() {
                assert(views(self.media@)[i as int].connection is None);
                return false;
            }
            i += 1;
        }
        true
    }

    /// The session description that the draft has come to, or what it lacks.
    pub fn finish(self) -> (r: Result<Sdp, Error>)
        ensures
            match self@.finished() {
                Ok(sdp) => r matches Ok(s) && s@ == sdp,
                Err(e) => r matches Err(x) && x@ == e,
            },
    {
        let connected = self.is_connected();
        let version = match self.version {
            Some(version) => version,
            None => {
                return Err(Error::VersionMissing);
            },
        };
        let origin = match self.origin {
            Some(origin) => origin,
            None => {
                return Err(Error::OriginMissing);
            },
        };
        let session_name = match self.session_name {
            Some(session_name) => session_name,
            None => {
                return Err(Error::SessionNameMissing);
            },
        };
        if self.time_active.len() == 0 {
            return Err(Error::TimeActiveMissing);
        }
        if !connected {
            return Err(Error::ConnectionMissing);
        }
        Ok(
            Sdp {
                version,
                origin,
                session_name,
                session_description: self.session_description,
                uri: self.uri,
                email: self.email,
                phone: self.phone,
                connection: self.connection,
                bandwidth: self.bandwidth,
                time_active: self.time_active,
                repeats: self.repeats,
                attributes: self.attributes,
                media: self.media,
            },
        )
    }
}

impl Sdp {
    /// Reads a session description.
    pub fn parse(s: &[u8]) -> (r: Result<Sdp, Error>)
        ensures
            match sdp_parsed(s@) {
                Ok(sdp) => r matches Ok(x) && x@ == sdp,
                Err(e) => r matches Err(x) && x@ == e,
            },
    {
        let lines = split_at_each(s, LF);
        let ghost all = views(lines@);
        let mut draft = Draft::new();
        let mut i: usize = 0;
        assert(all.take(0) =~= Seq::<Seq<u8>>::empty());
        while i < lines.len()
            invariant
                0 <= i <= lines@.len(),
                all == views(lines@),
                all == split(s@, LF),
                blank().lines_applied(all.take(i as int)) == Ok::<DraftView, ErrorView>(draft@),
            decreases lines@.len() - i,
        {
            proof {
                let next = all.take(i + 1);
                assert(next.drop_last() =~= all.take(i as int));
                assert(next.last() == lines@[i as int]@);
            }
            let line = trim_bytes(lines[i].as_slice());
            if line.len() > 0 {
                draft = match draft.apply_line(line) {
                    Ok(draft) => draft,
                    Err(e) => {
                        proof {
                            assert(blank().lines_applied(all.take(i + 1)) == Err::<
                                DraftView,
                                ErrorView,
                            >(e@));
                            lemma_lines_applied_fails(blank(), all, i + 1);
                        }
                        return Err(e);
                    },
                };
            }
            i += 1;
        }
        assert(all.take(all.len() as int) =~= all);
        draft.finish()
    }

    pub fn with_username(self, username: &[u8]) -> (r: Sdp)
        ensures
            r@ == (SdpView { origin: OriginView { username: username@, ..self@.origin }, ..self@ }),
    {
        let mut sdp = self;
        sdp.origin.username = copy_of(username);
        sdp
    }

    pub fn with_session_version(self, version: usize) -> (r: Sdp)
        ensures
            r@ == (SdpView {
                origin: OriginView { session_version: decimal(version as nat), ..self@.origin },
                ..self@
            }),
    {
        let mut sdp = self;
        sdp.origin.session_version = crate::text::decimal_bytes(version as u64);
        sdp
    }

    pub fn with_description(self, description: &[u8]) -> (r: Sdp)
        ensures
            r@ == (SdpView { session_description: Some(description@), ..self@ }),
    {
        let mut sdp = self;
        sdp.session_description = Some(copy_of(description));
        sdp
    }

    pub fn with_attribute(self, attribute: Attribute) -> (r: Sdp)
        ensures
            r@ == (SdpView { attributes: self@.attributes.push(attribute@), ..self@ }),
    {
        let mut sdp = self;
        sdp.attributes.push(attribute);
        assert(views(sdp.attributes@) =~= self@.attributes.push(attribute@));
        sdp
    }

    pub fn with_attributes(self, attributes: Vec<Attribute>) -> (r: Sdp)
        ensures
            r@ == (SdpView { attributes: self@.attributes + views(attributes@), ..self@ }),
    {
        let mut sdp = self;
        let mut attributes = attributes;
        let ghost added = views(attributes@);
        sdp.attributes.append(&mut attributes);
        assert(views(sdp.attributes@) =~= self@.attributes + added);
        sdp
    }
}

/// One line: a key, a value, and a line feed.
pub open spec fn line_text(key: Seq<u8>, value: Seq<u8>) -> Seq<u8> {
    key + value + seq![LF]
}

/// One line for the value, where there is one.
pub open spec fn optional_line_text(key: Seq<u8>, value: Option<Seq<u8>>) -> Seq<u8> {
    match value {
        Some(value) => line_text(key, value),
        None => Seq::<u8>::empty(),
    }
}

/// One line for each of `values`, all with the same key.
pub open spec fn lines_text(key: Seq<u8>, values: Seq<Seq<u8>>) -> Seq<u8>
    decreases values.len(),
{
    if values.len() == 0 {
        Seq::<u8>::empty()
    } else {
        lines_text(key, values.drop_last()) + line_text(key, values.last())
    }
}

pub open spec fn bandwidth_texts(items: Seq<Bandwidth>) -> Seq<Seq<u8>> {
    Seq::new(items.len(), |i: int| items[i].text())
}

pub open spec fn time_texts(items: Seq<TimeActive>) -> Seq<Seq<u8>> {
    Seq::new(items.len(), |i: int| items[i].text())
}

pub open spec fn attribute_texts(items: Seq<AttributeView>) -> Seq<Seq<u8>> {
    Seq::new(items.len(), |i: int| items[i].text())
}

impl RepeatView {
    /// The lines of one repetition: its times, and its adjustments where it has any.
    pub open spec fn text(self) -> Seq<u8> {
        line_text(lit("r="), self.times.text()) + optional_line_text(
            lit("z="),
            match self.timezone_adjustments {
                Some(adjustments) => Some(adjustments_text(adjustments)),
                None => None,
            },
        )
    }
}

pub open spec fn repeats_text(repeats: Seq<RepeatView>) -> Seq<u8>
    decreases repeats.len(),
{
    if repeats.len() == 0 {
        Seq::<u8>::empty()
    } else {
        repeats_text(repeats.drop_last()) + repeats.last().text()
    }
}

impl MediaItemView {
    /// The lines of one media item: the media description, the title, the connection, the
    /// bandwidths and the attributes.
    pub open spec fn text(self) -> Seq<u8> {
        line_text(lit("m="), self.media.text()) + optional_line_text(lit("i="), self.title)
            + optional_line_text(
            lit("c="),
            match self.connection {
                Some(connection) => Some(connection.text()),
                None => None,
            },
        ) + lines_text(lit("b="), bandwidth_texts(self.bandwidth)) + lines_text(
            lit("a="),
            attribute_texts(self.attributes),
        )
    }
}

pub open spec fn media_text(media: Seq<MediaItemView>) -> Seq<u8>
    decreases media.len(),
{
    if media.len() == 0 {
        Seq::<u8>::empty()
    } else {
        media_text(media.drop_last()) + media.last().text()
    }
}

impl SdpView {
    /// The lines of the session, before those of the media items, in the order that the
    /// format prescribes: version, origin, session name, description, URI, email, phone,
    /// connection, bandwidths, active times, repetitions with their adjustments, attributes.
    pub open spec fn session_text(self) -> Seq<u8> {
        line_text(lit("v="), self.version.text()) + line_text(lit("o="), self.origin.text())
            + line_text(lit("s="), self.session_name) + optional_line_text(
            lit("i="),
            self.session_description,
        ) + optional_line_text(lit("u="), self.uri) + optional_line_text(lit("e="), self.email)
            + optional_line_text(lit("p="), self.phone) + optional_line_text(
            lit("c="),
            match self.connection {
                Some(connection) => Some(connection.text()),
                None => None,
            },
        ) + lines_text(lit("b="), bandwidth_texts(self.bandwidth)) + lines_text(
            lit("t="),
            time_texts(self.time_active),
        ) + repeats_text(self.repeats) + lines_text(lit("a="), attribute_texts(self.attributes))
    }

    /// The session description as text: the lines of the session, then those of each media
    /// item, every line ended by a line feed.
    pub open spec fn text(self) -> Seq<u8> {
        self.session_text() + media_text(self.media)
    }
}

fn push_line(out: &mut Vec<u8>, key: &str, value: &[u8])
    ensures
        final(out)@ == old(out)@ + line_text(lit(key), value@),
{
    push_all(out, key.as_bytes());
    push_all(out, value);
    out.push(LF);
    assert(final(out)@ =~= old(out)@ + line_text(lit(key), value@));
}

fn push_optional_line(out: &mut Vec<u8>, key: &str, value: &Option<Vec<u8>>)
    ensures
        final(out)@ == old(out)@ + optional_line_text(lit(key), option_view(*value)),
{
    match value {
        Some(value) => push_line(out, key, value.as_slice()),
        None => {
            assert(out@ =~= old(out)@ + Seq::<u8>::empty());
        },
    }
}

fn push_lines(out: &mut Vec<u8>, key: &str, values: &Vec<Vec<u8>>)
    ensures
        final(out)@ == old(out)@ + lines_text(lit(key), views(values@)),
{
    let ghost all = views(values@);
    let mut i: usize = 0;
    assert(all.take(0) =~= Seq::<Seq<u8>>::empty());
    assert(out@ =~= old(out)@ + lines_text(lit(key), all.take(0)));
    while i < values.len()
        invariant
            0 <= i <= values@.len(),
            all == views(values@),
            out@ == old(out)@ + lines_text(lit(key), all.take(i as int)),
        decreases values@.len() - i,
    {
        push_line(out, key, values[i].as_slice());
        proof {
            let next = all.take(i + 1);
            assert(next.drop_last() =~= all.take(i as int));
            assert(next.last() == values@[i as int]@);
            assert(out@ =~= old(out)@ + lines_text(lit(key), next));
        }
        i += 1;
    }
    assert(all.take(all.len() as int) =~= all);
}

fn bandwidths_to_bytes(items: &Vec<Bandwidth>) -> (r: Vec<Vec<u8>>)
    ensures
        views(r@) == bandwidth_texts(items@),
{
    let mut texts: Vec<Vec<u8>> = Vec::new();
    let mut i: usize = 0;
    while i < items.len()
        invariant
            0 <= i <= items@.len(),
            views(texts@) == bandwidth_texts(items@).take(i as int),
        decreases items@.len() - i,
    {
        let ghost before = views(texts@);
        let text = items[i].to_bytes();
        texts.push(text);
        assert(views(texts@) =~= before.push(items@[i as int].text()));
        i += 1;
        assert(views(texts@) =~= bandwidth_texts(items@).take(i as int));
    }
    assert(bandwidth_texts(items@).take(items@.len() as int) =~= bandwidth_texts(items@));
    texts
}

fn times_to_bytes(items: &Vec<TimeActive>) -> (r: Vec<Vec<u8>>)
    ensures
        views(r@) == time_texts(items@),
{
    let mut texts: Vec<Vec<u8>> = Vec::new();
    let mut i: usize = 0;
    while i < items.len()
        invariant
            0 <= i <= items@.len(),
            views(texts@) == time_texts(items@).take(i as int),
        decreases items@.len() - i,
    {
        let ghost before = views(texts@);
        let text = items[i].to_bytes();
        texts.push(text);
        assert(views(texts@) =~= before.push(items@[i as int].text()));
        i += 1;
        assert(views(texts@) =~= time_texts(items@).take(i as int));
    }
    assert(time_texts(items@).take(items@.len() as int) =~= time_texts(items@));
    texts
}

fn attributes_to_bytes(items: &Vec<Attribute>) -> (r: Vec<Vec<u8>>)
    ensures
        views(r@) == attribute_texts(views(items@)),
{
    let ghost all = attribute_texts(views(items@));
    let mut texts: Vec<Vec<u8>> = Vec::new();
    let mut i: usize = 0;
    while i < items.len()
        invariant
            0 <= i <= items@.len(),
            all == attribute_texts(views(items@)),
            views(texts@) == all.take(i as int),
        decreases items@.len() - i,
    {
        let ghost before = views(texts@);
        let text = items[i].to_bytes();
        texts.push(text);
        assert(views(texts@) =~= before.push(items@[i as int]@.text()));
        i += 1;
        assert(views(texts@) =~= all.take(i as int));
    }
    assert(all.take(items@.len() as int) =~= all);
    texts
}

fn connection_to_bytes(connection: &Option<Connection>) -> (r: Option<Vec<u8>>)
    ensures
        option_view(r) == match connection_view(*connection) {
            Some(connection) => Some(connection.text()),
            None => None,
        },
{
    match connection {
        Some(connection) => Some(connection.to_bytes()),
        None => None,
    }
}

impl Repeat {
    /// Appends the lines of the repetition to `out`.
    pub fn write(&self, out: &mut Vec<u8>)
        ensures
            final(out)@ == old(out)@ + self@.text(),
    {
        push_line(out, "r=", self.times.to_bytes().as_slice());
        match &self.timezone_adjustments {
            Some(adjustments) => push_line(out, "z=", adjustments.to_bytes().as_slice()),
            None => {},
        }
        assert(final(out)@ =~= old(out)@ + self@.text());
    }
}

impl MediaItem {
    /// Appends the lines of the media item to `out`.
    pub fn write(&self, out: &mut Vec<u8>)
        ensures
            final(out)@ == old(out)@ + self@.text(),
    {
        push_line(out, "m=", self.media.to_bytes().as_slice());
        push_optional_line(out, "i=", &self.title);
        push_optional_line(out, "c=", &connection_to_bytes(&self.connection));
        push_lines(out, "b=", &bandwidths_to_bytes(&self.bandwidth));
        push_lines(out, "a=", &attributes_to_bytes(&self.attributes));
        assert(final(out)@ =~= old(out)@ + self@.text());
    }
}

impl Sdp {
    /// The session description as text.
    pub fn to_bytes(&self) -> (r: Vec<u8>)
        ensures
            r@ == self@.text(),
    {
        let mut out: Vec<u8> = Vec::new();
        push_line(&mut out, "v=", self.version.as_str().as_bytes());
        push_line(&mut out, "o=", self.origin.to_bytes().as_slice());
        push_line(&mut out, "s=", self.session_name.as_slice());
        push_optional_line(&mut out, "i=", &self.session_description);
        push_optional_line(&mut out, "u=", &self.uri);
        push_optional_line(&mut out, "e=", &self.email);
        push_optional_line(&mut out, "p=", &self.phone);
        push_optional_line(&mut out, "c=", &connection_to_bytes(&self.connection));
        push_lines(&mut out, "b=", &bandwidths_to_bytes(&self.bandwidth));
        push_lines(&mut out, "t=", &times_to_bytes(&self.time_active));
        let ghost head = out@;
        let ghost repeats = views(self.repeats@);
        let mut i: usize = 0;
        assert(repeats.take(0) =~= Seq::<RepeatView>::empty());
        assert(out@ =~= head + repeats_text(repeats.take(0)));
        while i < self.repeats.len()
            invariant
                0 <= i <= self.repeats@.len(),
                repeats == views(self.repeats@),
                out@ == head + repeats_text(repeats.take(i as int)),
            decreases self.repeats@.len() - i,
        {
            self.repeats[i].write(&mut out);
            proof {
                let next = repeats.take(i + 1);
                assert(next.drop_last() =~= repeats.take(i as int));
                assert(next.last() == self.repeats@[i as int]@);
                assert(out@ =~= head + repeats_text(next));
            }
            i += 1;
        }
        assert(repeats.take(repeats.len() as int) =~= repeats);
        push_lines(&mut out, "a=", &attributes_to_bytes(&self.attributes));
        assert(out@ =~= self@.session_text());
        let ghost session = out@;
        let ghost media = views(self.media@);
        let mut k: usize = 0;
        assert(media.take(0) =~= Seq::<MediaItemView>::empty());
        assert(out@ =~= session + media_text(media.take(0)));
        while k < self.media.len()
            invariant
                0 <= k <= self.media@.len(),
                media == views(self.media@),
                out@ == session + media_text(media.take(k as int)),
            decreases self.media@.len() - k,
        {
            self.media[k].write(&mut out);
            proof {
                let next = media.take(k + 1);
                assert(next.drop_last() =~= media.take(k as int));
                assert(next.last() == self.media@[k as int]@);
                assert(out@ =~= session + media_text(next));
            }
            k += 1;
        }
        assert(media.take(media.len() as int) =~= media);
        out
    }
}

/// The address type of `address`.
pub open spec fn address_type_of(address: IpAddressView) -> AddressType {
    match address {
        IpAddressView::V4(_, _, _, _) => AddressType::IpV4,
        IpAddressView::V6(_) => AddressType::IpV6,
    }
}

/// The origin of a session that `address` originates under the identifier `session_id`: no
/// user name, and version zero.
pub open spec fn origin_of(address: IpAddressView, session_id: u64) -> OriginView {
    OriginView {
        username: lit("-"),
        session_id: decimal(session_id as nat),
        session_version: lit("0"),
        network_type: NetworkType::Internet,
        address_type: address_type_of(address),
        unicast_address: address.text(),
    }
}

/// The connection to `address`.
pub open spec fn connection_of(address: IpAddressView) -> ConnectionView {
    ConnectionView {
        network_type: NetworkType::Internet,
        address_type: address_type_of(address),
        address: address.text(),
    }
}

/// The active time of a time range: from zero to zero for a session without end.
pub open spec fn time_active_of(time_range: TimeRange) -> TimeActive {
    match time_range {
        TimeRange::Live => TimeActive { start: 0, stop: 0 },
        TimeRange::Playback { start, end } => TimeActive { start, stop: end },
    }
}

/// The plain session description that `origin_address` originates under the identifier
/// `session_id`, for media at `destination`.
pub open spec fn plain_session(
    origin_address: IpAddressView,
    session_id: u64,
    name: Seq<u8>,
    destination: IpAddressView,
    time_range: TimeRange,
) -> SdpView {
    SdpView {
        version: Version::V0,
        origin: origin_of(origin_address, session_id),
        session_name: name,
        session_description: None,
        uri: None,
        email: None,
        phone: None,
        connection: Some(connection_of(destination)),
        bandwidth: Seq::<Bandwidth>::empty(),
        time_active: seq![time_active_of(time_range)],
        repeats: Seq::<RepeatView>::empty(),
        attributes: Seq::<AttributeView>::empty(),
        media: Seq::<MediaItemView>::empty(),
    }
}

/// The media item for a stream of `kind` under the payload type `format`, with the
/// attributes of its codec and then its direction.
pub open spec fn media_item_of(
    kind: Kind,
    title: Seq<u8>,
    port: u16,
    protocol: Protocol,
    format: usize,
    codec_attributes: Seq<AttributeView>,
    direction: Direction,
) -> MediaItemView {
    MediaItemView {
        media: Media { kind, port, protocol, format },
        title: Some(title),
        connection: None,
        bandwidth: Seq::<Bandwidth>::empty(),
        attributes: codec_attributes.push(AttributeView::Property(direction.text())),
    }
}

impl AddressType {
    /// The address type of `addr`.
    pub fn of_ip_addr(addr: &IpAddress) -> (r: AddressType)
        ensures
            r == address_type_of(addr@),
    {
        match addr {
            IpAddress::V4(_, _, _, _) => AddressType::IpV4,
            IpAddress::V6(_) => AddressType::IpV6,
        }
    }
}

/// The address type of `addr`.
pub fn ip_addr_type(addr: &IpAddress) -> (r: AddressType)
    ensures
        r == address_type_of(addr@),
{
    AddressType::of_ip_addr(addr)
}

impl Origin {
    /// The origin of a session that `ip_addr` originates under the identifier `session_id`.
    pub fn from_address(ip_addr: &IpAddress, session_id: u64) -> (r: Origin)
        ensures
            r@ == origin_of(ip_addr@, session_id),
    {
        Origin {
            username: text_of("-"),
            session_id: crate::text::decimal_bytes(session_id),
            session_version: text_of("0"),
            network_type: NetworkType::Internet,
            address_type: AddressType::of_ip_addr(ip_addr),
            unicast_address: ip_addr.to_bytes(),
        }
    }
}

impl Connection {
    /// The connection to `ip_addr`.
    pub fn from_address(ip_addr: &IpAddress) -> (r: Connection)
        ensures
            r@ == connection_of(ip_addr@),
    {
        Connection {
            network_type: NetworkType::Internet,
            address_type: AddressType::of_ip_addr(ip_addr),
            address: ip_addr.to_bytes(),
        }
    }
}

impl TimeActive {
    /// The active time of a time range.
    pub fn from_time_range(time_range: TimeRange) -> (r: TimeActive)
        ensures
            r == time_active_of(time_range),
    {
        match time_range {
            TimeRange::Live => TimeActive { start: 0, stop: 0 },
            TimeRange::Playback { start, end } => TimeActive { start, stop: end },
        }
    }
}

impl MediaItem {
    /// The media item for a stream of `kind` under the payload type `format`.
    pub fn for_stream(
        kind: Kind,
        title: &[u8],
        port: u16,
        protocol: Protocol,
        format: usize,
        codec_attributes: Vec<Attribute>,
        direction: Direction,
    ) -> (r: MediaItem)
        ensures
            r@ == media_item_of(
                kind,
                title@,
                port,
                protocol,
                format,
                views(codec_attributes@),
                direction,
            ),
    {
        let mut attributes = codec_attributes;
        let property = Attribute::Property(direction.to_bytes());
        attributes.push(property);
        assert(views(attributes@) =~= views(codec_attributes@).push(property@));
        MediaItem {
            media: Media { kind, port, protocol, format },
            title: Some(copy_of(title)),
            connection: None,
            bandwidth: Vec::new(),
            attributes,
        }
    }
}

impl Sdp {
    /// A plain session description that `origin` originates at the time of the call, whose
    /// seconds since 1970 are the identifier of the session.
    pub fn new(origin: IpAddress, name: &[u8], destination: IpAddress, time_range: TimeRange) -> (r:
        Sdp)
        ensures
            exists|session_id: u64|
                r@ == plain_session(origin@, session_id, name@, destination@, time_range),
    {
        let session_id = convert_time_to_unix_epoch(current_time());
        Sdp::with_session_id(origin, session_id, name, destination, time_range)
    }

    /// A plain session description that `origin` originates under the identifier
    /// `session_id`.
    pub fn with_session_id(
        origin: IpAddress,
        session_id: u64,
        name: &[u8],
        destination: IpAddress,
        time_range: TimeRange,
    ) -> (r: Sdp)
        ensures
            r@ == plain_session(origin@, session_id, name@, destination@, time_range),
    {
        let mut time_active: Vec<TimeActive> = Vec::new();
        time_active.push(TimeActive::from_time_range(time_range));
        let sdp = Sdp {
            version: Version::V0,
            origin: Origin::from_address(&origin, session_id),
            session_name: copy_of(name),
            session_description: None,
            uri: None,
            email: None,
            phone: None,
            connection: Some(Connection::from_address(&destination)),
            bandwidth: Vec::new(),
            time_active,
            repeats: Vec::new(),
            attributes: Vec::new(),
            media: Vec::new(),
        };
        assert(sdp@.time_active =~= seq![time_active_of(time_range)]);
        assert(sdp@.repeats =~= Seq::<RepeatView>::empty());
        assert(sdp@.attributes =~= Seq::<AttributeView>::empty());
        assert(sdp@.media =~= Seq::<MediaItemView>::empty());
        sdp
    }

    /// Adds a media item for a stream of `kind`, under the first dynamic payload type.
    pub fn with_media(
        self,
        kind: Kind,
        title: &[u8],
        port: u16,
        protocol: Protocol,
        codec_info: CodecInfo,
        direction: Direction,
    ) -> (r: Sdp)
        requires
            codec_info.describable(),
        ensures
            r@ == (SdpView {
                media: self@.media.push(
                    media_item_of(
                        kind,
                        title@,
                        port,
                        protocol,
                        FMT_RTP_PAYLOAD_DYNAMIC,
                        codec_info.attributes(),
                        direction,
                    ),
                ),
                ..self@
            }),
    {
        let item = MediaItem::for_stream(
            kind,
            title,
            port,
            protocol,
            FMT_RTP_PAYLOAD_DYNAMIC,
            codec_info.media_attributes(),
            direction,
        );
        let mut sdp = self;
        sdp.media.push(item);
        assert(views(sdp.media@) =~= self@.media.push(item@));
        sdp
    }
}

} // verus!
