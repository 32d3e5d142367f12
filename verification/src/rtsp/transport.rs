//! The `Transport` header: how a stream is to be carried.

use crate::ip::{IpAddress, IpAddressView};
use crate::rtsp::error::{Error, ErrorView};
use crate::rtsp::message::Method;
use crate::rtsp::rtp_info::{strip_prefix, stripped};
use crate::text::{
    bytes_eq, copy_of, decimal, ends_with, has_prefix, has_suffix, lit, parse_number,
    parse_unsigned, push_all, push_decimal, split, split_at_each, split_once, split_once_at,
    starts_with, views, DASH, EQUALS, QUOTE, SEMICOLON, SLASH,
};
use vstd::prelude::*;
use vstd::slice::slice_subrange;

verus! {

/// The transport below RTP.
#[derive(Debug, Clone, Copy, PartialEq, Eq, Structural)]
pub enum Lower {
    Tcp,
    Udp,
}

impl Lower {
    pub open spec fn text(self) -> Seq<u8> {
        match self {
            Lower::Tcp => lit("TCP"),
            Lower::Udp => lit("UDP"),
        }
    }

    pub open spec fn of_text(s: Seq<u8>) -> Option<Lower> {
        if s == lit("TCP") {
            Some(Lower::Tcp)
        } else if s == lit("UDP") {
            Some(Lower::Udp)
        } else {
            None
        }
    }

    pub fn to_bytes(&self) -> (r: Vec<u8>)
        ensures
            r@ == self.text(),
    {
        match self {
            Lower::Tcp => crate::text::text_of("TCP"),
            Lower::Udp => crate::text::text_of("UDP"),
        }
    }

    pub fn from_bytes(s: &[u8]) -> (r: Result<Lower, Error>)
        ensures
            match Lower::of_text(s@) {
                Some(lower) => r matches Ok(l) && l == lower,
                None => r matches Err(e) && e@ == (ErrorView::TransportLowerUnknown { value: s@ }),
            },
    {
        if bytes_eq(s, "TCP".as_bytes()) {
            Ok(Lower::Tcp)
        } else if bytes_eq(s, "UDP".as_bytes()) {
            Ok(Lower::Udp)
        } else {
            Err(Error::TransportLowerUnknown { value: copy_of(s) })
        }
    }
}


/// One channel, or a range of them.
#[derive(Debug, Clone, Copy, PartialEq, Eq, Structural)]
pub enum Channel {
    Single(u8),
    Range(u8, u8),
}

impl Channel {
    pub open spec fn text(self) -> Seq<u8> {
        match self {
            Channel::Single(first) => decimal(first as nat),
            Channel::Range(first, second) => decimal(first as nat) + seq![DASH] + decimal(
                second as nat,
            ),
        }
    }

    /// Reading of one channel or of two with a dash between them. What follows a second dash
    /// is not read.
    pub open spec fn of_text(s: Seq<u8>) -> Option<Channel> {
        let parts = split(s, DASH);
        match parse_unsigned(parts[0], u8::MAX as nat) {
            None => None,
            Some(first) => if parts.len() < 2 {
                Some(Channel::Single(first as u8))
            } else {
                match parse_unsigned(parts[1], u8::MAX as nat) {
                    None => None,
                    Some(second) => Some(Channel::Range(first as u8, second as u8)),
                }
            },
        }
    }

    pub fn to_bytes(&self) -> (r: Vec<u8>)
        ensures
            r@ == self.text(),
    {
        let mut out: Vec<u8> = Vec::new();
        match self {
            Channel::Single(first) => {
                push_decimal(&mut out, *first as u64);
                assert(out@ =~= self.text());
            },
            Channel::Range(first, second) => {
                push_decimal(&mut out, *first as u64);
                out.push(DASH);
                push_decimal(&mut out, *second as u64);
                assert(out@ =~= self.text());
            },
        }
        out
    }

    pub fn from_bytes(s: &[u8]) -> (r: Result<Channel, Error>)
        ensures
            match Channel::of_text(s@) {
                Some(value) => r matches Ok(v) && v == value,
                None => r matches Err(e) && e@ == (ErrorView::TransportChannelMalformed { value: s@ }),
            },
    {
        let parts = split_at_each(s, DASH);
        assert(views(parts@)[0] == parts@[0]@);
        let first = match parse_number(parts[0].as_slice(), u8::MAX as u64) {
            Some(first) => first as u8,
            None => {
                return Err(Error::TransportChannelMalformed { value: copy_of(s) });
            },
        };
        if parts.len() < 2 {
            return Ok(Channel::Single(first));
        }
        assert(views(parts@)[1] == parts@[1]@);
        match parse_number(parts[1].as_slice(), u8::MAX as u64) {
            Some(second) => Ok(Channel::Range(first, second as u8)),
            None => Err(Error::TransportChannelMalformed { value: copy_of(s) }),
        }
    }
}


/// One port, or a range of them.
#[derive(Debug, Clone, Copy, PartialEq, Eq, Structural)]
pub enum Port {
    Single(u16),
    Range(u16, u16),
}

impl Port {
    pub open spec fn text(self) -> Seq<u8> {
        match self {
            Port::Single(first) => decimal(first as nat),
            Port::Range(first, second) => decimal(first as nat) + seq![DASH] + decimal(
                second as nat,
            ),
        }
    }

    /// Reading of one port or of two with a dash between them. What follows a second dash
    /// is not read.
    pub open spec fn of_text(s: Seq<u8>) -> Option<Port> {
        let parts = split(s, DASH);
        match parse_unsigned(parts[0], u16::MAX as nat) {
            None => None,
            Some(first) => if parts.len() < 2 {
                Some(Port::Single(first as u16))
            } else {
                match parse_unsigned(parts[1], u16::MAX as nat) {
                    None => None,
                    Some(second) => Some(Port::Range(first as u16, second as u16)),
                }
            },
        }
    }

    pub fn to_bytes(&self) -> (r: Vec<u8>)
        ensures
            r@ == self.text(),
    {
        let mut out: Vec<u8> = Vec::new();
        match self {
            Port::Single(first) => {
                push_decimal(&mut out, *first as u64);
                assert(out@ =~= self.text());
            },
            Port::Range(first, second) => {
                push_decimal(&mut out, *first as u64);
                out.push(DASH);
                push_decimal(&mut out, *second as u64);
                assert(out@ =~= self.text());
            },
        }
        out
    }

    pub fn from_bytes(s: &[u8]) -> (r: Result<Port, Error>)
        ensures
            match Port::of_text(s@) {
                Some(value) => r matches Ok(v) && v == value,
                None => r matches Err(e) && e@ == (ErrorView::TransportPortMalformed { value: s@ }),
            },
    {
        let parts = split_at_each(s, DASH);
        assert(views(parts@)[0] == parts@[0]@);
        let first = match parse_number(parts[0].as_slice(), u16::MAX as u64) {
            Some(first) => first as u16,
            None => {
                return Err(Error::TransportPortMalformed { value: copy_of(s) });
            },
        };
        if parts.len() < 2 {
            return Ok(Port::Single(first));
        }
        assert(views(parts@)[1] == parts@[1]@);
        match parse_number(parts[1].as_slice(), u16::MAX as u64) {
            Some(second) => Ok(Port::Range(first, second as u16)),
            None => Err(Error::TransportPortMalformed { value: copy_of(s) }),
        }
    }
}


/// One parameter of a transport.
#[derive(Debug, Clone, PartialEq, Eq)]
pub enum Parameter {
    Unicast,
    Multicast,
    Destination(IpAddress),
    Interleaved(Channel),
    Append,
    Ttl(usize),
    Layers(usize),
    Port(Port),
    ClientPort(Port),
    ServerPort(Port),
    Ssrc(Vec<u8>),
    Mode(Method),
}

pub enum ParameterView {
    Unicast,
    Multicast,
    Destination(IpAddressView),
    Interleaved(Channel),
    Append,
    Ttl(usize),
    Layers(usize),
    Port(Port),
    ClientPort(Port),
    ServerPort(Port),
    Ssrc(Seq<u8>),
    Mode(Method),
}

impl View for Parameter {
    type V = ParameterView;

    open spec fn view(&self) -> ParameterView {
        match *self {
            Parameter::Unicast => ParameterView::Unicast,
            Parameter::Multicast => ParameterView::Multicast,
            Parameter::Destination(address) => ParameterView::Destination(address@),
            Parameter::Interleaved(channel) => ParameterView::Interleaved(channel),
            Parameter::Append => ParameterView::Append,
            Parameter::Ttl(ttl) => ParameterView::Ttl(ttl),
            Parameter::Layers(layers) => ParameterView::Layers(layers),
            Parameter::Port(port) => ParameterView::Port(port),
            Parameter::ClientPort(port) => ParameterView::ClientPort(port),
            Parameter::ServerPort(port) => ParameterView::ServerPort(port),
            Parameter::Ssrc(ssrc) => ParameterView::Ssrc(ssrc@),
            Parameter::Mode(method) => ParameterView::Mode(method),
        }
    }
}

/// The value of `mode` without its quotes: without a quote at its front, and without one at
/// its end. A value that begins with a quote and does not end with one is left as it is.
pub open spec fn unquoted(val: Seq<u8>) -> Seq<u8> {
    let inner = match stripped(val, seq![QUOTE]) {
        Some(inner) => inner,
        None => val,
    };
    if has_suffix(inner, seq![QUOTE]) {
        inner.take(inner.len() - 1)
    } else {
        val
    }
}

impl ParameterView {
    pub open spec fn text(self) -> Seq<u8> {
        match self {
            ParameterView::Unicast => lit("unicast"),
            ParameterView::Multicast => lit("multicast"),
            ParameterView::Destination(address) => lit("destination=") + address.text(),
            ParameterView::Interleaved(channel) => lit("interleaved=") + channel.text(),
            ParameterView::Append => lit("append"),
            ParameterView::Ttl(ttl) => lit("ttl=") + decimal(ttl as nat),
            ParameterView::Layers(layers) => lit("layers=") + decimal(layers as nat),
            ParameterView::Port(port) => lit("port=") + port.text(),
            ParameterView::ClientPort(port) => lit("client_port=") + port.text(),
            ParameterView::ServerPort(port) => lit("server_port=") + port.text(),
            ParameterView::Ssrc(ssrc) => lit("ssrc=") + ssrc,
            ParameterView::Mode(method) => lit("mode=\"") + method.text() + seq![QUOTE],
        }
    }

    /// Reading of the value `val` of the parameter `var`, for the parameters that take one.
    pub open spec fn of_value(var: Seq<u8>, val: Seq<u8>) -> Result<ParameterView, ErrorView> {
        let invalid = Err::<ParameterView, ErrorView>(
            ErrorView::TransportParameterValueInvalid { var, val },
        );
        if var == lit("destination") {
            match IpAddressView::of_text(val) {
                Some(address) => Ok(ParameterView::Destination(address)),
                None => invalid,
            }
        } else if var == lit("interleaved") {
            match Channel::of_text(val) {
                Some(channel) => Ok(ParameterView::Interleaved(channel)),
                None => invalid,
            }
        } else if var == lit("ttl") {
            match parse_unsigned(val, usize::MAX as nat) {
                Some(ttl) => Ok(ParameterView::Ttl(ttl as usize)),
                None => invalid,
            }
        } else if var == lit("layers") {
            match parse_unsigned(val, usize::MAX as nat) {
                Some(layers) => Ok(ParameterView::Layers(layers as usize)),
                None => invalid,
            }
        } else if var == lit("port") {
            match Port::of_text(val) {
                Some(port) => Ok(ParameterView::Port(port)),
                None => invalid,
            }
        } else if var == lit("client_port") {
            match Port::of_text(val) {
                Some(port) => Ok(ParameterView::ClientPort(port)),
                None => invalid,
            }
        } else if var == lit("server_port") {
            match Port::of_text(val) {
                Some(port) => Ok(ParameterView::ServerPort(port)),
                None => invalid,
            }
        } else if var == lit("ssrc") {
            Ok(ParameterView::Ssrc(val))
        } else {
            match Method::of_text(unquoted(val)) {
                Some(method) => Ok(ParameterView::Mode(method)),
                None => Err(
                    ErrorView::TransportParameterValueInvalid { var, val: unquoted(val) },
                ),
            }
        }
    }

    /// Whether `var` names a parameter that takes a value.
    pub open spec fn takes_value(var: Seq<u8>) -> bool {
        var == lit("destination") || var == lit("interleaved") || var == lit("ttl") || var == lit(
            "layers",
        ) || var == lit("port") || var == lit("client_port") || var == lit("server_port") || var
            == lit("ssrc") || var == lit("mode")
    }

    /// Reading of a parameter: its name, and behind an equals sign its value where it takes
    /// one. What follows a second equals sign is not read.
    #[verifier::opaque]
    pub open spec fn of_text(s: Seq<u8>) -> Result<ParameterView, ErrorView> {
        let parts = split(s, EQUALS);
        let var = parts[0];
        if var == lit("unicast") {
            Ok(ParameterView::Unicast)
        } else if var == lit("multicast") {
            Ok(ParameterView::Multicast)
        } else if var == lit("append") {
            Ok(ParameterView::Append)
        } else if ParameterView::takes_value(var) {
            if parts.len() < 2 {
                Err(ErrorView::TransportParameterValueMissing { var })
            } else {
                ParameterView::of_value(var, parts[1])
            }
        } else {
            Err(ErrorView::TransportParameterUnknown { var })
        }
    }
}

fn unquote<'a>(val: &'a [u8]) -> (r: &'a [u8])
    ensures
        r@ == unquoted(val@),
{
    let quote: [u8; 1] = [QUOTE];
    assert(quote@ =~= seq![QUOTE]);
    let inner = match strip_prefix(val, quote.as_slice()) {
        Some(inner) => inner,
        None => val,
    };
    if ends_with(inner, quote.as_slice()) {
        let r = slice_subrange(inner, 0, inner.len() - 1);
        assert(r@ =~= inner@.take(inner@.len() - 1));
        r
    } else {
        val
    }
}

impl Parameter {
    pub fn to_bytes(&self) -> (r: Vec<u8>)
        ensures
            r@ == self@.text(),
    {
        let mut out: Vec<u8> = Vec::new();
        match self {
            Parameter::Unicast => push_all(&mut out, "unicast".as_bytes()),
            Parameter::Multicast => push_all(&mut out, "multicast".as_bytes()),
            Parameter::Destination(address) => {
                push_all(&mut out, "destination=".as_bytes());
                push_all(&mut out, address.to_bytes().as_slice());
            },
            Parameter::Interleaved(channel) => {
                push_all(&mut out, "interleaved=".as_bytes());
                push_all(&mut out, channel.to_bytes().as_slice());
            },
            Parameter::Append => push_all(&mut out, "append".as_bytes()),
            Parameter::Ttl(ttl) => {
                push_all(&mut out, "ttl=".as_bytes());
                push_decimal(&mut out, *ttl as u64);
            },
            Parameter::Layers(layers) => {
                push_all(&mut out, "layers=".as_bytes());
                push_decimal(&mut out, *layers as u64);
            },
            Parameter::Port(port) => {
                push_all(&mut out, "port=".as_bytes());
                push_all(&mut out, port.to_bytes().as_slice());
            },
            Parameter::ClientPort(port) => {
                push_all(&mut out, "client_port=".as_bytes());
                push_all(&mut out, port.to_bytes().as_slice());
            },
            Parameter::ServerPort(port) => {
                push_all(&mut out, "server_port=".as_bytes());
                push_all(&mut out, port.to_bytes().as_slice());
            },
            Parameter::Ssrc(ssrc) => {
                push_all(&mut out, "ssrc=".as_bytes());
                push_all(&mut out, ssrc.as_slice());
            },
            Parameter::Mode(method) => {
                push_all(&mut out, "mode=\"".as_bytes());
                push_all(&mut out, method.to_bytes().as_slice());
                out.push(QUOTE);
            },
        }
        assert(out@ =~= self@.text());
        out
    }

    fn from_value(var: &[u8], val: &[u8]) -> (r: Result<Parameter, Error>)
        requires
            ParameterView::takes_value(var@),
        ensures
            match ParameterView::of_value(var@, val@) {
                Ok(parameter) => r matches Ok(p) && p@ == parameter,
                Err(e) => r matches Err(x) && x@ == e,
            },
    {
        if bytes_eq(var, "destination".as_bytes()) {
            match IpAddress::from_bytes(val) {
                Some(address) => Ok(Parameter::Destination(address)),
                None => Err(invalid_value(var, val)),
            }
        } else if bytes_eq(var, "interleaved".as_bytes()) {
            match Channel::from_bytes(val) {
                Ok(channel) => Ok(Parameter::Interleaved(channel)),
                Err(_) => Err(invalid_value(var, val)),
            }
        } else if bytes_eq(var, "ttl".as_bytes()) {
            match parse_number(val, usize::MAX as u64) {
                Some(ttl) => Ok(Parameter::Ttl(ttl as usize)),
                None => Err(invalid_value(var, val)),
            }
        } else if bytes_eq(var, "layers".as_bytes()) {
            match parse_number(val, usize::MAX as u64) {
                Some(layers) => Ok(Parameter::Layers(layers as usize)),
                None => Err(invalid_value(var, val)),
            }
        } else if bytes_eq(var, "port".as_bytes()) {
            match Port::from_bytes(val) {
                Ok(port) => Ok(Parameter::Port(port)),
                Err(_) => Err(invalid_value(var, val)),
            }
        } else if bytes_eq(var, "client_port".as_bytes()) {
            match Port::from_bytes(val) {
                Ok(port) => Ok(Parameter::ClientPort(port)),
                Err(_) => Err(invalid_value(var, val)),
            }
        } else if bytes_eq(var, "server_port".as_bytes()) {
            match Port::from_bytes(val) {
                Ok(port) => Ok(Parameter::ServerPort(port)),
                Err(_) => Err(invalid_value(var, val)),
            }
        } else if bytes_eq(var, "ssrc".as_bytes()) {
            Ok(Parameter::Ssrc(copy_of(val)))
        } else {
            let val = unquote(val);
            match Method::from_bytes(val) {
                Ok(method) => Ok(Parameter::Mode(method)),
                Err(_) => Err(invalid_value(var, val)),
            }
        }
    }

    /// Reads a parameter.
    pub fn from_bytes(s: &[u8]) -> (r: Result<Parameter, Error>)
        ensures
            match ParameterView::of_text(s@) {
                Ok(parameter) => r matches Ok(p) && p@ == parameter,
                Err(e) => r matches Err(x) && x@ == e,
            },
    {
        reveal(ParameterView::of_text);
        let parts = split_at_each(s, EQUALS);
        assert(views(parts@)[0] == parts@[0]@);
        let var = parts[0].as_slice();
        if bytes_eq(var, "unicast".as_bytes()) {
            Ok(Parameter::Unicast)
        } else if bytes_eq(var, "multicast".as_bytes()) {
            Ok(Parameter::Multicast)
        } else if bytes_eq(var, "append".as_bytes()) {
            Ok(Parameter::Append)
        } else if bytes_eq(var, "destination".as_bytes()) || bytes_eq(var, "interleaved".as_bytes())
            || bytes_eq(var, "ttl".as_bytes()) || bytes_eq(var, "layers".as_bytes()) || bytes_eq(
            var,
            "port".as_bytes(),
        ) || bytes_eq(var, "client_port".as_bytes()) || bytes_eq(var, "server_port".as_bytes())
            || bytes_eq(var, "ssrc".as_bytes()) || bytes_eq(var, "mode".as_bytes()) {
            if parts.len() < 2 {
                Err(Error::TransportParameterValueMissing { var: copy_of(var) })
            } else {
                assert(views(parts@)[1] == parts@[1]@);
                Parameter::from_value(var, parts[1].as_slice())
            }
        } else {
            Err(Error::TransportParameterUnknown { var: copy_of(var) })
        }
    }
}

fn invalid_value(var: &[u8], val: &[u8]) -> (e: Error)
    ensures
        e@ == (ErrorView::TransportParameterValueInvalid { var: var@, val: val@ }),
{
    Error::TransportParameterValueInvalid { var: copy_of(var), val: copy_of(val) }
}

/// How a stream is to be carried: RTP with the AVP profile, over a lower transport if one is
/// named, with parameters.
#[derive(Debug, Clone, PartialEq, Eq)]
pub struct Transport {
    lower: Option<Lower>,
    parameters: Vec<Parameter>,
}

pub struct TransportView {
    pub lower: Option<Lower>,
    pub parameters: Seq<ParameterView>,
}

impl View for Transport {
    type V = TransportView;

    closed spec fn view(&self) -> TransportView {
        TransportView { lower: self.lower, parameters: views(self.parameters@) }
    }
}

/// The texts of `parameters`, each behind a semicolon.
pub open spec fn parameters_text(parameters: Seq<ParameterView>) -> Seq<u8>
    decreases parameters.len(),
{
    if parameters.len() == 0 {
        Seq::<u8>::empty()
    } else {
        parameters_text(parameters.drop_last()) + seq![SEMICOLON] + parameters.last().text()
    }
}

/// Reading of parameters, one after the other: all of them, or the first error.
pub open spec fn parameters_parsed(parts: Seq<Seq<u8>>) -> Result<Seq<ParameterView>, ErrorView>
    decreases parts.len(),
{
    if parts.len() == 0 {
        Ok(Seq::<ParameterView>::empty())
    } else {
        match parameters_parsed(parts.drop_last()) {
            Err(e) => Err(e),
            Ok(parameters) => match ParameterView::of_text(parts.last()) {
                Err(e) => Err(e),
                Ok(parameter) => Ok(parameters.push(parameter)),
            },
        }
    }
}

impl TransportView {
    pub open spec fn text(self) -> Seq<u8> {
        lit("RTP/AVP") + (match self.lower {
            Some(lower) => seq![SLASH] + lower.text(),
            None => Seq::<u8>::empty(),
        }) + parameters_text(self.parameters)
    }

    /// Reading of a transport: `RTP/AVP`, a slash and the lower transport if one is named,
    /// then the parameters, each behind a semicolon.
    pub open spec fn of_text(s: Seq<u8>) -> Result<TransportView, ErrorView> {
        let (spec, params) = match split_once(s, SEMICOLON) {
            Some((spec, params)) => (spec, Some(params)),
            None => (s, None),
        };
        if !has_prefix(spec, lit("RTP/AVP")) {
            Err(ErrorView::TransportProtocolProfileMissing { value: s })
        } else {
            let levels = split(spec, SLASH);
            let lower = if levels.len() < 3 {
                Ok(None)
            } else {
                match Lower::of_text(levels[2]) {
                    Some(lower) => Ok(Some(lower)),
                    None => Err(ErrorView::TransportLowerUnknown { value: levels[2] }),
                }
            };
            match lower {
                Err(e) => Err(e),
                Ok(lower) => match params {
                    None => Ok(TransportView { lower, parameters: Seq::<ParameterView>::empty() }),
                    Some(params) => match parameters_parsed(split(params, SEMICOLON)) {
                        Ok(parameters) => Ok(TransportView { lower, parameters }),
                        Err(e) => Err(e),
                    },
                },
            }
        }
    }


    /// The first `Destination` parameter.
    pub open spec fn destination(self) -> Option<IpAddressView> {
        first_destination(self.parameters)
    }

    /// The first `Port` parameter.
    pub open spec fn port(self) -> Option<Port> {
        first_port(self.parameters)
    }

    /// The first `ClientPort` parameter.
    pub open spec fn client_port(self) -> Option<Port> {
        first_client_port(self.parameters)
    }

    /// The first `ServerPort` parameter.
    pub open spec fn server_port(self) -> Option<Port> {
        first_server_port(self.parameters)
    }

    /// The first `Interleaved` parameter.
    pub open spec fn interleaved_channel(self) -> Option<Channel> {
        first_interleaved_channel(self.parameters)
    }
}

/// The value of the first `Destination` among `parameters`.
pub open spec fn first_destination(parameters: Seq<ParameterView>) -> Option<IpAddressView>
    decreases parameters.len(),
{
    if parameters.len() == 0 {
        None
    } else {
        match parameters[0] {
            ParameterView::Destination(value) => Some(value),
            _ => first_destination(parameters.skip(1)),
        }
    }
}

/// The value of the first `Port` among `parameters`.
pub open spec fn first_port(parameters: Seq<ParameterView>) -> Option<Port>
    decreases parameters.len(),
{
    if parameters.len() == 0 {
        None
    } else {
        match parameters[0] {
            ParameterView::Port(value) => Some(value),
            _ => first_port(parameters.skip(1)),
        }
    }
}

/// The value of the first `ClientPort` among `parameters`.
pub open spec fn first_client_port(parameters: Seq<ParameterView>) -> Option<Port>
    decreases parameters.len(),
{
    if parameters.len() == 0 {
        None
    } else {
        match parameters[0] {
            ParameterView::ClientPort(value) => Some(value),
            _ => first_client_port(parameters.skip(1)),
        }
    }
}

/// The value of the first `ServerPort` among `parameters`.
pub open spec fn first_server_port(parameters: Seq<ParameterView>) -> Option<Port>
    decreases parameters.len(),
{
    if parameters.len() == 0 {
        None
    } else {
        match parameters[0] {
            ParameterView::ServerPort(value) => Some(value),
            _ => first_server_port(parameters.skip(1)),
        }
    }
}

/// The value of the first `Interleaved` among `parameters`.
pub open spec fn first_interleaved_channel(parameters: Seq<ParameterView>) -> Option<Channel>
    decreases parameters.len(),
{
    if parameters.len() == 0 {
        None
    } else {
        match parameters[0] {
            ParameterView::Interleaved(value) => Some(value),
            _ => first_interleaved_channel(parameters.skip(1)),
        }
    }
}

impl Transport {
    /// A transport with no lower transport named and no parameters.
    pub fn new() -> (r: Transport)
        ensures
            r@ == (TransportView { lower: None, parameters: Seq::<ParameterView>::empty() }),
    {
        let parameters: Vec<Parameter> = Vec::new();
        assert(views(parameters@) =~= Seq::<ParameterView>::empty());
        Transport { lower: None, parameters }
    }

    pub fn with_lower_protocol(self, lower: Lower) -> (r: Transport)
        ensures
            r@ == (TransportView { lower: Some(lower), ..self@ }),
    {
        let mut transport = self;
        transport.lower = Some(lower);
        transport
    }

    pub fn with_parameter(self, parameter: Parameter) -> (r: Transport)
        ensures
            r@ == (TransportView { parameters: self@.parameters.push(parameter@), ..self@ }),
    {
        let mut transport = self;
        transport.parameters.push(parameter);
        assert(views(transport.parameters@) =~= self@.parameters.push(parameter@));
        transport
    }

    pub fn with_parameters(self, parameters: Vec<Parameter>) -> (r: Transport)
        ensures
            r@ == (TransportView { parameters: self@.parameters + views(parameters@), ..self@ }),
    {
        let mut transport = self;
        let mut parameters = parameters;
        let ghost added = views(parameters@);
        transport.parameters.append(&mut parameters);
        assert(views(transport.parameters@) =~= self@.parameters + added);
        transport
    }

    pub fn lower_protocol(&self) -> (r: Option<&Lower>)
        ensures
            match r {
                Some(lower) => self@.lower == Some(*lower),
                None => self@.lower is None,
            },
    {
        self.lower.as_ref()
    }

    pub fn parameters(&self) -> (r: &Vec<Parameter>)
        ensures
            views(r@) == self@.parameters,
    {
        &self.parameters
    }


    pub fn destination(&self) -> (r: Option<&IpAddress>)
        ensures
            match r {
                Some(address) => self@.destination() == Some(address@),
                None => self@.destination() is None,
            },
    {
        let ghost all = views(self.parameters@);
        let mut i: usize = 0;
        assert(all.skip(0) =~= all);
        while i < self.parameters.len()
            invariant
                0 <= i <= self.parameters@.len(),
                all == views(self.parameters@),
                first_destination(all) == first_destination(all.skip(i as int)),
            decreases self.parameters@.len() - i,
        {
            assert(all.skip(i as int)[0] == self.parameters@[i as int]@);
            if let Parameter::Destination(address) = &self.parameters[i] {
                return Some(address);
            }
            assert(all.skip(i as int).skip(1) =~= all.skip(i + 1));
            i += 1;
        }
        None
    }

    pub fn port(&self) -> (r: Option<&Port>)
        ensures
            match r {
                Some(port) => self@.port() == Some(*port),
                None => self@.port() is None,
            },
    {
        let ghost all = views(self.parameters@);
        let mut i: usize = 0;
        assert(all.skip(0) =~= all);
        while i < self.parameters.len()
            invariant
                0 <= i <= self.parameters@.len(),
                all == views(self.parameters@),
                first_port(all) == first_port(all.skip(i as int)),
            decreases self.parameters@.len() - i,
        {
            assert(all.skip(i as int)[0] == self.parameters@[i as int]@);
            if let Parameter::Port(port) = &self.parameters[i] {
                return Some(port);
            }
            assert(all.skip(i as int).skip(1) =~= all.skip(i + 1));
            i += 1;
        }
        None
    }

    pub fn client_port(&self) -> (r: Option<&Port>)
        ensures
            match r {
                Some(port) => self@.client_port() == Some(*port),
                None => self@.client_port() is None,
            },
    {
        let ghost all = views(self.parameters@);
        let mut i: usize = 0;
        assert(all.skip(0) =~= all);
        while i < self.parameters.len()
            invariant
                0 <= i <= self.parameters@.len(),
                all == views(self.parameters@),
                first_client_port(all) == first_client_port(all.skip(i as int)),
            decreases self.parameters@.len() - i,
        {
            assert(all.skip(i as int)[0] == self.parameters@[i as int]@);
            if let Parameter::ClientPort(port) = &self.parameters[i] {
                return Some(port);
            }
            assert(all.skip(i as int).skip(1) =~= all.skip(i + 1));
            i += 1;
        }
        None
    }

    pub fn server_port(&self) -> (r: Option<&Port>)
        ensures
            match r {
                Some(port) => self@.server_port() == Some(*port),
                None => self@.server_port() is None,
            },
    {
        let ghost all = views(self.parameters@);
        let mut i: usize = 0;
        assert(all.skip(0) =~= all);
        while i < self.parameters.len()
            invariant
                0 <= i <= self.parameters@.len(),
                all == views(self.parameters@),
                first_server_port(all) == first_server_port(all.skip(i as int)),
            decreases self.parameters@.len() - i,
        {
            assert(all.skip(i as int)[0] == self.parameters@[i as int]@);
            if let Parameter::ServerPort(port) = &self.parameters[i] {
                return Some(port);
            }
            assert(all.skip(i as int).skip(1) =~= all.skip(i + 1));
            i += 1;
        }
        None
    }

    pub fn interleaved_channel(&self) -> (r: Option<&Channel>)
        ensures
            match r {
                Some(channel) => self@.interleaved_channel() == Some(*channel),
                None => self@.interleaved_channel() is None,
            },
    {
        let ghost all = views(self.parameters@);
        let mut i: usize = 0;
        assert(all.skip(0) =~= all);
        while i < self.parameters.len()
            invariant
                0 <= i <= self.parameters@.len(),
                all == views(self.parameters@),
                first_interleaved_channel(all) == first_interleaved_channel(all.skip(i as int)),
            decreases self.parameters@.len() - i,
        {
            assert(all.skip(i as int)[0] == self.parameters@[i as int]@);
            if let Parameter::Interleaved(channel) = &self.parameters[i] {
                return Some(channel);
            }
            assert(all.skip(i as int).skip(1) =~= all.skip(i + 1));
            i += 1;
        }
        None
    }

    /// The text of the transport.
    pub fn to_bytes(&self) -> (r: Vec<u8>)
        ensures
            r@ == self@.text(),
    {
        let mut out: Vec<u8> = Vec::new();
        push_all(&mut out, "RTP/AVP".as_bytes());
        if let Some(lower) = &self.lower {
            out.push(SLASH);
            push_all(&mut out, lower.to_bytes().as_slice());
        }
        let ghost head = out@;
        let ghost all = views(self.parameters@);
        let mut i: usize = 0;
        assert(all.take(0) =~= Seq::<ParameterView>::empty());
        assert(out@ =~= head + parameters_text(all.take(0)));
        while i < self.parameters.len()
            invariant
                0 <= i <= self.parameters@.len(),
                all == views(self.parameters@),
                out@ == head + parameters_text(all.take(i as int)),
            decreases self.parameters@.len() - i,
        {
            let ghost before = out@;
            out.push(SEMICOLON);
            push_all(&mut out, self.parameters[i].to_bytes().as_slice());
            proof {
                let next = all.take(i + 1);
                assert(next.drop_last() =~= all.take(i as int));
                assert(next.last() == self.parameters@[i as int]@);
                assert(out@ =~= head + parameters_text(next));
            }
            i += 1;
        }
        assert(all.take(all.len() as int) =~= all);
        assert(out@ =~= self@.text());
        out
    }

    /// Reads a transport.
    pub fn from_bytes(s: &[u8]) -> (r: Result<Transport, Error>)
        ensures
            match TransportView::of_text(s@) {
                Ok(transport) => r matches Ok(t) && t@ == transport,
                Err(e) => r matches Err(x) && x@ == e,
            },
    {
        let (spec, params) = match split_once_at(s, SEMICOLON) {
            Some((spec, params)) => (spec, Some(params)),
            None => (s, None),
        };
        if !starts_with(spec, "RTP/AVP".as_bytes()) {
            return Err(Error::TransportProtocolProfileMissing { value: copy_of(s) });
        }
        let levels = split_at_each(spec, SLASH);
        let lower = if levels.len() < 3 {
            None
        } else {
            assert(views(levels@)[2] == levels@[2]@);
            match Lower::from_bytes(levels[2].as_slice()) {
                Ok(lower) => Some(lower),
                Err(e) => {
                    return Err(e);
                },
            }
        };
        let parameters = match params {
            Some(params) => match parse_parameters(params) {
                Ok(parameters) => parameters,
                Err(e) => {
                    return Err(e);
                },
            },
            None => {
                let parameters: Vec<Parameter> = Vec::new();
                assert(views(parameters@) =~= Seq::<ParameterView>::empty());
                parameters
            },
        };
        Ok(Transport { lower, parameters })
    }
}

impl Default for Transport {
    #[inline]
    fn default() -> (r: Transport)
        ensures
            r@ == (TransportView { lower: None, parameters: Seq::<ParameterView>::empty() }),
    {
        Transport::new()
    }
}

/// Reads the parameters of a transport, which stand with semicolons between them.
fn parse_parameters(params: &[u8]) -> (r: Result<Vec<Parameter>, Error>)
    ensures
        match parameters_parsed(split(params@, SEMICOLON)) {
            Ok(parameters) => r matches Ok(p) && views(p@) == parameters,
            Err(e) => r matches Err(x) && x@ == e,
        },
{
    let mut parameters: Vec<Parameter> = Vec::new();
    let parts = split_at_each(params, SEMICOLON);
    let ghost all = views(parts@);
    let mut i: usize = 0;
    assert(all.take(0) =~= Seq::<Seq<u8>>::empty());
    assert(views(parameters@) =~= Seq::<ParameterView>::empty());
    while i < parts.len()
        invariant
            0 <= i <= parts@.len(),
            all == views(parts@),
            all == split(params@, SEMICOLON),
            parameters_parsed(all.take(i as int)) == Ok::<Seq<ParameterView>, ErrorView>(
                views(parameters@),
            ),
        decreases parts@.len() - i,
    {
        proof {
            let next = all.take(i + 1);
            assert(next.drop_last() =~= all.take(i as int));
            assert(next.last() == parts@[i as int]@);
        }
        let ghost before = views(parameters@);
        match Parameter::from_bytes(parts[i].as_slice()) {
            Ok(parameter) => {
                parameters.push(parameter);
                assert(views(parameters@) =~= before.push(parameter@));
            },
            Err(e) => {
                proof {
                    assert(parameters_parsed(all.take(i + 1)) == Err::<
                        Seq<ParameterView>,
                        ErrorView,
                    >(e@));
                    lemma_parameters_parsed_fails(all, i + 1);
                }
                return Err(e);
            },
        }
        i += 1;
    }
    assert(all.take(all.len() as int) =~= all);
    Ok(parameters)
}

/// An error among the first parameters is the error of them all.
proof fn lemma_parameters_parsed_fails(parts: Seq<Seq<u8>>, k: int)
    requires
        0 <= k <= parts.len(),
        parameters_parsed(parts.take(k)) is Err,
    ensures
        parameters_parsed(parts) == parameters_parsed(parts.take(k)),
    decreases parts.len() - k,
{
    if k < parts.len() {
        assert(parts.take(k + 1).drop_last() =~= parts.take(k));
        lemma_parameters_parsed_fails(parts, k + 1);
    } else {
        assert(parts.take(k) =~= parts);
    }
}

} // verus!
