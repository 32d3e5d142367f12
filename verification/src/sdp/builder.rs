//! Building a session description step by step.

use crate::ip::{IpAddress, IpAddressView};
use crate::sdp::codec::Parameters;
use crate::sdp::error::{Error, ErrorView};
use crate::sdp::sdp::{
    media_item_of, plain_session, time_active_of, Attribute, AttributeView, Direction, Kind,
    MediaItem, OriginView, Protocol, Sdp, SdpView, TimeActive,
};
use crate::sdp::time_range::{convert_time_to_unix_epoch, current_time, TimeRange};
use crate::text::{copy_of, views};
use vstd::prelude::*;

verus! {

/// The first dynamic payload type.
pub const DYNAMIC_PAYLOAD_TYPE_FIRST: u8 = 96;

/// The payload type behind the last dynamic one.
pub const DYNAMIC_PAYLOAD_TYPE_END: u8 = 128;

/// Builds a session description, giving each media item the next dynamic payload type.
pub struct Builder {
    sdp: Sdp,
    dynamic_payload_type_counter: u8,
}

pub struct BuilderView {
    pub sdp: SdpView,
    pub next_payload_type: u8,
}

impl View for Builder {
    type V = BuilderView;

    closed spec fn view(&self) -> BuilderView {
        BuilderView { sdp: self.sdp@, next_payload_type: self.dynamic_payload_type_counter }
    }
}

impl BuilderView {
    /// The builder after a media item was added: the item has the next dynamic payload type
    /// and the attributes of its codec under that type, and the type is used up. Where the
    /// dynamic payload types are used up, there is no such builder.
    pub open spec fn with_media(
        self,
        kind: Kind,
        title: Seq<u8>,
        port: u16,
        protocol: Protocol,
        direction: Direction,
        codec_attributes: Seq<AttributeView>,
    ) -> Result<BuilderView, ErrorView> {
        if DYNAMIC_PAYLOAD_TYPE_FIRST <= self.next_payload_type < DYNAMIC_PAYLOAD_TYPE_END {
            Ok(
                BuilderView {
                    sdp: SdpView {
                        media: self.sdp.media.push(
                            media_item_of(
                                kind,
                                title,
                                port,
                                protocol,
                                self.next_payload_type as usize,
                                codec_attributes,
                                direction,
                            ),
                        ),
                        ..self.sdp
                    },
                    next_payload_type: (self.next_payload_type + 1) as u8,
                },
            )
        } else {
            Err(ErrorView::TooManyMediaItems)
        }
    }
}

impl Builder {
    /// A builder for a session that `origin` originates at the time of the call, whose
    /// seconds since 1970 are the identifier of the session.
    pub fn new(name: &[u8], origin: IpAddress, destination: IpAddress, time_range: TimeRange) -> (r:
        Builder)
        ensures
            r@.next_payload_type == DYNAMIC_PAYLOAD_TYPE_FIRST,
            exists|session_id: u64|
                r@.sdp == plain_session(origin@, session_id, name@, destination@, time_range),
    {
        let session_id = convert_time_to_unix_epoch(current_time());
        Builder::with_session_id(name, origin, session_id, destination, time_range)
    }

    /// A builder for a session that `origin` originates under the identifier `session_id`.
    pub fn with_session_id(
        name: &[u8],
        origin: IpAddress,
        session_id: u64,
        destination: IpAddress,
        time_range: TimeRange,
    ) -> (r: Builder)
        ensures
            r@ == (BuilderView {
                sdp: plain_session(origin@, session_id, name@, destination@, time_range),
                next_payload_type: DYNAMIC_PAYLOAD_TYPE_FIRST,
            }),
    {
        Builder {
            sdp: Sdp::with_session_id(origin, session_id, name, destination, time_range),
            dynamic_payload_type_counter: DYNAMIC_PAYLOAD_TYPE_FIRST,
        }
    }

    #[inline]
    pub fn build(self) -> (r: Sdp)
        ensures
            r@ == self@.sdp,
    {
        self.sdp
    }

    #[inline]
    pub fn set_origin_username(&mut self, username: &[u8])
        ensures
            final(self)@ == (BuilderView {
                sdp: SdpView {
                    origin: OriginView { username: username@, ..old(self)@.sdp.origin },
                    ..old(self)@.sdp
                },
                ..old(self)@
            }),
    {
        self.sdp.origin.username = copy_of(username);
    }

    #[inline]
    pub fn with_origin_username(self, username: &[u8]) -> (r: Builder)
        ensures
            r@ == (BuilderView {
                sdp: SdpView {
                    origin: OriginView { username: username@, ..self@.sdp.origin },
                    ..self@.sdp
                },
                ..self@
            }),
    {
        let mut builder = self;
        builder.set_origin_username(username);
        builder
    }

    #[inline]
    pub fn set_description(&mut self, description: &[u8])
        ensures
            final(self)@ == (BuilderView {
                sdp: SdpView { session_description: Some(description@), ..old(self)@.sdp },
                ..old(self)@
            }),
    {
        self.sdp.session_description = Some(copy_of(description));
    }

    #[inline]
    pub fn with_description(self, description: &[u8]) -> (r: Builder)
        ensures
            r@ == (BuilderView {
                sdp: SdpView { session_description: Some(description@), ..self@.sdp },
                ..self@
            }),
    {
        let mut builder = self;
        builder.set_description(description);
        builder
    }

    #[inline]
    pub fn set_uri(&mut self, uri: &[u8])
        ensures
            final(self)@ == (BuilderView {
                sdp: SdpView { uri: Some(uri@), ..old(self)@.sdp },
                ..old(self)@
            }),
    {
        self.sdp.uri = Some(copy_of(uri));
    }

    #[inline]
    pub fn with_uri(self, uri: &[u8]) -> (r: Builder)
        ensures
            r@ == (BuilderView { sdp: SdpView { uri: Some(uri@), ..self@.sdp }, ..self@ }),
    {
        let mut builder = self;
        builder.set_uri(uri);
        builder
    }

    #[inline]
    pub fn set_email(&mut self, email: &[u8])
        ensures
            final(self)@ == (BuilderView {
                sdp: SdpView { email: Some(email@), ..old(self)@.sdp },
                ..old(self)@
            }),
    {
        self.sdp.email = Some(copy_of(email));
    }

    #[inline]
    pub fn with_email(self, email: &[u8]) -> (r: Builder)
        ensures
            r@ == (BuilderView { sdp: SdpView { email: Some(email@), ..self@.sdp }, ..self@ }),
    {
        let mut builder = self;
        builder.set_email(email);
        builder
    }

    #[inline]
    pub fn set_phone(&mut self, phone: &[u8])
        ensures
            final(self)@ == (BuilderView {
                sdp: SdpView { phone: Some(phone@), ..old(self)@.sdp },
                ..old(self)@
            }),
    {
        self.sdp.phone = Some(copy_of(phone));
    }

    #[inline]
    pub fn with_phone(self, phone: &[u8]) -> (r: Builder)
        ensures
            r@ == (BuilderView { sdp: SdpView { phone: Some(phone@), ..self@.sdp }, ..self@ }),
    {
        let mut builder = self;
        builder.set_phone(phone);
        builder
    }

    #[inline]
    pub fn add_time_active(&mut self, time_range: TimeRange)
        ensures
            final(self)@ == (BuilderView {
                sdp: SdpView {
                    time_active: old(self)@.sdp.time_active.push(time_active_of(time_range)),
                    ..old(self)@.sdp
                },
                ..old(self)@
            }),
    {
        self.sdp.time_active.push(TimeActive::from_time_range(time_range));
    }

    #[inline]
    pub fn with_time_active(self, time_range: TimeRange) -> (r: Builder)
        ensures
            r@ == (BuilderView {
                sdp: SdpView {
                    time_active: self@.sdp.time_active.push(time_active_of(time_range)),
                    ..self@.sdp
                },
                ..self@
            }),
    {
        let mut builder = self;
        builder.add_time_active(time_range);
        builder
    }

    #[inline]
    pub fn add_property(&mut self, property: &[u8])
        ensures
            final(self)@ == (BuilderView {
                sdp: SdpView {
                    attributes: old(self)@.sdp.attributes.push(AttributeView::Property(property@)),
                    ..old(self)@.sdp
                },
                ..old(self)@
            }),
    {
        let attribute = Attribute::Property(copy_of(property));
        self.sdp.attributes.push(attribute);
        assert(views(self.sdp.attributes@) =~= old(self)@.sdp.attributes.push(attribute@));
    }

    #[inline]
    pub fn with_property(self, property: &[u8]) -> (r: Builder)
        ensures
            r@ == (BuilderView {
                sdp: SdpView {
                    attributes: self@.sdp.attributes.push(AttributeView::Property(property@)),
                    ..self@.sdp
                },
                ..self@
            }),
    {
        let mut builder = self;
        builder.add_property(property);
        builder
    }

    #[inline]
    pub fn add_value(&mut self, var: &[u8], val: &[u8])
        ensures
            final(self)@ == (BuilderView {
                sdp: SdpView {
                    attributes: old(self)@.sdp.attributes.push(AttributeView::Value(var@, val@)),
                    ..old(self)@.sdp
                },
                ..old(self)@
            }),
    {
        let attribute = Attribute::Value(copy_of(var), copy_of(val));
        self.sdp.attributes.push(attribute);
        assert(views(self.sdp.attributes@) =~= old(self)@.sdp.attributes.push(attribute@));
    }

    #[inline]
    pub fn with_value(self, var: &[u8], val: &[u8]) -> (r: Builder)
        ensures
            r@ == (BuilderView {
                sdp: SdpView {
                    attributes: self@.sdp.attributes.push(AttributeView::Value(var@, val@)),
                    ..self@.sdp
                },
                ..self@
            }),
    {
        let mut builder = self;
        builder.add_value(var, val);
        builder
    }

    /// Adds a media item under the next dynamic payload type. Where the dynamic payload
    /// types are used up, nothing is added.
    #[inline]
    pub fn add_media<P: Parameters>(
        &mut self,
        kind: Kind,
        title: &[u8],
        port: u16,
        protocol: Protocol,
        direction: Direction,
        codec_parameters: P,
    ) -> (r: Result<(), Error>)
        requires
            codec_parameters.describable(),
        ensures
            match old(self)@.with_media(
                kind,
                title@,
                port,
                protocol,
                direction,
                codec_parameters.attributes_for(old(self)@.next_payload_type),
            ) {
                Ok(builder) => r is Ok && final(self)@ == builder,
                Err(e) => r matches Err(x) && x@ == e && final(self)@ == old(self)@,
            },
    {
        let dynamic_payload_type = self.dynamic_payload_type_counter;
        if dynamic_payload_type < DYNAMIC_PAYLOAD_TYPE_FIRST || dynamic_payload_type
            >= DYNAMIC_PAYLOAD_TYPE_END {
            return Err(Error::TooManyMediaItems);
        }
        self.dynamic_payload_type_counter += 1;
        let item = MediaItem::for_stream(
            kind,
            title,
            port,
            protocol,
            dynamic_payload_type as usize,
            codec_parameters.media_attributes(dynamic_payload_type),
            direction,
        );
        self.sdp.media.push(item);
        assert(views(self.sdp.media@) =~= old(self)@.sdp.media.push(item@));
        Ok(())
    }

    /// Adds a media item under the next dynamic payload type.
    #[inline]
    pub fn with_media<P: Parameters>(
        self,
        kind: Kind,
        title: &[u8],
        port: u16,
        protocol: Protocol,
        direction: Direction,
        codec_parameters: P,
    ) -> (r: Result<Builder, Error>)
        requires
            codec_parameters.describable(),
        ensures
            match self@.with_media(
                kind,
                title@,
                port,
                protocol,
                direction,
                codec_parameters.attributes_for(self@.next_payload_type),
            ) {
                Ok(builder) => r matches Ok(b) && b@ == builder,
                Err(e) => r matches Err(x) && x@ == e,
            },
    {
        let mut builder = self;
        match builder.add_media(kind, title, port, protocol, direction, codec_parameters) {
            Ok(()) => Ok(builder),
            Err(e) => Err(e),
        }
    }
}

} // verus!
