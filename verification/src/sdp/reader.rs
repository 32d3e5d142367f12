//! Reading what a session description says.

use crate::ip::{IpAddress, IpAddressView};
use crate::sdp::error::{Error, ErrorView};
use crate::sdp::sdp::{sdp_parsed, Bandwidth, Repeat, RepeatView, Sdp, SdpView};
use crate::text::{copy_of, views};
use vstd::prelude::*;

verus! {

/// A session description that was read, to be asked about what it says.
pub struct Reader {
    sdp: Sdp,
}

impl View for Reader {
    type V = SdpView;

    closed spec fn view(&self) -> SdpView {
        self.sdp@
    }
}

impl Reader {
    /// Reads a session description.
    #[inline]
    pub fn parse(s: &[u8]) -> (r: Result<Reader, Error>)
        ensures
            match sdp_parsed(s@) {
                Ok(sdp) => r matches Ok(x) && x@ == sdp,
                Err(e) => r matches Err(x) && x@ == e,
            },
    {
        match Sdp::parse(s) {
            Ok(sdp) => Ok(Reader { sdp }),
            Err(e) => Err(e),
        }
    }

    #[inline]
    pub fn username(&self) -> (r: &Vec<u8>)
        ensures
            r@ == self@.origin.username,
    {
        &self.sdp.origin.username
    }

    #[inline]
    pub fn session_id(&self) -> (r: &Vec<u8>)
        ensures
            r@ == self@.origin.session_id,
    {
        &self.sdp.origin.session_id
    }

    /// The address of the originator, if the origin holds one.
    #[inline]
    pub fn origin(&self) -> (r: Result<IpAddress, Error>)
        ensures
            match IpAddressView::of_text(self@.origin.unicast_address) {
                Some(address) => r matches Ok(a) && a@ == address,
                None => r matches Err(e) && e@ == (ErrorView::OriginUnicastAddressInvalid {
                    unicast_address: self@.origin.unicast_address,
                }),
            },
    {
        match IpAddress::from_bytes(self.sdp.origin.unicast_address.as_slice()) {
            Some(address) => Ok(address),
            None => Err(
                Error::OriginUnicastAddressInvalid {
                    unicast_address: copy_of(self.sdp.origin.unicast_address.as_slice()),
                },
            ),
        }
    }

    #[inline]
    pub fn session_name(&self) -> (r: &Vec<u8>)
        ensures
            r@ == self@.session_name,
    {
        &self.sdp.session_name
    }

    #[inline]
    pub fn session_description(&self) -> (r: Option<&Vec<u8>>)
        ensures
            match r {
                Some(value) => self@.session_description == Some(value@),
                None => self@.session_description is None,
            },
    {
        self.sdp.session_description.as_ref()
    }

    #[inline]
    pub fn uri(&self) -> (r: Option<&Vec<u8>>)
        ensures
            match r {
                Some(value) => self@.uri == Some(value@),
                None => self@.uri is None,
            },
    {
        self.sdp.uri.as_ref()
    }

    #[inline]
    pub fn email(&self) -> (r: Option<&Vec<u8>>)
        ensures
            match r {
                Some(value) => self@.email == Some(value@),
                None => self@.email is None,
            },
    {
        self.sdp.email.as_ref()
    }

    #[inline]
    pub fn phone(&self) -> (r: Option<&Vec<u8>>)
        ensures
            match r {
                Some(value) => self@.phone == Some(value@),
                None => self@.phone is None,
            },
    {
        self.sdp.phone.as_ref()
    }

    #[inline]
    pub fn bandwidth_info(&self) -> (r: &Vec<Bandwidth>)
        ensures
            r@ == self@.bandwidth,
    {
        &self.sdp.bandwidth
    }

    #[inline]
    pub fn repeats(&self) -> (r: &Vec<Repeat>)
        ensures
            views(r@) == self@.repeats,
    {
        &self.sdp.repeats
    }
}

} // verus!
