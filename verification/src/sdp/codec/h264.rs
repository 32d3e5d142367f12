//! The parameters of an H.264 stream.

use crate::sdp::codec::{
    h264_attributes, h264_fmtp_attribute, h264_rtpmap_attribute, parameter_sets_fit,
};
use crate::sdp::sdp::{Attribute, AttributeView};
use crate::text::views;
use vstd::prelude::*;

verus! {

/// The parameters of an H.264 stream: its parameter sets and its packetization mode.
#[derive(Debug, Clone, PartialEq, Eq)]
pub struct Parameters {
    sps: Vec<u8>,
    pps: Vec<Vec<u8>>,
    packetization_mode: usize,
}

pub struct ParametersView {
    pub sps: Seq<u8>,
    pub pps: Seq<Seq<u8>>,
    pub packetization_mode: usize,
}

impl View for Parameters {
    type V = ParametersView;

    closed spec fn view(&self) -> ParametersView {
        ParametersView {
            sps: self.sps@,
            pps: views(self.pps@),
            packetization_mode: self.packetization_mode,
        }
    }
}

impl Parameters {
    /// The parameters of an H.264 stream with the sequence parameter set `sps`, the picture
    /// parameter sets `pps`, and the packetization mode of the sender.
    pub fn new(sps: Vec<u8>, pps: Vec<Vec<u8>>, packetization_mode: usize) -> (r: Parameters)
        ensures
            r@ == (ParametersView { sps: sps@, pps: views(pps@), packetization_mode }),
    {
        Parameters { sps, pps, packetization_mode }
    }
}

impl crate::sdp::codec::Parameters for Parameters {
    open spec fn attributes_for(&self, dynamic_payload_type: u8) -> Seq<AttributeView> {
        h264_attributes(
            dynamic_payload_type as nat,
            self@.packetization_mode,
            self@.sps,
            self@.pps,
        )
    }

    open spec fn describable(&self) -> bool {
        parameter_sets_fit(self@.sps, self@.pps)
    }

    fn media_attributes(&self, dynamic_payload_type: u8) -> (r: Vec<Attribute>) {
        let mut attributes: Vec<Attribute> = Vec::new();
        let rtpmap = h264_rtpmap_attribute(dynamic_payload_type as usize);
        let fmtp = h264_fmtp_attribute(
            dynamic_payload_type as usize,
            self.packetization_mode,
            &self.sps,
            &self.pps,
        );
        attributes.push(rtpmap);
        attributes.push(fmtp);
        assert(views(attributes@) =~= seq![rtpmap@, fmtp@]);
        attributes
    }
}

} // verus!
