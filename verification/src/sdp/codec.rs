//! What a codec adds to the description of a media item.

pub mod h264;

use crate::sdp::sdp::{Attribute, AttributeView};
use base64::Engine;
use crate::text::{decimal, lit, push_all, push_decimal, text_of, views, COMMA};
use vstd::prelude::*;

verus! {

/// The payload type of the first dynamic payload.
pub const FMT_RTP_PAYLOAD_DYNAMIC: usize = 96;

/// The unpadded Base64 text of `bytes`, in the standard alphabet, as the `base64` crate
/// writes it.
pub uninterp spec fn base64_text(bytes: Seq<u8>) -> Seq<u8>;

/// `Engine::encode` of `base64::engine::general_purpose::STANDARD_NO_PAD`: the unpadded
/// Base64 text of `bytes`. The crate panics where the length of the text does not fit the
/// machine, which a length within `isize` excludes.
#[verifier::external_body]
pub(crate) fn base64_encode(bytes: &[u8]) -> (r: Vec<u8>)
    requires
        bytes@.len() <= isize::MAX,
    ensures
        r@ == base64_text(bytes@),
{
    base64::engine::general_purpose::STANDARD_NO_PAD.encode(bytes).into_bytes()
}

/// The digit for `nibble` in lower-case hexadecimal.
pub open spec fn hex_digit(nibble: u8) -> u8 {
    if nibble < 10 {
        (48 + nibble) as u8
    } else {
        (87 + nibble) as u8
    }
}

/// The two lower-case hexadecimal digits of every byte of `bytes`.
pub open spec fn hex_text(bytes: Seq<u8>) -> Seq<u8>
    decreases bytes.len(),
{
    if bytes.len() == 0 {
        Seq::<u8>::empty()
    } else {
        hex_text(bytes.drop_last()) + seq![
            hex_digit(bytes.last() / 16),
            hex_digit(bytes.last() % 16),
        ]
    }
}

fn hex_of(nibble: u8) -> (r: u8)
    requires
        nibble < 16,
    ensures
        r == hex_digit(nibble),
{
    if nibble < 10 {
        48 + nibble
    } else {
        87 + nibble
    }
}

/// The two lower-case hexadecimal digits of every byte of `bytes`.
pub fn hex_bytes(bytes: &[u8]) -> (r: Vec<u8>)
    ensures
        r@ == hex_text(bytes@),
{
    let mut out: Vec<u8> = Vec::new();
    let mut i: usize = 0;
    assert(bytes@.take(0) =~= Seq::<u8>::empty());
    while i < bytes.len()
        invariant
            0 <= i <= bytes@.len(),
            out@ == hex_text(bytes@.take(i as int)),
        decreases bytes@.len() - i,
    {
        out.push(hex_of(bytes[i] / 16));
        out.push(hex_of(bytes[i] % 16));
        proof {
            let next = bytes@.take(i + 1);
            assert(next.drop_last() =~= bytes@.take(i as int));
            assert(out@ =~= hex_text(next));
        }
        i += 1;
    }
    assert(bytes@.take(bytes@.len() as int) =~= bytes@);
    out
}

/// The Base64 texts of the parameter sets, each picture parameter set behind a comma.
pub open spec fn parameter_sets_text(sps: Seq<u8>, pps: Seq<Seq<u8>>) -> Seq<u8>
    decreases pps.len(),
{
    if pps.len() == 0 {
        base64_text(sps)
    } else {
        parameter_sets_text(sps, pps.drop_last()) + seq![COMMA] + base64_text(pps.last())
    }
}

/// The value of the `rtpmap` attribute for H.264 under `payload_type`.
pub open spec fn h264_rtpmap_text(payload_type: nat) -> Seq<u8> {
    decimal(payload_type) + lit(" H264/90000")
}

/// The value of the `fmtp` attribute for H.264 under `payload_type`: the packetization mode,
/// the profile and level from the second to the fourth byte of the sequence parameter set,
/// and the parameter sets.
pub open spec fn h264_fmtp_text(
    payload_type: nat,
    packetization_mode: usize,
    sps: Seq<u8>,
    pps: Seq<Seq<u8>>,
) -> Seq<u8> {
    decimal(payload_type) + lit(" packetization-mode=") + decimal(packetization_mode as nat) + lit(
        "; profile-level-id=",
    ) + hex_text(sps.subrange(1, 4)) + lit("; sprop-parameter-sets=") + parameter_sets_text(
        sps,
        pps,
    )
}

/// The two media attributes for H.264 under `payload_type`.
pub open spec fn h264_attributes(
    payload_type: nat,
    packetization_mode: usize,
    sps: Seq<u8>,
    pps: Seq<Seq<u8>>,
) -> Seq<AttributeView> {
    seq![
        AttributeView::Value(lit("rtpmap"), h264_rtpmap_text(payload_type)),
        AttributeView::Value(
            lit("fmtp"),
            h264_fmtp_text(payload_type, packetization_mode, sps, pps),
        ),
    ]
}

/// Whether the parameter sets can be written down: the sequence parameter set has the four
/// bytes that hold profile and level, and no set is longer than the machine can encode.
pub open spec fn parameter_sets_fit(sps: Seq<u8>, pps: Seq<Seq<u8>>) -> bool {
    &&& 4 <= sps.len() <= isize::MAX
    &&& forall|i: int| 0 <= i < pps.len() ==> (#[trigger] pps[i]).len() <= isize::MAX
}

/// The `rtpmap` attribute for H.264 under `payload_type`.
pub fn h264_rtpmap_attribute(payload_type: usize) -> (r: Attribute)
    ensures
        r@ == AttributeView::Value(lit("rtpmap"), h264_rtpmap_text(payload_type as nat)),
{
    let mut value: Vec<u8> = Vec::new();
    push_decimal(&mut value, payload_type as u64);
    push_all(&mut value, " H264/90000".as_bytes());
    assert(value@ =~= h264_rtpmap_text(payload_type as nat));
    Attribute::Value(text_of("rtpmap"), value)
}

/// The `fmtp` attribute for H.264 under `payload_type`.
pub fn h264_fmtp_attribute(
    payload_type: usize,
    packetization_mode: usize,
    sps: &Vec<u8>,
    pps: &Vec<Vec<u8>>,
) -> (r: Attribute)
    requires
        parameter_sets_fit(sps@, views(pps@)),
    ensures
        r@ == AttributeView::Value(
            lit("fmtp"),
            h264_fmtp_text(payload_type as nat, packetization_mode, sps@, views(pps@)),
        ),
{
    let mut value: Vec<u8> = Vec::new();
    push_decimal(&mut value, payload_type as u64);
    push_all(&mut value, " packetization-mode=".as_bytes());
    push_decimal(&mut value, packetization_mode as u64);
    push_all(&mut value, "; profile-level-id=".as_bytes());
    push_all(&mut value, hex_bytes(vstd::slice::slice_subrange(sps.as_slice(), 1, 4)).as_slice());
    push_all(&mut value, "; sprop-parameter-sets=".as_bytes());
    push_all(&mut value, base64_encode(sps.as_slice()).as_slice());
    let ghost head = value@.take(value@.len() - base64_text(sps@).len());
    let ghost sets = views(pps@);
    let mut i: usize = 0;
    assert(sets.take(0) =~= Seq::<Seq<u8>>::empty());
    assert(value@ =~= head + parameter_sets_text(sps@, sets.take(0)));
    while i < pps.len()
        invariant
            0 <= i <= pps@.len(),
            sets == views(pps@),
            parameter_sets_fit(sps@, sets),
            value@ == head + parameter_sets_text(sps@, sets.take(i as int)),
        decreases pps@.len() - i,
    {
        assert(sets[i as int] == pps@[i as int]@);
        value.push(COMMA);
        push_all(&mut value, base64_encode(pps[i].as_slice()).as_slice());
        proof {
            let next = sets.take(i + 1);
            assert(next.drop_last() =~= sets.take(i as int));
            assert(next.last() == pps@[i as int]@);
            assert(value@ =~= head + parameter_sets_text(sps@, next));
        }
        i += 1;
    }
    assert(sets.take(sets.len() as int) =~= sets);
    assert(value@ =~= h264_fmtp_text(
        payload_type as nat,
        packetization_mode,
        sps@,
        views(pps@),
    ));
    Attribute::Value(text_of("fmtp"), value)
}

/// Something that knows the media attributes that go with it.
pub trait MediaAttributes {
    /// The media attributes.
    spec fn attributes(&self) -> Seq<AttributeView>;

    /// Whether the media attributes can be written down.
    spec fn describable(&self) -> bool;

    /// The media attributes, which tell the receiver of the description about the media.
    fn media_attributes(&self) -> (r: Vec<Attribute>)
        requires
            self.describable(),
        ensures
            views(r@) == self.attributes(),
    ;
}

/// Codec parameters: something that knows the media attributes that go with it under a given
/// dynamic payload type.
pub trait Parameters {
    /// The media attributes under `dynamic_payload_type`.
    spec fn attributes_for(&self, dynamic_payload_type: u8) -> Seq<AttributeView>;

    /// Whether the media attributes can be written down.
    spec fn describable(&self) -> bool;

    /// The media attributes under `dynamic_payload_type`.
    fn media_attributes(&self, dynamic_payload_type: u8) -> (r: Vec<Attribute>)
        requires
            self.describable(),
        ensures
            views(r@) == self.attributes_for(dynamic_payload_type),
    ;
}

/// The parameters of an H.264 stream: its parameter sets and its packetization mode.
#[derive(Debug, Clone, PartialEq, Eq)]
pub struct H264CodecParameters {
    pub sps: Vec<u8>,
    pub pps: Vec<Vec<u8>>,
    pub packetization_mode: usize,
}

/// What is particular to the codec of a media item.
#[derive(Debug, Clone, PartialEq, Eq)]
pub enum CodecInfo {
    H264(H264CodecParameters),
}

impl CodecInfo {
    /// The codec information of an H.264 stream.
    pub fn h264(sps: Vec<u8>, pps: Vec<Vec<u8>>, packetization_mode: usize) -> (r: CodecInfo)
        ensures
            r == CodecInfo::H264(H264CodecParameters { sps, pps, packetization_mode }),
    {
        CodecInfo::H264(H264CodecParameters { sps, pps, packetization_mode })
    }
}

impl MediaAttributes for CodecInfo {
    open spec fn attributes(&self) -> Seq<AttributeView> {
        match self {
            CodecInfo::H264(params) => h264_attributes(
                FMT_RTP_PAYLOAD_DYNAMIC as nat,
                params.packetization_mode,
                params.sps@,
                views(params.pps@),
            ),
        }
    }

    open spec fn describable(&self) -> bool {
        match self {
            CodecInfo::H264(params) => parameter_sets_fit(params.sps@, views(params.pps@)),
        }
    }

    fn media_attributes(&self) -> (r: Vec<Attribute>) {
        match self {
            CodecInfo::H264(params) => {
                let mut attributes: Vec<Attribute> = Vec::new();
                let rtpmap = h264_rtpmap_attribute(FMT_RTP_PAYLOAD_DYNAMIC);
                let fmtp = h264_fmtp_attribute(
                    FMT_RTP_PAYLOAD_DYNAMIC,
                    params.packetization_mode,
                    &params.sps,
                    &params.pps,
                );
                attributes.push(rtpmap);
                attributes.push(fmtp);
                assert(views(attributes@) =~= seq![rtpmap@, fmtp@]);
                attributes
            },
        }
    }
}

} // verus!
