//! The `RTP-Info` header: where a stream starts.

use crate::rtsp::error::{Error, ErrorView};
use crate::text::{
    copy_of, decimal, has_prefix, lit, parse_number, parse_unsigned, push_all, push_decimal, split,
    split_at_each, starts_with, views, SEMICOLON,
};
use vstd::prelude::*;
use vstd::slice::slice_subrange;

verus! {

/// Where one stream starts: its URL, and the sequence number and the RTP time of its first
/// packet.
#[derive(Debug, Clone, PartialEq, Eq)]
pub struct RtpInfo {
    pub url: Vec<u8>,
    pub seq: Option<u16>,
    pub rtptime: Option<u32>,
}

pub struct RtpInfoView {
    pub url: Seq<u8>,
    pub seq: Option<u16>,
    pub rtptime: Option<u32>,
}

impl View for RtpInfo {
    type V = RtpInfoView;

    open spec fn view(&self) -> RtpInfoView {
        RtpInfoView { url: self.url@, seq: self.seq, rtptime: self.rtptime }
    }
}

/// `s` without the prefix `p`, if it has it.
pub open spec fn stripped(s: Seq<u8>, p: Seq<u8>) -> Option<Seq<u8>> {
    if has_prefix(s, p) {
        Some(s.skip(p.len() as int))
    } else {
        None
    }
}

/// `s` without the prefix `p`, if it has it.
pub fn strip_prefix<'a>(s: &'a [u8], p: &[u8]) -> (r: Option<&'a [u8]>)
    ensures
        match r {
            Some(rest) => stripped(s@, p@) == Some(rest@),
            None => stripped(s@, p@) is None,
        },
{
    if starts_with(s, p) {
        let rest = slice_subrange(s, p.len(), s.len());
        assert(rest@ =~= s@.skip(p@.len() as int));
        Some(rest)
    } else {
        None
    }
}

impl RtpInfoView {
    /// The text of the RTP info.
    pub open spec fn text(self) -> Seq<u8> {
        lit("url=") + self.url + (match self.seq {
            Some(seq) => lit(";seq=") + decimal(seq as nat),
            None => Seq::<u8>::empty(),
        }) + (match self.rtptime {
            Some(rtptime) => lit(";rtptime=") + decimal(rtptime as nat),
            None => Seq::<u8>::empty(),
        })
    }

    /// The RTP info with the parameter that `part` spells: `seq=` with a 16-bit number, or
    /// `rtptime=` with a 32-bit number.
    pub open spec fn with_parameter(self, part: Seq<u8>) -> Result<RtpInfoView, ErrorView> {
        match stripped(part, lit("seq=")) {
            Some(seq) => match parse_unsigned(seq, u16::MAX as nat) {
                Some(seq) => Ok(RtpInfoView { seq: Some(seq as u16), ..self }),
                None => Err(ErrorView::RtpInfoParameterInvalid { value: part }),
            },
            None => match stripped(part, lit("rtptime=")) {
                Some(rtptime) => match parse_unsigned(rtptime, u32::MAX as nat) {
                    Some(rtptime) => Ok(RtpInfoView { rtptime: Some(rtptime as u32), ..self }),
                    None => Err(ErrorView::RtpInfoParameterInvalid { value: part }),
                },
                None => Err(ErrorView::RtpInfoParameterUnknown { value: part }),
            },
        }
    }
}

/// Reading of an RTP info: `url=` and the URL, then up to two parameters, each behind a
/// semicolon.
pub open spec fn rtp_info_parsed(s: Seq<u8>) -> Result<RtpInfoView, ErrorView> {
    let parts = split(s, SEMICOLON);
    match stripped(parts[0], lit("url=")) {
        None => Err(ErrorView::RtpInfoParameterUnknown { value: parts[0] }),
        Some(url) => {
            let info = RtpInfoView { url, seq: None, rtptime: None };
            if parts.len() < 2 {
                Ok(info)
            } else {
                match info.with_parameter(parts[1]) {
                    Err(e) => Err(e),
                    Ok(info) => if parts.len() < 3 {
                        Ok(info)
                    } else {
                        match info.with_parameter(parts[2]) {
                            Err(e) => Err(e),
                            Ok(info) => if parts.len() < 4 {
                                Ok(info)
                            } else {
                                Err(ErrorView::RtpInfoParameterUnexpected { value: parts[3] })
                            },
                        }
                    },
                }
            }
        },
    }
}

impl RtpInfo {
    pub fn new(url: &[u8]) -> (r: RtpInfo)
        ensures
            r@ == (RtpInfoView { url: url@, seq: None, rtptime: None }),
    {
        RtpInfo { url: copy_of(url), seq: None, rtptime: None }
    }

    pub fn new_with_timing(url: &[u8], seq: u16, rtptime: u32) -> (r: RtpInfo)
        ensures
            r@ == (RtpInfoView { url: url@, seq: Some(seq), rtptime: Some(rtptime) }),
    {
        RtpInfo { url: copy_of(url), seq: Some(seq), rtptime: Some(rtptime) }
    }

    pub fn with_seq(self, seq: u16) -> (r: RtpInfo)
        ensures
            r@ == (RtpInfoView { seq: Some(seq), ..self@ }),
    {
        let mut info = self;
        info.seq = Some(seq);
        info
    }

    pub fn with_rtptime(self, rtptime: u32) -> (r: RtpInfo)
        ensures
            r@ == (RtpInfoView { rtptime: Some(rtptime), ..self@ }),
    {
        let mut info = self;
        info.rtptime = Some(rtptime);
        info
    }

    /// The text of the RTP info.
    pub fn to_bytes(&self) -> (r: Vec<u8>)
        ensures
            r@ == self@.text(),
    {
        let mut out: Vec<u8> = Vec::new();
        push_all(&mut out, "url=".as_bytes());
        push_all(&mut out, self.url.as_slice());
        if let Some(seq) = self.seq {
            push_all(&mut out, ";seq=".as_bytes());
            push_decimal(&mut out, seq as u64);
        }
        if let Some(rtptime) = self.rtptime {
            push_all(&mut out, ";rtptime=".as_bytes());
            push_decimal(&mut out, rtptime as u64);
        }
        assert(out@ =~= self@.text());
        out
    }

    fn parse_parameter(self, part: &[u8]) -> (r: Result<RtpInfo, Error>)
        ensures
            match self@.with_parameter(part@) {
                Ok(info) => r matches Ok(i) && i@ == info,
                Err(e) => r matches Err(x) && x@ == e,
            },
    {
        let mut info = self;
        if let Some(seq) = strip_prefix(part, "seq=".as_bytes()) {
            match parse_number(seq, u16::MAX as u64) {
                Some(seq) => {
                    info.seq = Some(seq as u16);
                    Ok(info)
                },
                None => Err(Error::RtpInfoParameterInvalid { value: copy_of(part) }),
            }
        } else if let Some(rtptime) = strip_prefix(part, "rtptime=".as_bytes()) {
            match parse_number(rtptime, u32::MAX as u64) {
                Some(rtptime) => {
                    info.rtptime = Some(rtptime as u32);
                    Ok(info)
                },
                None => Err(Error::RtpInfoParameterInvalid { value: copy_of(part) }),
            }
        } else {
            Err(Error::RtpInfoParameterUnknown { value: copy_of(part) })
        }
    }

    /// Reads an RTP info.
    pub fn from_bytes(s: &[u8]) -> (r: Result<RtpInfo, Error>)
        ensures
            match rtp_info_parsed(s@) {
                Ok(info) => r matches Ok(i) && i@ == info,
                Err(e) => r matches Err(x) && x@ == e,
            },
    {
        let parts = split_at_each(s, SEMICOLON);
        assert(views(parts@)[0] == parts@[0]@);
        let url = match strip_prefix(parts[0].as_slice(), "url=".as_bytes()) {
            Some(url) => url,
            None => {
                return Err(Error::RtpInfoParameterUnknown { value: copy_of(parts[0].as_slice()) });
            },
        };
        let info = RtpInfo::new(url);
        if parts.len() < 2 {
            return Ok(info);
        }
        assert(views(parts@)[1] == parts@[1]@);
        let info = match info.parse_parameter(parts[1].as_slice()) {
            Ok(info) => info,
            Err(e) => {
                return Err(e);
            },
        };
        if parts.len() < 3 {
            return Ok(info);
        }
        assert(views(parts@)[2] == parts@[2]@);
        let info = match info.parse_parameter(parts[2].as_slice()) {
            Ok(info) => info,
            Err(e) => {
                return Err(e);
            },
        };
        if parts.len() < 4 {
            return Ok(info);
        }
        assert(views(parts@)[3] == parts@[3]@);
        Err(Error::RtpInfoParameterUnexpected { value: copy_of(parts[3].as_slice()) })
    }
}

/// The texts of `items`, with a comma between each two.
pub open spec fn rtp_infos_text(items: Seq<RtpInfoView>) -> Seq<u8>
    decreases items.len(),
{
    if items.len() == 0 {
        Seq::<u8>::empty()
    } else if items.len() == 1 {
        items[0].text()
    } else {
        rtp_infos_text(items.drop_last()) + seq![crate::text::COMMA] + items.last().text()
    }
}

/// The texts of `items`, with a comma between each two.
pub fn rtp_infos_to_bytes(items: &Vec<RtpInfo>) -> (r: Vec<u8>)
    ensures
        r@ == rtp_infos_text(views(items@)),
{
    let ghost all = views(items@);
    let mut out: Vec<u8> = Vec::new();
    let mut i: usize = 0;
    assert(all.take(0) =~= Seq::<RtpInfoView>::empty());
    while i < items.len()
        invariant
            0 <= i <= items@.len(),
            all == views(items@),
            out@ == rtp_infos_text(all.take(i as int)),
        decreases items@.len() - i,
    {
        let ghost before = out@;
        if i > 0 {
            out.push(crate::text::COMMA);
        }
        push_all(&mut out, items[i].to_bytes().as_slice());
        proof {
            let next = all.take(i + 1);
            assert(next.drop_last() =~= all.take(i as int));
            assert(next.last() == items@[i as int]@);
            if i == 0 {
                assert(next[0] == items@[0]@);
                assert(out@ =~= next[0].text());
            } else {
                assert(out@ =~= before + seq![crate::text::COMMA] + next.last().text());
            }
        }
        i += 1;
    }
    assert(all.take(all.len() as int) =~= all);
    out
}

} // verus!
