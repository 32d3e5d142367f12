//! Messages in a form for people to read: what the first line says, the headers one by one,
//! and the size of the body.

use crate::buf::bytes_contents;
use crate::rtsp::interleaved::{ChannelId, MaybeInterleaved, MaybeInterleavedView};
use crate::rtsp::message::{entry_views, Entry, Version};
use crate::rtsp::parse::Message;
use crate::rtsp::request::{Request, RequestView};
use crate::rtsp::response::{Response, ResponseView};
use crate::text::{decimal, lit, push_all, push_decimal, LF};
use bytes::Bytes;
use vstd::prelude::*;
use vstd::string::StringSliceAdditionalSpecFns;

verus! {

impl Version {
    /// The number of the version, and a question mark for an unknown one.
    pub open spec fn number_text(self) -> Seq<u8> {
        match self {
            Version::V1 => lit("1.0"),
            Version::V2 => lit("2.0"),
            Version::Unknown => lit("?"),
        }
    }

    /// The number of the version, and a question mark for an unknown one.
    pub fn number(&self) -> (r: &'static str)
        ensures
            r.spec_bytes() == self.number_text(),
    {
        match self {
            Version::V1 => "1.0",
            Version::V2 => "2.0",
            Version::Unknown => "?",
        }
    }
}

/// One header in a summary: a line of its own, with the name and the value.
pub open spec fn header_summary(entry: (Seq<u8>, Seq<u8>)) -> Seq<u8> {
    lit(" - ") + entry.0 + lit(": ") + entry.1 + seq![LF]
}

/// The headers in a summary, in the order given.
pub open spec fn headers_summary(entries: Seq<(Seq<u8>, Seq<u8>)>) -> Seq<u8>
    decreases entries.len(),
{
    if entries.len() == 0 {
        Seq::<u8>::empty()
    } else {
        headers_summary(entries.drop_last()) + header_summary(entries.last())
    }
}

/// What a summary says after its first line: the headers under a heading, where there are
/// any, and the size of the body, where there is one.
pub open spec fn tail_summary(entries: Seq<(Seq<u8>, Seq<u8>)>, body: Option<Seq<u8>>) -> Seq<u8> {
    (if entries.len() > 0 {
        lit("\nHeaders:\n") + headers_summary(entries)
    } else {
        Seq::<u8>::empty()
    }) + match body {
        Some(body) => lit("[") + decimal(body.len()) + lit(" bytes]\n"),
        None => Seq::<u8>::empty(),
    }
}

/// An interleaved frame in a summary: its channel and the size of its payload.
pub open spec fn frame_summary(channel: ChannelId, payload: Seq<u8>) -> Seq<u8> {
    lit("interleaved payload over channel: ") + decimal(channel as nat) + lit(", size: ")
        + decimal(payload.len())
}

/// Appends to `out` what a summary says after its first line.
fn write_tail_summary(out: &mut Vec<u8>, headers: &Vec<Entry>, body: &Option<Bytes>)
    ensures
        final(out)@ == old(out)@ + tail_summary(
            entry_views(headers@),
            match *body {
                Some(body) => Some(bytes_contents(body)),
                None => None,
            },
        ),
{
    let ghost entries = entry_views(headers@);
    let ghost start = out@;
    if headers.len() > 0 {
        push_all(out, "\nHeaders:\n".as_bytes());
        let mut i: usize = 0;
        assert(entries.take(0) =~= Seq::<(Seq<u8>, Seq<u8>)>::empty());
        assert(out@ =~= start + lit("\nHeaders:\n") + headers_summary(entries.take(0)));
        while i < headers.len()
            invariant
                0 <= i <= headers@.len(),
                entries == entry_views(headers@),
                out@ == start + lit("\nHeaders:\n") + headers_summary(entries.take(i as int)),
            decreases headers@.len() - i,
        {
            let ghost before = out@;
            push_all(out, " - ".as_bytes());
            push_all(out, headers[i].0.as_slice());
            push_all(out, ": ".as_bytes());
            push_all(out, headers[i].1.as_slice());
            out.push(LF);
            proof {
                let next = entries.take(i + 1);
                assert(next.drop_last() =~= entries.take(i as int));
                assert(next.last() == entries[i as int]);
                assert(out@ =~= before + header_summary(entries[i as int]));
                assert(out@ =~= start + lit("\nHeaders:\n") + headers_summary(next));
            }
            i += 1;
        }
        assert(entries.take(i as int) =~= entries);
    }
    let ghost middle = out@;
    match body {
        Some(body) => {
            push_all(out, "[".as_bytes());
            push_decimal(out, body.len() as u64);
            push_all(out, " bytes]\n".as_bytes());
            assert(out@ =~= middle + (lit("[") + decimal(bytes_contents(*body).len()) + lit(
                " bytes]\n",
            )));
        },
        None => {
            assert(out@ =~= middle + Seq::<u8>::empty());
        },
    }
}

/// Something that can be summed up for people to read.
pub trait Summary: View + Sized {
    /// The summary.
    spec fn summary_of(v: Self::V) -> Seq<u8>;

    /// The summary.
    fn summary(&self) -> (r: Vec<u8>)
        ensures
            r@ == Self::summary_of(self@),
    ;
}

impl RequestView {
    /// A request for people to read: version, method and URI on the first line, then the
    /// headers and the size of the body.
    pub open spec fn summary(self) -> Seq<u8> {
        lit("Version: ") + self.version.number_text() + lit(", Method: ") + self.method.text()
            + lit(", Uri: ") + self.uri.text() + tail_summary(self.headers, self.body)
    }
}

impl ResponseView {
    /// A response for people to read: version, status code and reason phrase on the first
    /// line, then the headers and the size of the body.
    pub open spec fn summary(self) -> Seq<u8> {
        lit("Version: ") + self.version.number_text() + lit(", Status Code: ") + decimal(
            self.status as nat,
        ) + lit(", Reason Phrase: ") + self.reason + tail_summary(self.headers, self.body)
    }
}

impl Summary for Request {
    open spec fn summary_of(v: RequestView) -> Seq<u8> {
        v.summary()
    }

    fn summary(&self) -> (r: Vec<u8>) {
        let mut out: Vec<u8> = Vec::new();
        push_all(&mut out, "Version: ".as_bytes());
        push_all(&mut out, self.version.number().as_bytes());
        push_all(&mut out, ", Method: ".as_bytes());
        push_all(&mut out, self.method.as_str().as_bytes());
        push_all(&mut out, ", Uri: ".as_bytes());
        push_all(&mut out, self.uri.to_bytes().as_slice());
        assert(out@ =~= lit("Version: ") + self.version.number_text() + lit(", Method: ")
            + self.method.text() + lit(", Uri: ") + self.uri@.text());
        write_tail_summary(&mut out, self.headers.as_map(), &self.body);
        out
    }
}

impl Summary for Response {
    open spec fn summary_of(v: ResponseView) -> Seq<u8> {
        v.summary()
    }

    fn summary(&self) -> (r: Vec<u8>) {
        let mut out: Vec<u8> = Vec::new();
        push_all(&mut out, "Version: ".as_bytes());
        push_all(&mut out, self.version.number().as_bytes());
        push_all(&mut out, ", Status Code: ".as_bytes());
        push_decimal(&mut out, self.status as u64);
        push_all(&mut out, ", Reason Phrase: ".as_bytes());
        push_all(&mut out, self.reason.as_slice());
        assert(out@ =~= lit("Version: ") + self.version.number_text() + lit(", Status Code: ")
            + decimal(self.status as nat) + lit(", Reason Phrase: ") + self.reason@);
        write_tail_summary(&mut out, self.headers.as_map(), &self.body);
        out
    }
}

impl<M: Message + Summary> Summary for MaybeInterleaved<M> {
    open spec fn summary_of(v: MaybeInterleavedView<M::V>) -> Seq<u8> {
        match v {
            MaybeInterleavedView::Message(message) => M::summary_of(message),
            MaybeInterleavedView::Interleaved { channel, payload } => frame_summary(
                channel,
                payload,
            ),
        }
    }

    fn summary(&self) -> (r: Vec<u8>) {
        match self {
            MaybeInterleaved::Message(message) => message.summary(),
            MaybeInterleaved::Interleaved { channel, payload } => {
                let mut out: Vec<u8> = Vec::new();
                push_all(&mut out, "interleaved payload over channel: ".as_bytes());
                push_decimal(&mut out, *channel as u64);
                push_all(&mut out, ", size: ".as_bytes());
                push_decimal(&mut out, payload.len() as u64);
                assert(out@ =~= frame_summary(*channel, bytes_contents(*payload)));
                out
            },
        }
    }
}

} // verus!
