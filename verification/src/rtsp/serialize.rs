//! What requests and responses share on their way to the wire.

use crate::rtsp::message::{entry_views, Entry};
use crate::text::{push_all, CR, LF};
use vstd::prelude::*;

verus! {

/// The end of a line on the wire: carriage return, line feed.
pub open spec fn crlf() -> Seq<u8> {
    seq![CR, LF]
}

/// One header on the wire: name, colon, space, value, end of line.
pub open spec fn header_wire(entry: (Seq<u8>, Seq<u8>)) -> Seq<u8> {
    entry.0 + seq![58u8, 32u8] + entry.1 + crlf()
}

/// The headers on the wire, one after the other in the order given.
pub open spec fn headers_wire(entries: Seq<(Seq<u8>, Seq<u8>)>) -> Seq<u8>
    decreases entries.len(),
{
    if entries.len() == 0 {
        Seq::<u8>::empty()
    } else {
        header_wire(entries[0]) + headers_wire(entries.skip(1))
    }
}

/// What follows the first line of a message: the headers, an empty line, and the body.
pub open spec fn tail_wire(entries: Seq<(Seq<u8>, Seq<u8>)>, body: Option<Seq<u8>>) -> Seq<u8> {
    headers_wire(entries) + crlf() + match body {
        Some(body) => body,
        None => Seq::<u8>::empty(),
    }
}

pub proof fn lemma_headers_wire_push(entries: Seq<(Seq<u8>, Seq<u8>)>, entry: (Seq<u8>, Seq<u8>))
    ensures
        headers_wire(entries.push(entry)) == headers_wire(entries) + header_wire(entry),
    decreases entries.len(),
{
    let all = entries.push(entry);
    assert(headers_wire(all) == header_wire(all[0]) + headers_wire(all.skip(1)));
    if entries.len() == 0 {
        assert(all.skip(1) =~= Seq::<(Seq<u8>, Seq<u8>)>::empty());
        assert(headers_wire(all.skip(1)) =~= Seq::<u8>::empty());
        assert(headers_wire(entries) =~= Seq::<u8>::empty());
        assert(headers_wire(all) =~= headers_wire(entries) + header_wire(entry));
    } else {
        lemma_headers_wire_push(entries.skip(1), entry);
        assert(all.skip(1) =~= entries.skip(1).push(entry));
        assert(all[0] == entries[0]);
        assert(headers_wire(all) =~= headers_wire(entries) + header_wire(entry));
    }
}

/// Appends the headers, the empty line behind them, and the body to `out`.
pub fn write_tail(out: &mut Vec<u8>, headers: &Vec<Entry>, body: Option<&[u8]>)
    ensures
        final(out)@ == old(out)@ + tail_wire(
            entry_views(headers@),
            match body {
                Some(body) => Some(body@),
                None => None,
            },
        ),
{
    let ghost entries = entry_views(headers@);
    let mut i: usize = 0;
    assert(entries.take(0) =~= Seq::<(Seq<u8>, Seq<u8>)>::empty());
    assert(out@ =~= old(out)@ + headers_wire(entries.take(0)));
    while i < headers.len()
        invariant
            0 <= i <= headers@.len(),
            entries == entry_views(headers@),
            out@ == old(out)@ + headers_wire(entries.take(i as int)),
        decreases headers@.len() - i,
    {
        let ghost before = out@;
        push_all(out, headers[i].0.as_slice());
        out.push(58u8);
        out.push(32u8);
        push_all(out, headers[i].1.as_slice());
        out.push(CR);
        out.push(LF);
        proof {
            assert(out@ =~= before + header_wire(entries[i as int]));
            assert(entries.take(i + 1) =~= entries.take(i as int).push(entries[i as int]));
            lemma_headers_wire_push(entries.take(i as int), entries[i as int]);
            assert(out@ =~= old(out)@ + headers_wire(entries.take(i + 1)));
        }
        i += 1;
    }
    assert(entries.take(entries.len() as int) =~= entries);
    let ghost before = out@;
    out.push(CR);
    out.push(LF);
    match body {
        Some(body) => {
            push_all(out, body);
            assert(out@ =~= before + crlf() + body@);
        },
        None => {
            assert(out@ =~= before + crlf() + Seq::<u8>::empty());
        },
    }
    assert(out@ =~= old(out)@ + tail_wire(
        entries,
        match body {
            Some(body) => Some(body@),
            None => None,
        },
    ));
}

} // verus!
