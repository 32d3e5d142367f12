//! What holds between the wire form of a message and the parser: a message that is written
//! and read comes back as it was.

use crate::rtsp::buffer::{
    first_break, lemma_first_break_is, line_end, line_read, line_rest,
};
use crate::rtsp::error::ErrorView;
use crate::rtsp::message::{
    ascending, inserted, lemma_inserted_last, lemma_method_names, lemma_method_round_trip, lookup,
    Method, Version,
};
use crate::rtsp::parse::{
    body_read, content_length, fed, fresh, head_line_read, head_read, header_parsed, message_of,
    version_parsed, Body, Fed, Head, HeadRead, Message, ParserView, State, Status,
};
use crate::rtsp::request::{request_line_parsed, Request, RequestMetadataView, RequestView};
use crate::rtsp::response::{status_line_parsed, Response, ResponseMetadataView, ResponseView};
use crate::rtsp::serialize::{crlf, header_wire, headers_wire, tail_wire};
use crate::text::{
    decimal, first_index, is_space, is_trimmed, lemma_decimal, lemma_first_index_is,
    lemma_parse_decimal, lemma_split_first, lit, parse_unsigned, split, split_once, trim, trim_end,
    trim_start, without, COLON, CR, LF, SPACE,
};
use vstd::prelude::*;
use vstd::string::*;
use vstd::utf8::valid_utf8;

verus! {

/// Whether `s` holds neither a carriage return nor a line feed.
pub open spec fn no_line_break(s: Seq<u8>) -> bool {
    forall|i: int| 0 <= i < s.len() ==> (#[trigger] s[i]) != CR && s[i] != LF
}

/// Whether `s` can be one token of a line: valid UTF-8 without spaces and line breaks.
pub open spec fn is_token(s: Seq<u8>) -> bool {
    no_line_break(s) && without(s, SPACE) && valid_utf8(s)
}

/// Whether a header comes back from the wire as it is: its name has no colon, neither name
/// nor value has a line break or white space at an end, and both are valid UTF-8.
pub open spec fn valid_header(entry: (Seq<u8>, Seq<u8>)) -> bool {
    &&& no_line_break(entry.0)
    &&& without(entry.0, COLON)
    &&& is_trimmed(entry.0)
    &&& valid_utf8(entry.0)
    &&& no_line_break(entry.1)
    &&& is_trimmed(entry.1)
    &&& valid_utf8(entry.1)
}

/// Whether headers come back from the wire as they are: every one of them does, and they
/// are in the order of their names, each name once.
pub open spec fn valid_headers(entries: Seq<(Seq<u8>, Seq<u8>)>) -> bool {
    &&& ascending(entries)
    &&& forall|i: int| 0 <= i < entries.len() ==> valid_header(#[trigger] entries[i])
}

/// Whether the headers say of the body what it is: its length as `Content-Length` where
/// there is a body, and no `Content-Length` where there is none.
pub open spec fn body_announced(entries: Seq<(Seq<u8>, Seq<u8>)>, body: Option<Seq<u8>>) -> bool {
    match body {
        Some(body) => body.len() <= usize::MAX && lookup(entries, lit("Content-Length")) == Some(
            decimal(body.len()),
        ),
        None => lookup(entries, lit("Content-Length")) is None,
    }
}

proof fn lemma_separators()
    ensures
        lit(": ") == seq![58u8, 32u8],
        lit(" ") == seq![32u8],
        lit("\r\n") == seq![13u8, 10u8],
        valid_utf8(seq![58u8, 32u8]),
        valid_utf8(seq![32u8]),
{
    broadcast use is_ascii_spec_bytes;
    broadcast use vstd::utf8::encode_utf8_valid_utf8;

    reveal_strlit(": ");
    reveal_strlit(" ");
    reveal_strlit("\r\n");
    assert(is_ascii(": "));
    assert(is_ascii(" "));
    assert(is_ascii("\r\n"));
    assert(lit(": ") =~= seq![58u8, 32u8]);
    assert(lit(" ") =~= seq![32u8]);
    assert(lit("\r\n") =~= seq![13u8, 10u8]);
    assert(valid_utf8(vstd::utf8::encode_utf8(": "@)));
    assert(valid_utf8(vstd::utf8::encode_utf8(" "@)));
}

/// A line without line breaks, ended by carriage return and line feed, is read as it is,
/// and what is behind it is left.
pub proof fn lemma_line_read_crlf(line: Seq<u8>, rest: Seq<u8>)
    requires
        no_line_break(line),
    ensures
        line_read(line + crlf() + rest) == Some(
            if valid_utf8(line) {
                Ok::<Seq<u8>, ErrorView>(line)
            } else {
                Err::<Seq<u8>, ErrorView>(ErrorView::Encoding)
            },
        ),
        line_rest(line + crlf() + rest) == rest,
        line_rest(line + crlf() + rest).len() < (line + crlf() + rest).len(),
{
    let all = line + crlf() + rest;
    let at = line.len() as int;
    assert(all[at] == CR);
    assert(all[at + 1] == LF);
    assert forall|j: int| 0 <= j < at implies all[j] != CR && all[j] != LF by {
        assert(all[j] == line[j]);
    }
    lemma_first_break_is(all, at);
    assert(line_end(all) == Some((at, 2int)));
    assert(all.take(at) =~= line);
    assert(all.skip(at + 2) =~= rest);
}

/// A valid header, written as a line, is read as the header.
pub proof fn lemma_header_line(entry: (Seq<u8>, Seq<u8>))
    requires
        valid_header(entry),
    ensures
        ({
            let raw = entry.0 + seq![58u8, 32u8] + entry.1;
            &&& header_wire(entry) == raw + crlf()
            &&& no_line_break(raw)
            &&& valid_utf8(raw)
            &&& trim(raw).len() > 0
            &&& header_parsed(trim(raw)) == Ok::<(Seq<u8>, Seq<u8>), ErrorView>(entry)
        }),
{
    let name = entry.0;
    let value = entry.1;
    let raw = name + seq![58u8, 32u8] + value;
    lemma_separators();
    vstd::utf8::valid_utf8_concat(name, seq![58u8, 32u8]);
    vstd::utf8::valid_utf8_concat(name + seq![58u8, 32u8], value);
    assert forall|i: int| 0 <= i < raw.len() implies (#[trigger] raw[i]) != CR && raw[i] != LF by {
        if i < name.len() {
            assert(raw[i] == name[i]);
        } else if i >= name.len() + 2 {
            assert(raw[i] == value[i - name.len() - 2]);
        }
    }
    assert(raw[0] == if name.len() > 0 {
        name[0]
    } else {
        58u8
    });
    assert(!is_space(raw[0]));
    let trimmed = trim(raw);
    if value.len() > 0 {
        assert(raw.last() == value.last());
        assert(trimmed == raw);
        lemma_split_first(name, COLON, seq![32u8] + value);
        assert(name + seq![COLON] + (seq![32u8] + value) =~= raw);
        let val = seq![32u8] + value;
        assert(val.skip(1) =~= value);
        assert(trim_start(val) == trim_start(value));
        assert(trim(val) == value);
        assert(trim(name) == name);
    } else {
        assert(raw =~= name + seq![58u8, 32u8]);
        assert(trim_start(raw) == raw);
        assert(raw.drop_last() =~= name + seq![58u8]);
        let shorter = name + seq![58u8];
        assert(shorter.last() == 58u8);
        assert(trim_end(shorter) == shorter);
        assert(trim_end(raw) == trim_end(raw.drop_last()));
        assert(trimmed == shorter);
        lemma_split_first(name, COLON, Seq::<u8>::empty());
        assert(name + seq![COLON] + Seq::<u8>::empty() =~= shorter);
        assert(trim(Seq::<u8>::empty()) =~= Seq::<u8>::empty());
        assert(value =~= Seq::<u8>::empty());
        assert(trim(name) == name);
    }
}

/// Valid headers, written one line each and followed by an empty line, are read as the
/// headers, and what is behind the empty line is left.
pub proof fn lemma_headers_read<M: Message>(
    metadata: Option<<M::Metadata as View>::V>,
    entries: Seq<(Seq<u8>, Seq<u8>)>,
    done: int,
    rest: Seq<u8>,
)
    requires
        valid_headers(entries),
        0 <= done <= entries.len(),
    ensures
        head_read::<M>(
            metadata,
            entries.take(done),
            headers_wire(entries.skip(done)) + crlf() + rest,
            Head::Header,
        ) == (HeadRead { metadata, headers: entries, buffer: rest, head: Ok(Head::Done) }),
    decreases entries.len() - done,
{
    let left = entries.skip(done);
    let buffer = headers_wire(left) + crlf() + rest;
    if done == entries.len() {
        assert(left =~= Seq::<(Seq<u8>, Seq<u8>)>::empty());
        assert(headers_wire(left) =~= Seq::<u8>::empty());
        assert(buffer =~= Seq::<u8>::empty() + crlf() + rest);
        assert(no_line_break(Seq::<u8>::empty()));
        lemma_line_read_crlf(Seq::<u8>::empty(), rest);
        assert(valid_utf8(Seq::<u8>::empty()));
        assert(trim(Seq::<u8>::empty()) =~= Seq::<u8>::empty());
        assert(entries.take(done) =~= entries);
        let after = head_read::<M>(metadata, entries, rest, Head::Done);
        assert(after == (HeadRead { metadata, headers: entries, buffer: rest, head: Ok(Head::Done) }));
    } else {
        let entry = entries[done];
        assert(left[0] == entry);
        assert(left.skip(1) =~= entries.skip(done + 1));
        assert(valid_header(entry));
        lemma_header_line(entry);
        let raw = entry.0 + seq![58u8, 32u8] + entry.1;
        let tail = headers_wire(entries.skip(done + 1)) + crlf() + rest;
        assert(buffer =~= raw + crlf() + tail);
        lemma_line_read_crlf(raw, tail);
        let before = entries.take(done);
        assert forall|i: int| 0 <= i < before.len() implies crate::text::lex_lt(
            before[i].0,
            entry.0,
        ) by {
            assert(before[i] == entries[i]);
        }
        lemma_inserted_last(before, entry.0, entry.1);
        assert(before.push(entry) =~= entries.take(done + 1));
        lemma_headers_read::<M>(metadata, entries, done + 1, rest);
    }
}

/// The outcome of reading a whole message at once: the parser is done, has taken every
/// byte, and holds the first line, the headers and the body.
pub open spec fn read_whole<V>(
    metadata: V,
    headers: Seq<(Seq<u8>, Seq<u8>)>,
    body: Option<Seq<u8>>,
) -> Fed<V> {
    Fed {
        parser: ParserView {
            state: State::Body(Body::Complete),
            metadata: Some(metadata),
            headers,
            body,
        },
        buffer: Seq::<u8>::empty(),
        said: Ok(Status::Done),
    }
}

/// A message on the wire, read by a parser that has read nothing yet, is read whole: where
/// the first line is read as it is meant, the headers are valid and say of the body what it
/// is.
pub proof fn lemma_message_read<M: Message>(
    first_line: Seq<u8>,
    metadata: <M::Metadata as View>::V,
    headers: Seq<(Seq<u8>, Seq<u8>)>,
    body: Option<Seq<u8>>,
)
    requires
        no_line_break(first_line),
        valid_utf8(first_line),
        is_trimmed(first_line),
        M::metadata_parsed(first_line) == Ok::<<M::Metadata as View>::V, ErrorView>(metadata),
        valid_headers(headers),
        body_announced(headers, body),
    ensures
        fed::<M>(fresh(), first_line + crlf() + tail_wire(headers, body)) == read_whole(
            metadata,
            headers,
            match body {
                Some(b) => Some(b),
                None => None,
            },
        ),
{
    let payload = match body {
        Some(b) => b,
        None => Seq::<u8>::empty(),
    };
    let tail = tail_wire(headers, body);
    let wire = first_line + crlf() + tail;
    lemma_line_read_crlf(first_line, tail);
    assert(trim(first_line) == first_line);
    let none: Option<<M::Metadata as View>::V> = None;
    let empty = Seq::<(Seq<u8>, Seq<u8>)>::empty();
    assert(headers.take(0) =~= empty);
    assert(headers.skip(0) =~= headers);
    assert(tail == headers_wire(headers) + crlf() + payload);
    lemma_headers_read::<M>(Some(metadata), headers, 0, payload);
    let read = head_read::<M>(none, empty, wire, Head::FirstLine);
    assert(head_line_read::<M>(none, empty, first_line, Head::FirstLine) == (
        Some(metadata),
        empty,
        Ok::<Head, ErrorView>(Head::Header),
    ));
    assert(read == head_read::<M>(Some(metadata), empty, tail, Head::Header));
    assert(read == (HeadRead {
        metadata: Some(metadata),
        headers,
        buffer: payload,
        head: Ok(Head::Done),
    }));
    match body {
        Some(b) => {
            lemma_parse_decimal(b.len(), usize::MAX as nat);
            assert(content_length(headers) == Ok::<Option<usize>, ErrorView>(
                Some(b.len() as usize),
            ));
            assert(b.take(b.len() as int) =~= b);
            assert(b.skip(b.len() as int) =~= Seq::<u8>::empty());
        },
        None => {},
    }
}

/// Bytes below 128 are valid UTF-8.
pub proof fn lemma_ascii_is_utf8(s: Seq<u8>)
    requires
        forall|i: int| 0 <= i < s.len() ==> (#[trigger] s[i]) < 128,
    ensures
        valid_utf8(s),
{
    assert forall|i: int| 0 <= i < s.len() implies #[trigger] vstd::utf8::is_leading_byte_width_1(
        s[i],
    ) by {
        vstd::utf8::utf8_byte_ranges_bitwise(s[i]);
    }
    assert(s.subrange(0, 0) =~= Seq::<u8>::empty());
    assert(vstd::utf8::partial_valid_utf8(s, 0));
    vstd::utf8::partial_valid_utf8_extend_ascii_block(s, 0, s.len() as int);
    assert(s.subrange(0, s.len() as int) =~= s);
}

proof fn lemma_version_names()
    ensures
        lit("RTSP/1.0") == seq![82u8, 84u8, 83u8, 80u8, 47u8, 49u8, 46u8, 48u8],
        lit("RTSP/2.0") == seq![82u8, 84u8, 83u8, 80u8, 47u8, 50u8, 46u8, 48u8],
{
    broadcast use is_ascii_spec_bytes;

    reveal_strlit("RTSP/1.0");
    reveal_strlit("RTSP/2.0");
    assert(is_ascii("RTSP/1.0"));
    assert(is_ascii("RTSP/2.0"));
    assert(lit("RTSP/1.0") =~= seq![82u8, 84u8, 83u8, 80u8, 47u8, 49u8, 46u8, 48u8]);
    assert(lit("RTSP/2.0") =~= seq![82u8, 84u8, 83u8, 80u8, 47u8, 50u8, 46u8, 48u8]);
}

/// What holds of the text of a version that has one: it is a token that begins with `R`
/// and ends with `0`, and it is read as the version.
pub proof fn lemma_version_text(version: Version)
    requires
        version != Version::Unknown,
    ensures
        version.text() is Some,
        is_token(version.text()->Some_0),
        version.text()->Some_0.len() == 8,
        version.text()->Some_0[0] == 82,
        version.text()->Some_0[7] == 48,
        Version::of_text(version.text()->Some_0) == Some(version),
{
    lemma_version_names();
    let text = version.text()->Some_0;
    lemma_ascii_is_utf8(text);
}

/// What holds of the name of a method: it is a token that does not begin with white space.
pub proof fn lemma_method_text(method: Method)
    ensures
        is_token(method.text()),
        method.text().len() > 0,
        !is_space(method.text()[0]),
        Method::of_text(method.text()) == Some(method),
{
    lemma_method_round_trip(method);
    lemma_method_names();
    lemma_ascii_is_utf8(method.text());
}

/// Whether a request comes back from the wire as it is: its version is known, its target is
/// a token that the URI parser reads as the target itself, and its headers are valid and
/// say of the body what it is.
pub open spec fn valid_request(request: RequestView) -> bool {
    &&& request.version != Version::Unknown
    &&& request.uri.is_canonical()
    &&& request.uri.is_target()
    &&& is_token(request.uri.text())
    &&& valid_headers(request.headers)
    &&& body_announced(request.headers, request.body)
}

/// Whether a response comes back from the wire as it is: its version is known, its reason
/// phrase is valid UTF-8 without line breaks and without white space at its ends, and not
/// empty, and its headers are valid and say of the body what it is.
pub open spec fn valid_response(response: ResponseView) -> bool {
    &&& response.version != Version::Unknown
    &&& response.reason.len() > 0
    &&& no_line_break(response.reason)
    &&& is_trimmed(response.reason)
    &&& valid_utf8(response.reason)
    &&& valid_headers(response.headers)
    &&& body_announced(response.headers, response.body)
}

proof fn lemma_request_line(request: RequestView)
    requires
        valid_request(request),
    ensures
        request.first_line() is Some,
        no_line_break(request.first_line()->Some_0),
        valid_utf8(request.first_line()->Some_0),
        is_trimmed(request.first_line()->Some_0),
        request_line_parsed(request.first_line()->Some_0) == Ok::<RequestMetadataView, ErrorView>(
            RequestMetadataView {
                method: request.method,
                uri: request.uri,
                version: request.version,
            },
        ),
{
    lemma_version_text(request.version);
    lemma_method_text(request.method);
    lemma_separators();
    let method = request.method.text();
    let uri = request.uri.text();
    let version = request.version.text()->Some_0;
    let line = request.first_line()->Some_0;
    assert(line == method + seq![SPACE] + uri + seq![SPACE] + version);
    vstd::utf8::valid_utf8_concat(method, seq![SPACE]);
    vstd::utf8::valid_utf8_concat(method + seq![SPACE], uri);
    vstd::utf8::valid_utf8_concat(method + seq![SPACE] + uri, seq![SPACE]);
    vstd::utf8::valid_utf8_concat(method + seq![SPACE] + uri + seq![SPACE], version);
    assert forall|i: int| 0 <= i < line.len() implies (#[trigger] line[i]) != CR && line[i]
        != LF by {
        if i < method.len() {
            assert(line[i] == method[i]);
        } else if i == method.len() {
        } else if i < method.len() + 1 + uri.len() {
            assert(line[i] == uri[i - method.len() - 1]);
        } else if i == method.len() + 1 + uri.len() {
        } else {
            assert(line[i] == version[i - method.len() - uri.len() - 2]);
        }
    }
    assert(line[0] == method[0]);
    assert(line.last() == version[7]);
    let rest = uri + seq![SPACE] + version;
    assert(line =~= method + seq![SPACE] + rest);
    lemma_split_first(method, SPACE, rest);
    lemma_split_first(uri, SPACE, version);
    lemma_split_first(version, SPACE, Seq::<u8>::empty());
    let parts = split(line, SPACE);
    assert(parts =~= seq![method, uri, version]);
    assert(parts[0] == method);
    assert(parts[1] == uri);
    assert(parts[2] == version);
}

proof fn lemma_status_line(response: ResponseView)
    requires
        valid_response(response),
    ensures
        response.first_line() is Some,
        no_line_break(response.first_line()->Some_0),
        valid_utf8(response.first_line()->Some_0),
        is_trimmed(response.first_line()->Some_0),
        status_line_parsed(response.first_line()->Some_0) == Ok::<ResponseMetadataView, ErrorView>(
            ResponseMetadataView {
                version: response.version,
                status: response.status,
                reason: response.reason,
            },
        ),
{
    lemma_version_text(response.version);
    lemma_separators();
    let version = response.version.text()->Some_0;
    let code = decimal(response.status as nat);
    let reason = response.reason;
    let line = response.first_line()->Some_0;
    lemma_decimal(response.status as nat);
    lemma_parse_decimal(response.status as nat, usize::MAX as nat);
    assert forall|i: int| 0 <= i < code.len() implies (#[trigger] code[i]) < 128 by {
        assert(crate::text::is_digit(code[i]));
    }
    lemma_ascii_is_utf8(code);
    assert(line == version + seq![SPACE] + code + seq![SPACE] + reason);
    vstd::utf8::valid_utf8_concat(version, seq![SPACE]);
    vstd::utf8::valid_utf8_concat(version + seq![SPACE], code);
    vstd::utf8::valid_utf8_concat(version + seq![SPACE] + code, seq![SPACE]);
    vstd::utf8::valid_utf8_concat(version + seq![SPACE] + code + seq![SPACE], reason);
    assert forall|i: int| 0 <= i < line.len() implies (#[trigger] line[i]) != CR && line[i]
        != LF by {
        if i < version.len() {
            assert(line[i] == version[i]);
        } else if i == version.len() {
        } else if i < version.len() + 1 + code.len() {
            assert(line[i] == code[i - version.len() - 1]);
            assert(crate::text::is_digit(code[i - version.len() - 1]));
        } else if i == version.len() + 1 + code.len() {
        } else {
            assert(line[i] == reason[i - version.len() - code.len() - 2]);
        }
    }
    assert(line[0] == version[0]);
    assert(line.last() == reason.last());
    let rest = code + seq![SPACE] + reason;
    assert(line =~= version + seq![SPACE] + rest);
    lemma_split_first(version, SPACE, rest);
    assert forall|i: int| 0 <= i < code.len() implies (#[trigger] code[i]) != SPACE by {
        assert(crate::text::is_digit(code[i]));
    }
    lemma_split_first(code, SPACE, reason);
    assert(is_trimmed(version));
    assert(crate::text::is_digit(code[0]));
    assert(crate::text::is_digit(code.last()));
    assert(is_trimmed(code));
    assert(trim(version) == version);
    assert(trim(code) == code);
    assert(trim(reason) == reason);
}

/// Round trip of a request: a valid request, written to the wire and read by a parser that
/// has read nothing yet, leaves the parser done with every byte taken, and the message that
/// the parser then holds is the request.
pub proof fn law_request_round_trip(request: RequestView)
    requires
        valid_request(request),
    ensures
        request.wire() is Ok,
        fed::<Request>(fresh(), request.wire()->Ok_0).said == Ok::<Status, ErrorView>(
            Status::Done,
        ),
        fed::<Request>(fresh(), request.wire()->Ok_0).buffer.len() == 0,
        message_of::<Request>(fed::<Request>(fresh(), request.wire()->Ok_0).parser) == Ok::<
            RequestView,
            ErrorView,
        >(request),
{
    lemma_request_line(request);
    lemma_message_read::<Request>(
        request.first_line()->Some_0,
        RequestMetadataView { method: request.method, uri: request.uri, version: request.version },
        request.headers,
        request.body,
    );
}

/// Round trip of a response: a valid response, written to the wire and read by a parser that
/// has read nothing yet, leaves the parser done with every byte taken, and the message that
/// the parser then holds is the response.
pub proof fn law_response_round_trip(response: ResponseView)
    requires
        valid_response(response),
    ensures
        response.wire() is Ok,
        fed::<Response>(fresh(), response.wire()->Ok_0).said == Ok::<Status, ErrorView>(
            Status::Done,
        ),
        fed::<Response>(fresh(), response.wire()->Ok_0).buffer.len() == 0,
        message_of::<Response>(fed::<Response>(fresh(), response.wire()->Ok_0).parser) == Ok::<
            ResponseView,
            ErrorView,
        >(response),
{
    lemma_status_line(response);
    lemma_message_read::<Response>(
        response.first_line()->Some_0,
        ResponseMetadataView {
            version: response.version,
            status: response.status,
            reason: response.reason,
        },
        response.headers,
        response.body,
    );
}

/// Round trip in pieces: a valid request, written to the wire and fed to a parser that has
/// read nothing yet in pieces, however the wire form is cut, leaves the parser done exactly
/// when the last byte has arrived, and the message that the parser then holds is the
/// request.
pub proof fn law_request_round_trip_in_pieces(request: RequestView, pieces: Seq<Seq<u8>>)
    requires
        valid_request(request),
        pieces.len() >= 1,
        request.wire() == Ok::<Seq<u8>, ErrorView>(crate::rtsp::parse_laws::joined(pieces)),
    ensures
        ({
            let end = crate::rtsp::parse_laws::fed_in_pieces::<Request>(
                fresh(),
                Seq::<u8>::empty(),
                pieces,
            );
            &&& end.said == Ok::<Status, ErrorView>(Status::Done)
            &&& end.buffer.len() == 0
            &&& message_of::<Request>(end.parser) == Ok::<RequestView, ErrorView>(request)
        }),
{
    law_request_round_trip(request);
    let wire = crate::rtsp::parse_laws::joined(pieces);
    assert(Seq::<u8>::empty() + wire =~= wire);
    crate::rtsp::parse_laws::law_pieces_do_not_matter::<Request>(
        fresh(),
        Seq::<u8>::empty(),
        pieces,
    );
}

/// Round trip in pieces, for a response.
pub proof fn law_response_round_trip_in_pieces(response: ResponseView, pieces: Seq<Seq<u8>>)
    requires
        valid_response(response),
        pieces.len() >= 1,
        response.wire() == Ok::<Seq<u8>, ErrorView>(crate::rtsp::parse_laws::joined(pieces)),
    ensures
        ({
            let end = crate::rtsp::parse_laws::fed_in_pieces::<Response>(
                fresh(),
                Seq::<u8>::empty(),
                pieces,
            );
            &&& end.said == Ok::<Status, ErrorView>(Status::Done)
            &&& end.buffer.len() == 0
            &&& message_of::<Response>(end.parser) == Ok::<ResponseView, ErrorView>(response)
        }),
{
    law_response_round_trip(response);
    let wire = crate::rtsp::parse_laws::joined(pieces);
    assert(Seq::<u8>::empty() + wire =~= wire);
    crate::rtsp::parse_laws::law_pieces_do_not_matter::<Response>(
        fresh(),
        Seq::<u8>::empty(),
        pieces,
    );
}

} // verus!
