//! What holds between the text of one line of a session description and its reading: a value
//! that is written and read comes back as it was.

use crate::sdp::error::ErrorView;
use crate::sdp::sdp::{
    adjustments_parsed, adjustments_text, fields, offset_parsed, spaced_numbers, time_parsed,
    time_unit, times_parsed, AddressType, AttributeView, Bandwidth, ConnectionView, Kind, Media,
    NetworkType, OriginView, Protocol, RepeatTimesView, TimeActive, TimeZoneAdjustment, Version,
};
use crate::text::{
    decimal, has_suffix, is_digit, is_space, lemma_decimal, lemma_decimal_digits,
    lemma_parse_decimal, lemma_split_first, lit, parse_signed, parse_unsigned, signed_decimal,
    split, split_once, without, COLON, DASH, LF, SPACE,
};
use vstd::prelude::*;

verus! {

/// The bytes of some words of the format, one by one.
pub proof fn lemma_key_words()
    ensures
        lit("v=") == seq![118u8, 61u8],
        lit("o=") == seq![111u8, 61u8],
        lit("s=") == seq![115u8, 61u8],
        lit("i=") == seq![105u8, 61u8],
        lit("u=") == seq![117u8, 61u8],
        lit("e=") == seq![101u8, 61u8],
        lit("p=") == seq![112u8, 61u8],
        lit("c=") == seq![99u8, 61u8],
        lit("b=") == seq![98u8, 61u8],
        lit("t=") == seq![116u8, 61u8],
        lit("r=") == seq![114u8, 61u8],
        lit("z=") == seq![122u8, 61u8],
        lit("a=") == seq![97u8, 61u8],
        lit("m=") == seq![109u8, 61u8],
{
    broadcast use vstd::string::is_ascii_spec_bytes;

    reveal_strlit("v=");
    assert(vstd::string::is_ascii("v="));
    assert(lit("v=") =~= seq![118u8, 61u8]);
    reveal_strlit("o=");
    assert(vstd::string::is_ascii("o="));
    assert(lit("o=") =~= seq![111u8, 61u8]);
    reveal_strlit("s=");
    assert(vstd::string::is_ascii("s="));
    assert(lit("s=") =~= seq![115u8, 61u8]);
    reveal_strlit("i=");
    assert(vstd::string::is_ascii("i="));
    assert(lit("i=") =~= seq![105u8, 61u8]);
    reveal_strlit("u=");
    assert(vstd::string::is_ascii("u="));
    assert(lit("u=") =~= seq![117u8, 61u8]);
    reveal_strlit("e=");
    assert(vstd::string::is_ascii("e="));
    assert(lit("e=") =~= seq![101u8, 61u8]);
    reveal_strlit("p=");
    assert(vstd::string::is_ascii("p="));
    assert(lit("p=") =~= seq![112u8, 61u8]);
    reveal_strlit("c=");
    assert(vstd::string::is_ascii("c="));
    assert(lit("c=") =~= seq![99u8, 61u8]);
    reveal_strlit("b=");
    assert(vstd::string::is_ascii("b="));
    assert(lit("b=") =~= seq![98u8, 61u8]);
    reveal_strlit("t=");
    assert(vstd::string::is_ascii("t="));
    assert(lit("t=") =~= seq![116u8, 61u8]);
    reveal_strlit("r=");
    assert(vstd::string::is_ascii("r="));
    assert(lit("r=") =~= seq![114u8, 61u8]);
    reveal_strlit("z=");
    assert(vstd::string::is_ascii("z="));
    assert(lit("z=") =~= seq![122u8, 61u8]);
    reveal_strlit("a=");
    assert(vstd::string::is_ascii("a="));
    assert(lit("a=") =~= seq![97u8, 61u8]);
    reveal_strlit("m=");
    assert(vstd::string::is_ascii("m="));
    assert(lit("m=") =~= seq![109u8, 61u8]);
}

/// The bytes of some words of the format, one by one.
pub proof fn lemma_address_words()
    ensures
        lit("IN") == seq![73u8, 78u8],
        lit("IP4") == seq![73u8, 80u8, 52u8],
        lit("IP6") == seq![73u8, 80u8, 54u8],
{
    broadcast use vstd::string::is_ascii_spec_bytes;

    reveal_strlit("IN");
    assert(vstd::string::is_ascii("IN"));
    assert(lit("IN") =~= seq![73u8, 78u8]);
    reveal_strlit("IP4");
    assert(vstd::string::is_ascii("IP4"));
    assert(lit("IP4") =~= seq![73u8, 80u8, 52u8]);
    reveal_strlit("IP6");
    assert(vstd::string::is_ascii("IP6"));
    assert(lit("IP6") =~= seq![73u8, 80u8, 54u8]);
}

/// The bytes of some words of the format, one by one.
pub proof fn lemma_bandwidth_words()
    ensures
        lit("CT:") == seq![67u8, 84u8, 58u8],
        lit("AS:") == seq![65u8, 83u8, 58u8],
        lit("CT") == seq![67u8, 84u8],
        lit("AS") == seq![65u8, 83u8],
{
    broadcast use vstd::string::is_ascii_spec_bytes;

    reveal_strlit("CT:");
    assert(vstd::string::is_ascii("CT:"));
    assert(lit("CT:") =~= seq![67u8, 84u8, 58u8]);
    reveal_strlit("AS:");
    assert(vstd::string::is_ascii("AS:"));
    assert(lit("AS:") =~= seq![65u8, 83u8, 58u8]);
    reveal_strlit("CT");
    assert(vstd::string::is_ascii("CT"));
    assert(lit("CT") =~= seq![67u8, 84u8]);
    reveal_strlit("AS");
    assert(vstd::string::is_ascii("AS"));
    assert(lit("AS") =~= seq![65u8, 83u8]);
}

/// The bytes of some words of the format, one by one.
pub proof fn lemma_kind_words()
    ensures
        lit("video") == seq![118u8, 105u8, 100u8, 101u8, 111u8],
        lit("audio") == seq![97u8, 117u8, 100u8, 105u8, 111u8],
        lit("text") == seq![116u8, 101u8, 120u8, 116u8],
        lit("application") == seq![97u8, 112u8, 112u8, 108u8, 105u8, 99u8, 97u8, 116u8, 105u8, 111u8, 110u8],
        lit("message") == seq![109u8, 101u8, 115u8, 115u8, 97u8, 103u8, 101u8],
{
    broadcast use vstd::string::is_ascii_spec_bytes;

    reveal_strlit("video");
    assert(vstd::string::is_ascii("video"));
    assert(lit("video") =~= seq![118u8, 105u8, 100u8, 101u8, 111u8]);
    reveal_strlit("audio");
    assert(vstd::string::is_ascii("audio"));
    assert(lit("audio") =~= seq![97u8, 117u8, 100u8, 105u8, 111u8]);
    reveal_strlit("text");
    assert(vstd::string::is_ascii("text"));
    assert(lit("text") =~= seq![116u8, 101u8, 120u8, 116u8]);
    reveal_strlit("application");
    assert(vstd::string::is_ascii("application"));
    assert(lit("application") =~= seq![97u8, 112u8, 112u8, 108u8, 105u8, 99u8, 97u8, 116u8, 105u8, 111u8, 110u8]);
    reveal_strlit("message");
    assert(vstd::string::is_ascii("message"));
    assert(lit("message") =~= seq![109u8, 101u8, 115u8, 115u8, 97u8, 103u8, 101u8]);
}

/// The bytes of some words of the format, one by one.
pub proof fn lemma_protocol_words()
    ensures
        lit("RTP/AVP") == seq![82u8, 84u8, 80u8, 47u8, 65u8, 86u8, 80u8],
        lit("RTP/SAVP") == seq![82u8, 84u8, 80u8, 47u8, 83u8, 65u8, 86u8, 80u8],
{
    broadcast use vstd::string::is_ascii_spec_bytes;

    reveal_strlit("RTP/AVP");
    assert(vstd::string::is_ascii("RTP/AVP"));
    assert(lit("RTP/AVP") =~= seq![82u8, 84u8, 80u8, 47u8, 65u8, 86u8, 80u8]);
    reveal_strlit("RTP/SAVP");
    assert(vstd::string::is_ascii("RTP/SAVP"));
    assert(lit("RTP/SAVP") =~= seq![82u8, 84u8, 80u8, 47u8, 83u8, 65u8, 86u8, 80u8]);
}

/// The bytes of some words of the format, one by one.
pub proof fn lemma_unit_words()
    ensures
        lit("s") == seq![115u8],
        lit("m") == seq![109u8],
        lit("h") == seq![104u8],
        lit("d") == seq![100u8],
{
    broadcast use vstd::string::is_ascii_spec_bytes;

    reveal_strlit("s");
    assert(vstd::string::is_ascii("s"));
    assert(lit("s") =~= seq![115u8]);
    reveal_strlit("m");
    assert(vstd::string::is_ascii("m"));
    assert(lit("m") =~= seq![109u8]);
    reveal_strlit("h");
    assert(vstd::string::is_ascii("h"));
    assert(lit("h") =~= seq![104u8]);
    reveal_strlit("d");
    assert(vstd::string::is_ascii("d"));
    assert(lit("d") =~= seq![100u8]);
}

/// The bytes of some words of the format, one by one.
pub proof fn lemma_zero_words()
    ensures
        lit("0") == seq![48u8],
        lit("0 0") == seq![48u8, 32u8, 48u8],
{
    broadcast use vstd::string::is_ascii_spec_bytes;

    reveal_strlit("0");
    assert(vstd::string::is_ascii("0"));
    assert(lit("0") =~= seq![48u8]);
    reveal_strlit("0 0");
    assert(vstd::string::is_ascii("0 0"));
    assert(lit("0 0") =~= seq![48u8, 32u8, 48u8]);
}

/// Whether `text` can be the value of a line: it has no line feed and does not end in white
/// space.
pub open spec fn is_line_value(text: Seq<u8>) -> bool {
    without(text, LF) && (text.len() > 0 ==> !is_space(text.last()))
}

/// Whether `text` can be a field of a line: it has neither a space nor a line feed.
pub open spec fn is_field(text: Seq<u8>) -> bool {
    without(text, SPACE) && without(text, LF)
}

/// Whether `text` can be the last field of a line: a field that is not empty and does not
/// end in white space.
pub open spec fn is_last_field(text: Seq<u8>) -> bool {
    is_field(text) && text.len() > 0 && !is_space(text.last())
}

/// A number in decimal is a field, and the last field of a line if need be.
pub proof fn lemma_decimal_field(n: nat)
    ensures
        is_last_field(decimal(n)),
        is_digit(decimal(n).last()),
{
    lemma_decimal_digits(n, SPACE);
    lemma_decimal_digits(n, LF);
}

proof fn lemma_network_type(network_type: NetworkType)
    ensures
        is_field(network_type.text()),
        NetworkType::of_text(network_type.text()) == Ok::<NetworkType, ErrorView>(network_type),
{
    lemma_address_words();
}

proof fn lemma_address_type(address_type: AddressType)
    ensures
        is_field(address_type.text()),
        AddressType::of_text(address_type.text()) == Ok::<AddressType, ErrorView>(address_type),
{
    lemma_address_words();
}

proof fn lemma_kind(kind: Kind)
    ensures
        is_field(kind.text()),
        Kind::of_text(kind.text()) == Ok::<Kind, ErrorView>(kind),
{
    lemma_kind_words();
    let text = kind.text();
    assert(text.len() <= 11);
    assert forall|i: int| 0 <= i < text.len() implies (#[trigger] text[i]) >= 97 by {
        if i == 0 {
        } else if i == 1 {
        } else if i == 2 {
        } else if i == 3 {
        } else if i == 4 {
        } else if i == 5 {
        } else if i == 6 {
        } else if i == 7 {
        } else if i == 8 {
        } else if i == 9 {
        } else {
        }
    }
    assert(text[0] == kind.text()[0]);
}

proof fn lemma_protocol(protocol: Protocol)
    ensures
        is_field(protocol.text()),
        Protocol::of_text(protocol.text()) == Ok::<Protocol, ErrorView>(protocol),
{
    lemma_protocol_words();
}

/// A line value that is made of two: what is in front has no line feed, and what is behind
/// is a line value that is not empty.
pub proof fn lemma_line_value_joined(front: Seq<u8>, back: Seq<u8>)
    requires
        without(front, LF),
        is_line_value(back),
        back.len() > 0,
    ensures
        is_line_value(front + back),
{
    let all = front + back;
    assert forall|i: int| 0 <= i < all.len() implies (#[trigger] all[i]) != LF by {
        if i < front.len() {
            assert(all[i] == front[i]);
        } else {
            assert(all[i] == back[i - front.len()]);
        }
    }
    assert(all.last() == back.last());
}

/// The fields of `list` with a space between each two.
pub open spec fn spaced(list: Seq<Seq<u8>>) -> Seq<u8>
    decreases list.len(),
{
    if list.len() == 0 {
        Seq::<u8>::empty()
    } else if list.len() == 1 {
        list[0]
    } else {
        list[0] + seq![SPACE] + spaced(list.skip(1))
    }
}

/// Whether every one of `list` is a field.
pub open spec fn all_fields(list: Seq<Seq<u8>>) -> bool {
    forall|i: int| 0 <= i < list.len() ==> is_field(#[trigger] list[i])
}

pub proof fn lemma_spaced_cons(first: Seq<u8>, list: Seq<Seq<u8>>)
    requires
        list.len() >= 1,
    ensures
        spaced(seq![first] + list) == first + seq![SPACE] + spaced(list),
{
    let all = seq![first] + list;
    assert(all[0] == first);
    assert(all.skip(1) =~= list);
}

/// Fields that are written with spaces between them are read as the fields.
pub proof fn lemma_spaced_split(list: Seq<Seq<u8>>)
    requires
        list.len() >= 1,
        all_fields(list),
    ensures
        fields(spaced(list)) == list,
        without(spaced(list), LF),
    decreases list.len(),
{
    assert(is_field(list[0]));
    if list.len() == 1 {
        lemma_split_first(list[0], SPACE, Seq::<u8>::empty());
        assert(list =~= seq![list[0]]);
    } else {
        let rest = list.skip(1);
        assert forall|i: int| 0 <= i < rest.len() implies is_field(#[trigger] rest[i]) by {
            assert(rest[i] == list[i + 1]);
        }
        lemma_spaced_split(rest);
        lemma_split_first(list[0], SPACE, spaced(rest));
        assert(seq![list[0]] + rest =~= list);
        let text = spaced(list);
        assert forall|i: int| 0 <= i < text.len() implies (#[trigger] text[i]) != LF by {
            if i < list[0].len() {
                assert(text[i] == list[0][i]);
            } else if i > list[0].len() {
                assert(text[i] == spaced(rest)[i - list[0].len() - 1]);
            }
        }
    }
}

/// Fields that are written with spaces between them end as the last of them ends.
pub proof fn lemma_spaced_last(list: Seq<Seq<u8>>)
    requires
        list.len() >= 1,
        list.last().len() > 0,
    ensures
        spaced(list).len() > 0,
        spaced(list).last() == list.last().last(),
    decreases list.len(),
{
    if list.len() > 1 {
        let rest = list.skip(1);
        assert(rest.last() == list.last());
        lemma_spaced_last(rest);
    }
}

/// Whether an origin comes back from its text as it is.
pub open spec fn valid_origin(origin: OriginView) -> bool {
    &&& is_field(origin.username)
    &&& is_field(origin.session_id)
    &&& is_field(origin.session_version)
    &&& is_last_field(origin.unicast_address)
}

/// The fields of an origin.
pub open spec fn origin_fields(origin: OriginView) -> Seq<Seq<u8>> {
    seq![
        origin.username,
        origin.session_id,
        origin.session_version,
        origin.network_type.text(),
        origin.address_type.text(),
        origin.unicast_address,
    ]
}

proof fn lemma_origin_text(origin: OriginView)
    ensures
        origin.text() == spaced(origin_fields(origin)),
{
    let f = origin_fields(origin);
    let l5 = seq![f[5]];
    let l4 = seq![f[4]] + l5;
    let l3 = seq![f[3]] + l4;
    let l2 = seq![f[2]] + l3;
    let l1 = seq![f[1]] + l2;
    let l0 = seq![f[0]] + l1;
    lemma_spaced_cons(f[4], l5);
    lemma_spaced_cons(f[3], l4);
    lemma_spaced_cons(f[2], l3);
    lemma_spaced_cons(f[1], l2);
    lemma_spaced_cons(f[0], l1);
    assert(l0 =~= f);
    assert(spaced(l5) == f[5]);
    assert(origin.text() =~= f[0] + seq![SPACE] + (f[1] + seq![SPACE] + (f[2] + seq![SPACE] + (f[3]
        + seq![SPACE] + (f[4] + seq![SPACE] + f[5])))));
}

pub proof fn lemma_origin_round_trip(origin: OriginView)
    requires
        valid_origin(origin),
    ensures
        OriginView::of_text(origin.text()) == Ok::<OriginView, ErrorView>(origin),
        is_line_value(origin.text()),
        origin.text().len() > 0,
{
    lemma_network_type(origin.network_type);
    lemma_address_type(origin.address_type);
    lemma_origin_text(origin);
    let f = origin_fields(origin);
    assert(all_fields(f)) by {
        assert forall|i: int| 0 <= i < f.len() implies is_field(#[trigger] f[i]) by {
            if i == 0 {
            } else if i == 1 {
            } else if i == 2 {
            } else if i == 3 {
            } else if i == 4 {
            } else {
            }
        }
    }
    lemma_spaced_split(f);
    lemma_spaced_last(f);
    assert(f.last() == origin.unicast_address);
    let parts = fields(origin.text());
    assert(parts == f);
    assert(parts.len() == 6);
    assert(parts[3] == origin.network_type.text());
    assert(parts[4] == origin.address_type.text());
}

/// Whether a connection comes back from its text as it is.
pub open spec fn valid_connection(connection: ConnectionView) -> bool {
    is_last_field(connection.address)
}

pub proof fn lemma_connection_round_trip(connection: ConnectionView)
    requires
        valid_connection(connection),
    ensures
        ConnectionView::of_text(connection.text()) == Ok::<ConnectionView, ErrorView>(connection),
        is_line_value(connection.text()),
        connection.text().len() > 0,
{
    lemma_network_type(connection.network_type);
    lemma_address_type(connection.address_type);
    let f2 = connection.address;
    let t1 = connection.address_type.text() + seq![SPACE] + f2;
    let t0 = connection.network_type.text() + seq![SPACE] + t1;
    assert(connection.text() =~= t0);
    lemma_split_first(connection.network_type.text(), SPACE, t1);
    lemma_split_first(connection.address_type.text(), SPACE, f2);
    lemma_split_first(f2, SPACE, Seq::<u8>::empty());
    let parts = fields(t0);
    assert(parts =~= seq![connection.network_type.text(), connection.address_type.text(), f2]);
    assert(is_line_value(f2));
    lemma_line_value_joined(connection.address_type.text() + seq![SPACE], f2);
    lemma_line_value_joined(connection.network_type.text() + seq![SPACE], t1);
}

pub proof fn lemma_bandwidth_round_trip(bandwidth: Bandwidth)
    ensures
        Bandwidth::of_text(bandwidth.text()) == Ok::<Bandwidth, ErrorView>(bandwidth),
        is_line_value(bandwidth.text()),
        bandwidth.text().len() > 0,
{
    lemma_bandwidth_words();
    let rate: nat = match bandwidth {
        Bandwidth::ConferenceTotal(rate) => rate as nat,
        Bandwidth::ApplicationSpecific(rate) => rate as nat,
    };
    let name = match bandwidth {
        Bandwidth::ConferenceTotal(_) => lit("CT"),
        Bandwidth::ApplicationSpecific(_) => lit("AS"),
    };
    lemma_decimal_field(rate);
    lemma_parse_decimal(rate, usize::MAX as nat);
    assert(bandwidth.text() =~= name + seq![COLON] + decimal(rate));
    lemma_split_first(name, COLON, decimal(rate));
    lemma_line_value_joined(name + seq![COLON], decimal(rate));
}

pub proof fn lemma_time_active_round_trip(time: TimeActive)
    ensures
        TimeActive::of_text(time.text()) == Ok::<TimeActive, ErrorView>(time),
        is_line_value(time.text()),
        time.text().len() > 0,
{
    lemma_decimal_field(time.start as nat);
    lemma_decimal_field(time.stop as nat);
    lemma_parse_decimal(time.start as nat, u64::MAX as nat);
    lemma_parse_decimal(time.stop as nat, u64::MAX as nat);
    lemma_split_first(decimal(time.start as nat), SPACE, decimal(time.stop as nat));
    lemma_line_value_joined(decimal(time.start as nat) + seq![SPACE], decimal(time.stop as nat));
}

/// Whether an attribute comes back from its text as it is: the name of a value has neither
/// colon nor line feed, a property has no colon, and the text is a line value.
pub open spec fn valid_attribute(attribute: AttributeView) -> bool {
    match attribute {
        AttributeView::Property(value) => without(value, COLON) && is_line_value(value),
        AttributeView::Value(variable, value) => without(variable, COLON) && without(variable, LF)
            && is_line_value(value),
    }
}

pub proof fn lemma_attribute_round_trip(attribute: AttributeView)
    requires
        valid_attribute(attribute),
    ensures
        AttributeView::of_text(attribute.text()) == attribute,
        is_line_value(attribute.text()),
{
    match attribute {
        AttributeView::Property(value) => {
            lemma_split_first(value, COLON, Seq::<u8>::empty());
        },
        AttributeView::Value(variable, value) => {
            lemma_split_first(variable, COLON, value);
            let text = variable + seq![COLON] + value;
            if value.len() > 0 {
                lemma_line_value_joined(variable + seq![COLON], value);
            } else {
                assert(text =~= variable + seq![COLON]);
                assert(text.last() == COLON);
                assert forall|i: int| 0 <= i < text.len() implies (#[trigger] text[i]) != LF by {
                    if i < variable.len() {
                        assert(text[i] == variable[i]);
                    }
                }
            }
        },
    }
}

/// The fields of a media description.
pub open spec fn media_fields(media: Media) -> Seq<Seq<u8>> {
    seq![
        media.kind.text(),
        decimal(media.port as nat),
        media.protocol.text(),
        decimal(media.format as nat),
    ]
}

proof fn lemma_media_text(media: Media)
    ensures
        media.text() == spaced(media_fields(media)),
{
    let f = media_fields(media);
    let l3 = seq![f[3]];
    let l2 = seq![f[2]] + l3;
    let l1 = seq![f[1]] + l2;
    let l0 = seq![f[0]] + l1;
    lemma_spaced_cons(f[2], l3);
    lemma_spaced_cons(f[1], l2);
    lemma_spaced_cons(f[0], l1);
    assert(l0 =~= f);
    assert(spaced(l3) == f[3]);
    assert(media.text() =~= f[0] + seq![SPACE] + (f[1] + seq![SPACE] + (f[2] + seq![SPACE]
        + f[3])));
}

pub proof fn lemma_media_round_trip(media: Media)
    ensures
        Media::of_text(media.text()) == Ok::<Media, ErrorView>(media),
        is_line_value(media.text()),
        media.text().len() > 0,
{
    lemma_kind(media.kind);
    lemma_protocol(media.protocol);
    lemma_decimal_field(media.port as nat);
    lemma_decimal_field(media.format as nat);
    lemma_parse_decimal(media.port as nat, u16::MAX as nat);
    lemma_parse_decimal(media.format as nat, usize::MAX as nat);
    lemma_media_text(media);
    let f = media_fields(media);
    assert(all_fields(f)) by {
        assert forall|i: int| 0 <= i < f.len() implies is_field(#[trigger] f[i]) by {
            if i == 0 {
            } else if i == 1 {
            } else if i == 2 {
            } else {
            }
        }
    }
    lemma_spaced_split(f);
    lemma_spaced_last(f);
    assert(f.last() == decimal(media.format as nat));
    let parts = fields(media.text());
    assert(parts == f);
    assert(parts.len() == 4);
    assert(parts[0] == media.kind.text());
    assert(parts[1] == decimal(media.port as nat));
    assert(parts[2] == media.protocol.text());
    assert(parts[3] == decimal(media.format as nat));
}

pub proof fn lemma_spaced_snoc(list: Seq<Seq<u8>>, last: Seq<u8>)
    requires
        list.len() >= 1,
    ensures
        spaced(list.push(last)) == spaced(list) + seq![SPACE] + last,
    decreases list.len(),
{
    let all = list.push(last);
    assert(all[0] == list[0]);
    if list.len() == 1 {
        assert(all.skip(1) =~= seq![last]);
        assert(spaced(seq![last]) == last);
    } else {
        assert(all.skip(1) =~= list.skip(1).push(last));
        lemma_spaced_snoc(list.skip(1), last);
        assert(list[0] + seq![SPACE] + (spaced(list.skip(1)) + seq![SPACE] + last) =~= list[0]
            + seq![SPACE] + spaced(list.skip(1)) + seq![SPACE] + last);
    }
}

/// The numbers of `numbers` in decimal.
pub open spec fn decimals(numbers: Seq<u64>) -> Seq<Seq<u8>> {
    Seq::new(numbers.len(), |i: int| decimal(numbers[i] as nat))
}

pub proof fn lemma_decimals_fields(numbers: Seq<u64>)
    ensures
        all_fields(decimals(numbers)),
{
    assert forall|i: int| 0 <= i < numbers.len() implies is_field(#[trigger] decimals(numbers)[i]) by {
        lemma_decimal_field(numbers[i] as nat);
    }
}

/// A text that ends in a digit has no unit behind it.
pub proof fn lemma_no_unit(text: Seq<u8>)
    requires
        text.len() > 0,
        is_digit(text.last()),
    ensures
        time_unit(text) == (text, 1nat),
{
    lemma_unit_words();
    let last = text.skip(text.len() - 1);
    assert(last[0] == text.last());
    assert(lit("s")[0] == 115u8);
    assert(lit("m")[0] == 109u8);
    assert(lit("h")[0] == 104u8);
    assert(lit("d")[0] == 100u8);
    assert(!has_suffix(text, lit("s")));
    assert(!has_suffix(text, lit("m")));
    assert(!has_suffix(text, lit("h")));
    assert(!has_suffix(text, lit("d")));
}

/// A time without a unit is read as it is.
pub proof fn lemma_time_round_trip(time: u64)
    ensures
        time_parsed(decimal(time as nat)) == Ok::<u64, ErrorView>(time),
        time_unit(decimal(time as nat)) == (decimal(time as nat), 1nat),
{
    lemma_decimal_field(time as nat);
    lemma_parse_decimal(time as nat, u64::MAX as nat);
    let text = decimal(time as nat);
    lemma_no_unit(text);
    assert(parse_unsigned(text, u64::MAX as nat) == Some(time as nat));
    assert((time as nat) * 1 == time as nat);
}

/// Times without units are read as they are.
pub proof fn lemma_times_round_trip(numbers: Seq<u64>)
    ensures
        times_parsed(decimals(numbers)) == Ok::<Seq<u64>, ErrorView>(numbers),
    decreases numbers.len(),
{
    if numbers.len() == 0 {
        assert(numbers =~= Seq::<u64>::empty());
    } else {
        let head = numbers.drop_last();
        lemma_times_round_trip(head);
        assert(decimals(numbers).drop_last() =~= decimals(head));
        assert(decimals(numbers).last() == decimal(numbers.last() as nat));
        lemma_time_round_trip(numbers.last());
        assert(head.push(numbers.last()) =~= numbers);
    }
}

/// Numbers behind fields: the text of the fields, then every number behind a space.
pub proof fn lemma_spaced_numbers(list: Seq<Seq<u8>>, numbers: Seq<u64>)
    requires
        list.len() >= 1,
    ensures
        spaced(list + decimals(numbers)) == spaced(list) + spaced_numbers(numbers),
    decreases numbers.len(),
{
    if numbers.len() == 0 {
        assert(list + decimals(numbers) =~= list);
        assert(spaced(list) + Seq::<u8>::empty() =~= spaced(list));
    } else {
        let head = numbers.drop_last();
        lemma_spaced_numbers(list, head);
        let last = decimal(numbers.last() as nat);
        assert(list + decimals(numbers) =~= (list + decimals(head)).push(last));
        lemma_spaced_snoc(list + decimals(head), last);
        assert(spaced(list) + spaced_numbers(head) + seq![SPACE] + last =~= spaced(list) + (
        spaced_numbers(head) + seq![SPACE] + last));
    }
}

/// Whether repeat times come back from their text as they are: they have an offset.
pub open spec fn valid_repeat_times(times: RepeatTimesView) -> bool {
    times.offsets.len() >= 1
}

pub proof fn lemma_repeat_times_round_trip(times: RepeatTimesView)
    requires
        valid_repeat_times(times),
    ensures
        RepeatTimesView::of_text(times.text()) == Ok::<RepeatTimesView, ErrorView>(times),
        is_line_value(times.text()),
        times.text().len() > 0,
{
    let front = seq![times.repeat_interval, times.active_duration];
    let numbers = front + times.offsets;
    let list = decimals(numbers);
    let two = decimals(front);
    assert(list =~= two + decimals(times.offsets));
    lemma_spaced_numbers(two, times.offsets);
    lemma_spaced_cons(two[0], seq![two[1]]);
    assert(seq![two[0]] + seq![two[1]] =~= two);
    assert(spaced(seq![two[1]]) == two[1]);
    assert(times.text() =~= spaced(two) + spaced_numbers(times.offsets));
    assert(times.text() == spaced(list));
    lemma_decimals_fields(numbers);
    lemma_spaced_split(list);
    lemma_spaced_last(list);
    lemma_decimal_field(numbers.last() as nat);
    assert(list.last() == decimal(numbers.last() as nat));
    let parts = fields(times.text());
    assert(parts == list);
    let first = numbers.subrange(0, 3);
    let more = numbers.subrange(3, numbers.len() as int);
    assert(parts.subrange(0, 3) =~= decimals(first));
    assert(parts.subrange(3, parts.len() as int) =~= decimals(more));
    lemma_times_round_trip(first);
    lemma_times_round_trip(more);
    assert(seq![first[2]] + more =~= times.offsets);
    assert(first[0] == times.repeat_interval);
    assert(first[1] == times.active_duration);
}

/// A signed number in decimal is a field that ends in a digit, and is read as it is.
pub proof fn lemma_signed_round_trip(offset: i64)
    ensures
        is_last_field(signed_decimal(offset as int)),
        is_digit(signed_decimal(offset as int).last()),
        offset_parsed(signed_decimal(offset as int)) == Ok::<i64, ErrorView>(offset),
{
    let text = signed_decimal(offset as int);
    let magnitude: nat = if offset < 0 {
        (-offset) as nat
    } else {
        offset as nat
    };
    let digits = decimal(magnitude);
    lemma_decimal_field(magnitude);
    lemma_decimal(magnitude);
    assert(is_digit(digits[0])) by {
        lemma_decimal_digits(magnitude, SPACE);
    }
    if offset < 0 {
        assert(text == seq![DASH] + digits);
        assert(text.skip(1) =~= digits);
        assert(text.last() == digits.last());
        assert forall|i: int| 0 <= i < text.len() implies (#[trigger] text[i]) != SPACE && text[i]
            != LF by {
            if i > 0 {
                assert(text[i] == digits[i - 1]);
                assert(is_digit(digits[i - 1]));
            }
        }
        assert(parse_signed(text, i64::MIN as int, i64::MAX as int) == Some(offset as int));
    } else {
        assert(text == digits);
        lemma_parse_decimal(magnitude, i64::MAX as nat);
        assert(parse_signed(text, i64::MIN as int, i64::MAX as int) == Some(offset as int));
    }
    lemma_no_unit(text);
    assert((offset as int) * 1 == offset as int);
}

/// The fields of adjustments: the time and the offset of each.
pub open spec fn adjustment_fields(adjustments: Seq<TimeZoneAdjustment>) -> Seq<Seq<u8>>
    decreases adjustments.len(),
{
    if adjustments.len() == 0 {
        Seq::<Seq<u8>>::empty()
    } else {
        adjustment_fields(adjustments.drop_last()) + seq![
            decimal(adjustments.last().time as nat),
            signed_decimal(adjustments.last().offset as int),
        ]
    }
}

proof fn lemma_adjustment_fields(adjustments: Seq<TimeZoneAdjustment>)
    ensures
        adjustment_fields(adjustments).len() == 2 * adjustments.len(),
        all_fields(adjustment_fields(adjustments)),
        adjustments.len() > 0 ==> adjustment_fields(adjustments).last() == signed_decimal(
            adjustments.last().offset as int,
        ),
    decreases adjustments.len(),
{
    if adjustments.len() > 0 {
        let head = adjustments.drop_last();
        lemma_adjustment_fields(head);
        lemma_decimal_field(adjustments.last().time as nat);
        lemma_signed_round_trip(adjustments.last().offset);
        let all = adjustment_fields(adjustments);
        assert forall|i: int| 0 <= i < all.len() implies is_field(#[trigger] all[i]) by {
            if i < 2 * head.len() {
                assert(all[i] == adjustment_fields(head)[i]);
            }
        }
    }
}

proof fn lemma_adjustments_text(adjustments: Seq<TimeZoneAdjustment>)
    requires
        adjustments.len() >= 1,
    ensures
        adjustments_text(adjustments) == spaced(adjustment_fields(adjustments)),
    decreases adjustments.len(),
{
    let last = adjustments.last();
    let time = decimal(last.time as nat);
    let offset = signed_decimal(last.offset as int);
    let head = adjustments.drop_last();
    lemma_adjustment_fields(head);
    if adjustments.len() == 1 {
        assert(head =~= Seq::<TimeZoneAdjustment>::empty());
        assert(adjustment_fields(adjustments) =~= seq![time, offset]);
        lemma_spaced_cons(time, seq![offset]);
        assert(seq![time] + seq![offset] =~= seq![time, offset]);
        assert(spaced(seq![offset]) == offset);
        assert(adjustments[0] == last);
    } else {
        lemma_adjustments_text(head);
        let before = adjustment_fields(head);
        lemma_spaced_snoc(before, time);
        lemma_spaced_snoc(before.push(time), offset);
        assert(before.push(time).push(offset) =~= adjustment_fields(adjustments));
        assert(adjustments_text(head) + seq![SPACE] + (time + seq![SPACE] + offset) =~= spaced(
            before,
        ) + seq![SPACE] + time + seq![SPACE] + offset);
    }
}

proof fn lemma_adjustments_parsed_push(
    parts: Seq<Seq<u8>>,
    line: Seq<u8>,
    time: Seq<u8>,
    offset: Seq<u8>,
)
    requires
        adjustments_parsed(parts, line) is Ok,
        TimeZoneAdjustment::of_texts(time, offset) is Ok,
    ensures
        adjustments_parsed(parts + seq![time, offset], line) == Ok::<
            Seq<TimeZoneAdjustment>,
            ErrorView,
        >(
            adjustments_parsed(parts, line)->Ok_0.push(
                TimeZoneAdjustment::of_texts(time, offset)->Ok_0,
            ),
        ),
    decreases parts.len(),
{
    let all = parts + seq![time, offset];
    let added = TimeZoneAdjustment::of_texts(time, offset)->Ok_0;
    if parts.len() == 0 {
        assert(all[0] == time && all[1] == offset);
        assert(all.skip(2) =~= Seq::<Seq<u8>>::empty());
        assert(adjustments_parsed(all.skip(2), line) == Ok::<Seq<TimeZoneAdjustment>, ErrorView>(
            Seq::<TimeZoneAdjustment>::empty(),
        ));
        assert(seq![added] + Seq::<TimeZoneAdjustment>::empty() =~= Seq::<
            TimeZoneAdjustment,
        >::empty().push(added));
    } else {
        assert(parts.len() >= 2);
        assert(all[0] == parts[0] && all[1] == parts[1]);
        assert(all.skip(2) =~= parts.skip(2) + seq![time, offset]);
        lemma_adjustments_parsed_push(parts.skip(2), line, time, offset);
        let first = TimeZoneAdjustment::of_texts(parts[0], parts[1])->Ok_0;
        let rest = adjustments_parsed(parts.skip(2), line)->Ok_0;
        assert(seq![first] + rest.push(added) =~= (seq![first] + rest).push(added));
    }
}

/// Whether adjustments come back from their text as they are: there is one of them at
/// least.
pub open spec fn valid_adjustments(adjustments: Seq<TimeZoneAdjustment>) -> bool {
    adjustments.len() >= 1
}

proof fn lemma_adjustment_fields_parsed(adjustments: Seq<TimeZoneAdjustment>, line: Seq<u8>)
    ensures
        adjustments_parsed(adjustment_fields(adjustments), line) == Ok::<
            Seq<TimeZoneAdjustment>,
            ErrorView,
        >(adjustments),
    decreases adjustments.len(),
{
    if adjustments.len() == 0 {
        assert(adjustments =~= Seq::<TimeZoneAdjustment>::empty());
    } else {
        let head = adjustments.drop_last();
        let last = adjustments.last();
        lemma_adjustment_fields_parsed(head, line);
        lemma_parse_decimal(last.time as nat, u64::MAX as nat);
        lemma_signed_round_trip(last.offset);
        let time = decimal(last.time as nat);
        let offset = signed_decimal(last.offset as int);
        assert(TimeZoneAdjustment::of_texts(time, offset) == Ok::<TimeZoneAdjustment, ErrorView>(
            last,
        ));
        lemma_adjustments_parsed_push(adjustment_fields(head), line, time, offset);
        assert(head.push(last) =~= adjustments);
    }
}

pub proof fn lemma_adjustments_round_trip(adjustments: Seq<TimeZoneAdjustment>)
    requires
        valid_adjustments(adjustments),
    ensures
        adjustments_parsed(
            fields(adjustments_text(adjustments)),
            adjustments_text(adjustments),
        ) == Ok::<Seq<TimeZoneAdjustment>, ErrorView>(adjustments),
        is_line_value(adjustments_text(adjustments)),
        adjustments_text(adjustments).len() > 0,
{
    lemma_adjustments_text(adjustments);
    lemma_adjustment_fields(adjustments);
    let list = adjustment_fields(adjustments);
    lemma_spaced_split(list);
    lemma_spaced_last(list);
    lemma_signed_round_trip(adjustments.last().offset);
    lemma_adjustment_fields_parsed(adjustments, adjustments_text(adjustments));
}

} // verus!
