//! What holds between a session description and its text: a description that is written and
//! read comes back as it was.

use crate::sdp::error::ErrorView;
use crate::sdp::line_laws::{
    is_line_value, lemma_adjustments_round_trip, lemma_attribute_round_trip,
    lemma_bandwidth_round_trip, lemma_connection_round_trip, lemma_key_words,
    lemma_media_round_trip, lemma_origin_round_trip, lemma_repeat_times_round_trip,
    lemma_time_active_round_trip, lemma_zero_words, valid_adjustments, valid_attribute,
    valid_connection, valid_origin, valid_repeat_times,
};
use crate::sdp::sdp::{
    adjustments_parsed, adjustments_text, attribute_texts, bandwidth_texts, blank, fields,
    line_text, lines_text, media_text, optional_line_text, repeats_text, sdp_parsed, time_texts,
    with_last, AttributeView, Bandwidth, ConnectionView, DraftView, Media, MediaItemView,
    OriginView, RepeatTimesView, RepeatView, SdpView, TimeActive, TimeZoneAdjustment, Version,
};
use crate::text::{is_space, lemma_split_first, lit, split, trim, without, LF};
use vstd::prelude::*;

verus! {

/// The draft after the lines of `text`.
#[verifier::opaque]
pub open spec fn applied(draft: DraftView, text: Seq<u8>) -> Result<DraftView, ErrorView> {
    draft.lines_applied(split(text, LF))
}

/// The draft after one line as it stands in the text.
pub open spec fn line_taken(draft: DraftView, line: Seq<u8>) -> Result<DraftView, ErrorView> {
    if trim(line).len() == 0 {
        Ok(draft)
    } else {
        draft.line_applied(trim(line))
    }
}

/// The lines of a text are taken one after the other, the first one first.
pub proof fn lemma_lines_front(draft: DraftView, line: Seq<u8>, rest: Seq<Seq<u8>>)
    ensures
        draft.lines_applied(seq![line] + rest) == match line_taken(draft, line) {
            Ok(next) => next.lines_applied(rest),
            Err(e) => Err(e),
        },
    decreases rest.len(),
{
    let all = seq![line] + rest;
    if rest.len() == 0 {
        assert(all.drop_last() =~= Seq::<Seq<u8>>::empty());
        assert(all.last() == line);
        assert(draft.lines_applied(Seq::<Seq<u8>>::empty()) == Ok::<DraftView, ErrorView>(draft));
    } else {
        assert(all.drop_last() =~= seq![line] + rest.drop_last());
        assert(all.last() == rest.last());
        lemma_lines_front(draft, line, rest.drop_last());
    }
}

/// Whether `key` can begin a line: two bytes, neither of them white space.
pub open spec fn is_key(key: Seq<u8>) -> bool {
    key.len() == 2 && !is_space(key[0]) && !is_space(key[1]) && without(key, LF)
}

proof fn lemma_keys()
    ensures
        is_key(lit("v=")),
        is_key(lit("o=")),
        is_key(lit("s=")),
        is_key(lit("i=")),
        is_key(lit("u=")),
        is_key(lit("e=")),
        is_key(lit("p=")),
        is_key(lit("c=")),
        is_key(lit("b=")),
        is_key(lit("t=")),
        is_key(lit("r=")),
        is_key(lit("z=")),
        is_key(lit("a=")),
        is_key(lit("m=")),
{
    lemma_key_words();
}

/// One line of a text, with its key and its value, is taken as the line that it is.
pub proof fn lemma_line(draft: DraftView, key: Seq<u8>, value: Seq<u8>, rest: Seq<u8>)
    requires
        is_key(key),
        is_line_value(value),
    ensures
        applied(draft, line_text(key, value) + rest) == match draft.line_applied(key + value) {
            Ok(next) => applied(next, rest),
            Err(e) => Err(e),
        },
        (key + value).len() >= 2,
        (key + value).take(2) == key,
        (key + value).skip(2) == value,
{
    reveal(applied);
    let line = key + value;
    assert forall|i: int| 0 <= i < line.len() implies (#[trigger] line[i]) != LF by {
        if i < 2 {
            assert(line[i] == key[i]);
        } else {
            assert(line[i] == value[i - 2]);
        }
    }
    assert(line[0] == key[0]);
    assert(line.last() == if value.len() > 0 {
        value.last()
    } else {
        key[1]
    });
    assert(trim(line) == line);
    assert(line_text(key, value) + rest =~= line + seq![LF] + rest);
    lemma_split_first(line, LF, rest);
    lemma_lines_front(draft, line, split(rest, LF));
    assert(line.take(2) =~= key);
    assert(line.skip(2) =~= value);
}

/// A text without lines leaves the draft as it is.
pub proof fn lemma_no_line(draft: DraftView)
    ensures
        applied(draft, Seq::<u8>::empty()) == Ok::<DraftView, ErrorView>(draft),
{
    reveal(applied);
    let lines = split(Seq::<u8>::empty(), LF);
    assert(lines =~= seq![Seq::<u8>::empty()]);
    assert(lines.drop_last() =~= Seq::<Seq<u8>>::empty());
    assert(trim(Seq::<u8>::empty()) =~= Seq::<u8>::empty());
    assert(draft.lines_applied(lines.drop_last()) == Ok::<DraftView, ErrorView>(draft));
}


proof fn lemma_version_applied(
    draft: DraftView,
    line: Seq<u8>,
    value: Seq<u8>,
    version: Version,
)
    requires
        line.len() >= 2,
        line.take(2) == lit("v="),
        line.skip(2) == value,
        Version::of_text(value) == Ok::<Version, ErrorView>(version),
    ensures
        draft.line_applied(line) == Ok::<DraftView, ErrorView>(
            DraftView { version: Some(version), ..draft },
        ),
{
    lemma_key_words();
}

proof fn lemma_version_line(
    draft: DraftView,
    value: Seq<u8>,
    version: Version,
    rest: Seq<u8>,
)
    requires
        is_line_value(value),
        Version::of_text(value) == Ok::<Version, ErrorView>(version),
    ensures
        applied(draft, line_text(lit("v="), value) + rest) == applied(
            DraftView { version: Some(version), ..draft },
            rest,
        ),
{
    lemma_keys();
    lemma_line(draft, lit("v="), value, rest);
    lemma_version_applied(draft, lit("v=") + value, value, version);
}

proof fn lemma_origin_applied(
    draft: DraftView,
    line: Seq<u8>,
    value: Seq<u8>,
    origin: OriginView,
)
    requires
        line.len() >= 2,
        line.take(2) == lit("o="),
        line.skip(2) == value,
        OriginView::of_text(value) == Ok::<OriginView, ErrorView>(origin),
    ensures
        draft.line_applied(line) == Ok::<DraftView, ErrorView>(
            DraftView { origin: Some(origin), ..draft },
        ),
{
    lemma_key_words();
}

proof fn lemma_origin_line(
    draft: DraftView,
    value: Seq<u8>,
    origin: OriginView,
    rest: Seq<u8>,
)
    requires
        is_line_value(value),
        OriginView::of_text(value) == Ok::<OriginView, ErrorView>(origin),
    ensures
        applied(draft, line_text(lit("o="), value) + rest) == applied(
            DraftView { origin: Some(origin), ..draft },
            rest,
        ),
{
    lemma_keys();
    lemma_line(draft, lit("o="), value, rest);
    lemma_origin_applied(draft, lit("o=") + value, value, origin);
}

proof fn lemma_session_name_applied(
    draft: DraftView,
    line: Seq<u8>,
    value: Seq<u8>,
)
    requires
        line.len() >= 2,
        line.take(2) == lit("s="),
        line.skip(2) == value,
    ensures
        draft.line_applied(line) == Ok::<DraftView, ErrorView>(
            DraftView { session_name: Some(value), ..draft },
        ),
{
    lemma_key_words();
}

proof fn lemma_session_name_line(
    draft: DraftView,
    value: Seq<u8>,
    rest: Seq<u8>,
)
    requires
        is_line_value(value),
    ensures
        applied(draft, line_text(lit("s="), value) + rest) == applied(
            DraftView { session_name: Some(value), ..draft },
            rest,
        ),
{
    lemma_keys();
    lemma_line(draft, lit("s="), value, rest);
    lemma_session_name_applied(draft, lit("s=") + value, value);
}

proof fn lemma_information_applied(
    draft: DraftView,
    line: Seq<u8>,
    value: Seq<u8>,
)
    requires
        line.len() >= 2,
        line.take(2) == lit("i="),
        line.skip(2) == value,
    ensures
        draft.line_applied(line) == Ok::<DraftView, ErrorView>(
            draft.with_information(value),
        ),
{
    lemma_key_words();
}

proof fn lemma_information_line(
    draft: DraftView,
    value: Seq<u8>,
    rest: Seq<u8>,
)
    requires
        is_line_value(value),
    ensures
        applied(draft, line_text(lit("i="), value) + rest) == applied(
            draft.with_information(value),
            rest,
        ),
{
    lemma_keys();
    lemma_line(draft, lit("i="), value, rest);
    lemma_information_applied(draft, lit("i=") + value, value);
}

proof fn lemma_uri_applied(
    draft: DraftView,
    line: Seq<u8>,
    value: Seq<u8>,
)
    requires
        line.len() >= 2,
        line.take(2) == lit("u="),
        line.skip(2) == value,
    ensures
        draft.line_applied(line) == Ok::<DraftView, ErrorView>(
            DraftView { uri: Some(value), ..draft },
        ),
{
    lemma_key_words();
}

proof fn lemma_uri_line(
    draft: DraftView,
    value: Seq<u8>,
    rest: Seq<u8>,
)
    requires
        is_line_value(value),
    ensures
        applied(draft, line_text(lit("u="), value) + rest) == applied(
            DraftView { uri: Some(value), ..draft },
            rest,
        ),
{
    lemma_keys();
    lemma_line(draft, lit("u="), value, rest);
    lemma_uri_applied(draft, lit("u=") + value, value);
}

proof fn lemma_email_applied(
    draft: DraftView,
    line: Seq<u8>,
    value: Seq<u8>,
)
    requires
        line.len() >= 2,
        line.take(2) == lit("e="),
        line.skip(2) == value,
    ensures
        draft.line_applied(line) == Ok::<DraftView, ErrorView>(
            DraftView { email: Some(value), ..draft },
        ),
{
    lemma_key_words();
}

proof fn lemma_email_line(
    draft: DraftView,
    value: Seq<u8>,
    rest: Seq<u8>,
)
    requires
        is_line_value(value),
    ensures
        applied(draft, line_text(lit("e="), value) + rest) == applied(
            DraftView { email: Some(value), ..draft },
            rest,
        ),
{
    lemma_keys();
    lemma_line(draft, lit("e="), value, rest);
    lemma_email_applied(draft, lit("e=") + value, value);
}

proof fn lemma_phone_applied(
    draft: DraftView,
    line: Seq<u8>,
    value: Seq<u8>,
)
    requires
        line.len() >= 2,
        line.take(2) == lit("p="),
        line.skip(2) == value,
    ensures
        draft.line_applied(line) == Ok::<DraftView, ErrorView>(
            DraftView { phone: Some(value), ..draft },
        ),
{
    lemma_key_words();
}

proof fn lemma_phone_line(
    draft: DraftView,
    value: Seq<u8>,
    rest: Seq<u8>,
)
    requires
        is_line_value(value),
    ensures
        applied(draft, line_text(lit("p="), value) + rest) == applied(
            DraftView { phone: Some(value), ..draft },
            rest,
        ),
{
    lemma_keys();
    lemma_line(draft, lit("p="), value, rest);
    lemma_phone_applied(draft, lit("p=") + value, value);
}

proof fn lemma_connection_applied(
    draft: DraftView,
    line: Seq<u8>,
    value: Seq<u8>,
    connection: ConnectionView,
)
    requires
        line.len() >= 2,
        line.take(2) == lit("c="),
        line.skip(2) == value,
        ConnectionView::of_text(value) == Ok::<ConnectionView, ErrorView>(connection),
    ensures
        draft.line_applied(line) == Ok::<DraftView, ErrorView>(
            draft.with_connection(connection),
        ),
{
    lemma_key_words();
}

proof fn lemma_connection_line(
    draft: DraftView,
    value: Seq<u8>,
    connection: ConnectionView,
    rest: Seq<u8>,
)
    requires
        is_line_value(value),
        ConnectionView::of_text(value) == Ok::<ConnectionView, ErrorView>(connection),
    ensures
        applied(draft, line_text(lit("c="), value) + rest) == applied(
            draft.with_connection(connection),
            rest,
        ),
{
    lemma_keys();
    lemma_line(draft, lit("c="), value, rest);
    lemma_connection_applied(draft, lit("c=") + value, value, connection);
}

proof fn lemma_bandwidth_applied(
    draft: DraftView,
    line: Seq<u8>,
    value: Seq<u8>,
    bandwidth: Bandwidth,
)
    requires
        line.len() >= 2,
        line.take(2) == lit("b="),
        line.skip(2) == value,
        Bandwidth::of_text(value) == Ok::<Bandwidth, ErrorView>(bandwidth),
    ensures
        draft.line_applied(line) == Ok::<DraftView, ErrorView>(
            draft.with_bandwidth(bandwidth),
        ),
{
    lemma_key_words();
}

proof fn lemma_bandwidth_line(
    draft: DraftView,
    value: Seq<u8>,
    bandwidth: Bandwidth,
    rest: Seq<u8>,
)
    requires
        is_line_value(value),
        Bandwidth::of_text(value) == Ok::<Bandwidth, ErrorView>(bandwidth),
    ensures
        applied(draft, line_text(lit("b="), value) + rest) == applied(
            draft.with_bandwidth(bandwidth),
            rest,
        ),
{
    lemma_keys();
    lemma_line(draft, lit("b="), value, rest);
    lemma_bandwidth_applied(draft, lit("b=") + value, value, bandwidth);
}

proof fn lemma_time_applied(
    draft: DraftView,
    line: Seq<u8>,
    value: Seq<u8>,
    time: TimeActive,
)
    requires
        line.len() >= 2,
        line.take(2) == lit("t="),
        line.skip(2) == value,
        TimeActive::of_text(value) == Ok::<TimeActive, ErrorView>(time),
    ensures
        draft.line_applied(line) == Ok::<DraftView, ErrorView>(
            DraftView { time_active: draft.time_active.push(time), ..draft },
        ),
{
    lemma_key_words();
}

proof fn lemma_time_line(
    draft: DraftView,
    value: Seq<u8>,
    time: TimeActive,
    rest: Seq<u8>,
)
    requires
        is_line_value(value),
        TimeActive::of_text(value) == Ok::<TimeActive, ErrorView>(time),
    ensures
        applied(draft, line_text(lit("t="), value) + rest) == applied(
            DraftView { time_active: draft.time_active.push(time), ..draft },
            rest,
        ),
{
    lemma_keys();
    lemma_line(draft, lit("t="), value, rest);
    lemma_time_applied(draft, lit("t=") + value, value, time);
}

proof fn lemma_repeat_applied(
    draft: DraftView,
    line: Seq<u8>,
    value: Seq<u8>,
    times: RepeatTimesView,
)
    requires
        line.len() >= 2,
        line.take(2) == lit("r="),
        line.skip(2) == value,
        RepeatTimesView::of_text(value) == Ok::<RepeatTimesView, ErrorView>(times),
    ensures
        draft.line_applied(line) == Ok::<DraftView, ErrorView>(
            DraftView {
            repeats: draft.repeats.push(RepeatView { times, timezone_adjustments: None }),
            ..draft
        },
        ),
{
    lemma_key_words();
}

proof fn lemma_repeat_line(
    draft: DraftView,
    value: Seq<u8>,
    times: RepeatTimesView,
    rest: Seq<u8>,
)
    requires
        is_line_value(value),
        RepeatTimesView::of_text(value) == Ok::<RepeatTimesView, ErrorView>(times),
    ensures
        applied(draft, line_text(lit("r="), value) + rest) == applied(
            DraftView {
            repeats: draft.repeats.push(RepeatView { times, timezone_adjustments: None }),
            ..draft
        },
            rest,
        ),
{
    lemma_keys();
    lemma_line(draft, lit("r="), value, rest);
    lemma_repeat_applied(draft, lit("r=") + value, value, times);
}

proof fn lemma_adjustments_applied(
    draft: DraftView,
    line: Seq<u8>,
    value: Seq<u8>,
    adjustments: Seq<TimeZoneAdjustment>,
)
    requires
        line.len() >= 2,
        line.take(2) == lit("z="),
        line.skip(2) == value,
        adjustments_parsed(fields(value), value) == Ok::<Seq<TimeZoneAdjustment>, ErrorView>(
            adjustments,
        ),
        draft.repeats.len() > 0,
    ensures
        draft.line_applied(line) == Ok::<DraftView, ErrorView>(
            DraftView {
            repeats: with_last(
                draft.repeats,
                RepeatView { timezone_adjustments: Some(adjustments), ..draft.repeats.last() },
            ),
            ..draft
        },
        ),
{
    lemma_key_words();
}

proof fn lemma_adjustments_line(
    draft: DraftView,
    value: Seq<u8>,
    adjustments: Seq<TimeZoneAdjustment>,
    rest: Seq<u8>,
)
    requires
        is_line_value(value),
        adjustments_parsed(fields(value), value) == Ok::<Seq<TimeZoneAdjustment>, ErrorView>(
            adjustments,
        ),
        draft.repeats.len() > 0,
    ensures
        applied(draft, line_text(lit("z="), value) + rest) == applied(
            DraftView {
            repeats: with_last(
                draft.repeats,
                RepeatView { timezone_adjustments: Some(adjustments), ..draft.repeats.last() },
            ),
            ..draft
        },
            rest,
        ),
{
    lemma_keys();
    lemma_line(draft, lit("z="), value, rest);
    lemma_adjustments_applied(draft, lit("z=") + value, value, adjustments);
}

proof fn lemma_attribute_applied(
    draft: DraftView,
    line: Seq<u8>,
    value: Seq<u8>,
)
    requires
        line.len() >= 2,
        line.take(2) == lit("a="),
        line.skip(2) == value,
    ensures
        draft.line_applied(line) == Ok::<DraftView, ErrorView>(
            draft.with_attribute(AttributeView::of_text(value)),
        ),
{
    lemma_key_words();
}

proof fn lemma_attribute_line(
    draft: DraftView,
    value: Seq<u8>,
    rest: Seq<u8>,
)
    requires
        is_line_value(value),
    ensures
        applied(draft, line_text(lit("a="), value) + rest) == applied(
            draft.with_attribute(AttributeView::of_text(value)),
            rest,
        ),
{
    lemma_keys();
    lemma_line(draft, lit("a="), value, rest);
    lemma_attribute_applied(draft, lit("a=") + value, value);
}

proof fn lemma_media_applied(
    draft: DraftView,
    line: Seq<u8>,
    value: Seq<u8>,
    media: Media,
)
    requires
        line.len() >= 2,
        line.take(2) == lit("m="),
        line.skip(2) == value,
        Media::of_text(value) == Ok::<Media, ErrorView>(media),
    ensures
        draft.line_applied(line) == Ok::<DraftView, ErrorView>(
            DraftView {
            media: draft.media.push(
                MediaItemView {
                    media,
                    title: None,
                    connection: None,
                    bandwidth: Seq::<Bandwidth>::empty(),
                    attributes: Seq::<AttributeView>::empty(),
                },
            ),
            ..draft
        },
        ),
{
    lemma_key_words();
}

proof fn lemma_media_line(
    draft: DraftView,
    value: Seq<u8>,
    media: Media,
    rest: Seq<u8>,
)
    requires
        is_line_value(value),
        Media::of_text(value) == Ok::<Media, ErrorView>(media),
    ensures
        applied(draft, line_text(lit("m="), value) + rest) == applied(
            DraftView {
            media: draft.media.push(
                MediaItemView {
                    media,
                    title: None,
                    connection: None,
                    bandwidth: Seq::<Bandwidth>::empty(),
                    attributes: Seq::<AttributeView>::empty(),
                },
            ),
            ..draft
        },
            rest,
        ),
{
    lemma_keys();
    lemma_line(draft, lit("m="), value, rest);
    lemma_media_applied(draft, lit("m=") + value, value, media);
}

proof fn lemma_version_round_trip(version: Version)
    ensures
        Version::of_text(version.text()) == Ok::<Version, ErrorView>(version),
        is_line_value(version.text()),
{
    lemma_zero_words();
}

/// The draft after bandwidth lines for `items`: they go to the last media item where there
/// is one.
pub open spec fn bandwidths_added(draft: DraftView, items: Seq<Bandwidth>) -> DraftView {
    if draft.media.len() > 0 {
        DraftView {
            media: with_last(
                draft.media,
                MediaItemView {
                    bandwidth: draft.media.last().bandwidth + items,
                    ..draft.media.last()
                },
            ),
            ..draft
        }
    } else {
        DraftView { bandwidth: draft.bandwidth + items, ..draft }
    }
}

/// The draft after attribute lines for `items`: they go to the last media item where there
/// is one.
pub open spec fn attributes_added(draft: DraftView, items: Seq<AttributeView>) -> DraftView {
    if draft.media.len() > 0 {
        DraftView {
            media: with_last(
                draft.media,
                MediaItemView {
                    attributes: draft.media.last().attributes + items,
                    ..draft.media.last()
                },
            ),
            ..draft
        }
    } else {
        DraftView { attributes: draft.attributes + items, ..draft }
    }
}

/// The draft after lines for the active times `items`.
pub open spec fn times_added(draft: DraftView, items: Seq<TimeActive>) -> DraftView {
    DraftView { time_active: draft.time_active + items, ..draft }
}

/// The draft after the lines of the repetitions `items`.
pub open spec fn repeats_added(draft: DraftView, items: Seq<RepeatView>) -> DraftView {
    DraftView { repeats: draft.repeats + items, ..draft }
}

/// The draft after the lines of the media items `items`.
pub open spec fn media_added(draft: DraftView, items: Seq<MediaItemView>) -> DraftView {
    DraftView { media: draft.media + items, ..draft }
}

proof fn lemma_bandwidths_added(draft: DraftView, items: Seq<Bandwidth>)
    ensures
        items.len() == 0 ==> bandwidths_added(draft, items) == draft,
        items.len() > 0 ==> bandwidths_added(draft, items) == bandwidths_added(
            draft,
            items.drop_last(),
        ).with_bandwidth(items.last()),
{
    if draft.media.len() > 0 {
        let last = draft.media.last();
        if items.len() == 0 {
            assert(last.bandwidth + items =~= last.bandwidth);
            assert(with_last(draft.media, last) =~= draft.media);
        } else {
            let before = bandwidths_added(draft, items.drop_last());
            assert(before.media.last().bandwidth.push(items.last()) =~= last.bandwidth + items);
            assert(before.with_bandwidth(items.last()).media =~= bandwidths_added(
                draft,
                items,
            ).media);
        }
    } else {
        if items.len() == 0 {
            assert(draft.bandwidth + items =~= draft.bandwidth);
        } else {
            assert((draft.bandwidth + items.drop_last()).push(items.last()) =~= draft.bandwidth
                + items);
        }
    }
}

proof fn lemma_attributes_added(draft: DraftView, items: Seq<AttributeView>)
    ensures
        items.len() == 0 ==> attributes_added(draft, items) == draft,
        items.len() > 0 ==> attributes_added(draft, items) == attributes_added(
            draft,
            items.drop_last(),
        ).with_attribute(items.last()),
{
    if draft.media.len() > 0 {
        let last = draft.media.last();
        if items.len() == 0 {
            assert(last.attributes + items =~= last.attributes);
            assert(with_last(draft.media, last) =~= draft.media);
        } else {
            let before = attributes_added(draft, items.drop_last());
            assert(before.media.last().attributes.push(items.last()) =~= last.attributes + items);
            assert(before.with_attribute(items.last()).media =~= attributes_added(
                draft,
                items,
            ).media);
        }
    } else {
        if items.len() == 0 {
            assert(draft.attributes + items =~= draft.attributes);
        } else {
            assert((draft.attributes + items.drop_last()).push(items.last())
                =~= draft.attributes + items);
        }
    }
}

proof fn lemma_bandwidth_lines(draft: DraftView, items: Seq<Bandwidth>, rest: Seq<u8>)
    ensures
        applied(draft, lines_text(lit("b="), bandwidth_texts(items)) + rest) == applied(
            bandwidths_added(draft, items),
            rest,
        ),
    decreases items.len(),
{
    let texts = bandwidth_texts(items);
    lemma_bandwidths_added(draft, items);
    if items.len() == 0 {
        assert(lines_text(lit("b="), texts) + rest =~= rest);
    } else {
        let front = items.drop_last();
        let tail = line_text(lit("b="), items.last().text()) + rest;
        assert(texts.drop_last() =~= bandwidth_texts(front));
        assert(texts.last() == items.last().text());
        assert(lines_text(lit("b="), texts) + rest =~= lines_text(
            lit("b="),
            bandwidth_texts(front),
        ) + tail);
        lemma_bandwidth_lines(draft, front, tail);
        lemma_bandwidth_round_trip(items.last());
        lemma_bandwidth_line(
            bandwidths_added(draft, front),
            items.last().text(),
            items.last(),
            rest,
        );
    }
}

/// Whether each of `items` can be written and read again.
pub open spec fn valid_attributes(items: Seq<AttributeView>) -> bool {
    forall|i: int| 0 <= i < items.len() ==> valid_attribute(#[trigger] items[i])
}

proof fn lemma_attribute_lines(draft: DraftView, items: Seq<AttributeView>, rest: Seq<u8>)
    requires
        valid_attributes(items),
    ensures
        applied(draft, lines_text(lit("a="), attribute_texts(items)) + rest) == applied(
            attributes_added(draft, items),
            rest,
        ),
    decreases items.len(),
{
    let texts = attribute_texts(items);
    lemma_attributes_added(draft, items);
    if items.len() == 0 {
        assert(lines_text(lit("a="), texts) + rest =~= rest);
    } else {
        let front = items.drop_last();
        let tail = line_text(lit("a="), items.last().text()) + rest;
        assert(texts.drop_last() =~= attribute_texts(front));
        assert(texts.last() == items.last().text());
        assert(lines_text(lit("a="), texts) + rest =~= lines_text(
            lit("a="),
            attribute_texts(front),
        ) + tail);
        assert forall|i: int| 0 <= i < front.len() implies valid_attribute(
            #[trigger] front[i],
        ) by {
            assert(front[i] == items[i]);
        }
        lemma_attribute_lines(draft, front, tail);
        assert(valid_attribute(items[items.len() - 1]));
        lemma_attribute_round_trip(items.last());
        lemma_attribute_line(attributes_added(draft, front), items.last().text(), rest);
    }
}

proof fn lemma_time_lines(draft: DraftView, items: Seq<TimeActive>, rest: Seq<u8>)
    ensures
        applied(draft, lines_text(lit("t="), time_texts(items)) + rest) == applied(
            times_added(draft, items),
            rest,
        ),
    decreases items.len(),
{
    let texts = time_texts(items);
    if items.len() == 0 {
        assert(lines_text(lit("t="), texts) + rest =~= rest);
        assert(draft.time_active + items =~= draft.time_active);
    } else {
        let front = items.drop_last();
        let tail = line_text(lit("t="), items.last().text()) + rest;
        assert(texts.drop_last() =~= time_texts(front));
        assert(texts.last() == items.last().text());
        assert(lines_text(lit("t="), texts) + rest =~= lines_text(lit("t="), time_texts(front))
            + tail);
        lemma_time_lines(draft, front, tail);
        lemma_time_active_round_trip(items.last());
        lemma_time_line(times_added(draft, front), items.last().text(), items.last(), rest);
        assert((draft.time_active + front).push(items.last()) =~= draft.time_active + items);
    }
}

/// Whether a repetition can be written and read again: it has an offset, and adjustments,
/// where it has any, are not an empty list.
pub open spec fn valid_repeat(repeat: RepeatView) -> bool {
    &&& valid_repeat_times(repeat.times)
    &&& match repeat.timezone_adjustments {
        Some(adjustments) => valid_adjustments(adjustments),
        None => true,
    }
}

pub open spec fn valid_repeats(items: Seq<RepeatView>) -> bool {
    forall|i: int| 0 <= i < items.len() ==> valid_repeat(#[trigger] items[i])
}

proof fn lemma_repeat_lines(draft: DraftView, repeat: RepeatView, rest: Seq<u8>)
    requires
        valid_repeat(repeat),
    ensures
        applied(draft, repeat.text() + rest) == applied(
            DraftView { repeats: draft.repeats.push(repeat), ..draft },
            rest,
        ),
{
    let times = line_text(lit("r="), repeat.times.text());
    let opened = DraftView {
        repeats: draft.repeats.push(
            RepeatView { times: repeat.times, timezone_adjustments: None },
        ),
        ..draft
    };
    lemma_repeat_times_round_trip(repeat.times);
    match repeat.timezone_adjustments {
        Some(adjustments) => {
            let text = adjustments_text(adjustments);
            let tail = line_text(lit("z="), text) + rest;
            assert(repeat.text() + rest =~= times + tail);
            lemma_repeat_line(draft, repeat.times.text(), repeat.times, tail);
            lemma_adjustments_round_trip(adjustments);
            lemma_adjustments_line(opened, text, adjustments, rest);
            assert(with_last(
                opened.repeats,
                RepeatView { timezone_adjustments: Some(adjustments), ..opened.repeats.last() },
            ) =~= draft.repeats.push(repeat));
        },
        None => {
            assert(repeat.text() + rest =~= times + rest);
            lemma_repeat_line(draft, repeat.times.text(), repeat.times, rest);
        },
    }
}

proof fn lemma_repeats_lines(draft: DraftView, items: Seq<RepeatView>, rest: Seq<u8>)
    requires
        valid_repeats(items),
    ensures
        applied(draft, repeats_text(items) + rest) == applied(repeats_added(draft, items), rest),
    decreases items.len(),
{
    if items.len() == 0 {
        assert(repeats_text(items) + rest =~= rest);
        assert(draft.repeats + items =~= draft.repeats);
    } else {
        let front = items.drop_last();
        let tail = items.last().text() + rest;
        assert(repeats_text(items) + rest =~= repeats_text(front) + tail);
        assert forall|i: int| 0 <= i < front.len() implies valid_repeat(#[trigger] front[i]) by {
            assert(front[i] == items[i]);
        }
        lemma_repeats_lines(draft, front, tail);
        assert(valid_repeat(items[items.len() - 1]));
        lemma_repeat_lines(repeats_added(draft, front), items.last(), rest);
        assert((draft.repeats + front).push(items.last()) =~= draft.repeats + items);
    }
}


/// The draft after a line of information, where there is one.
pub open spec fn informed(draft: DraftView, value: Option<Seq<u8>>) -> DraftView {
    match value {
        Some(value) => draft.with_information(value),
        None => draft,
    }
}

/// The draft after a connection line, where there is one.
pub open spec fn connected_by(draft: DraftView, connection: Option<ConnectionView>) -> DraftView {
    match connection {
        Some(connection) => draft.with_connection(connection),
        None => draft,
    }
}

/// The draft after the lines for a URI, an email address and a phone number, where there are
/// any.
pub open spec fn contacts_added(
    draft: DraftView,
    uri: Option<Seq<u8>>,
    email: Option<Seq<u8>>,
    phone: Option<Seq<u8>>,
) -> DraftView {
    DraftView {
        uri: if uri is Some {
            uri
        } else {
            draft.uri
        },
        email: if email is Some {
            email
        } else {
            draft.email
        },
        phone: if phone is Some {
            phone
        } else {
            draft.phone
        },
        ..draft
    }
}

/// Whether a line can hold the value, where there is one.
pub open spec fn is_optional_value(value: Option<Seq<u8>>) -> bool {
    match value {
        Some(value) => is_line_value(value),
        None => true,
    }
}

/// Whether the connection, where there is one, can be written and read again.
pub open spec fn valid_optional_connection(connection: Option<ConnectionView>) -> bool {
    match connection {
        Some(connection) => valid_connection(connection),
        None => true,
    }
}

/// The text of a connection, where there is one.
pub open spec fn connection_text(connection: Option<ConnectionView>) -> Option<Seq<u8>> {
    match connection {
        Some(connection) => Some(connection.text()),
        None => None,
    }
}

proof fn lemma_information_lines(draft: DraftView, value: Option<Seq<u8>>, rest: Seq<u8>)
    requires
        is_optional_value(value),
    ensures
        applied(draft, optional_line_text(lit("i="), value) + rest) == applied(
            informed(draft, value),
            rest,
        ),
{
    match value {
        Some(value) => {
            lemma_information_line(draft, value, rest);
        },
        None => {
            assert(optional_line_text(lit("i="), value) + rest =~= rest);
        },
    }
}

proof fn lemma_connection_lines(
    draft: DraftView,
    connection: Option<ConnectionView>,
    rest: Seq<u8>,
)
    requires
        valid_optional_connection(connection),
    ensures
        applied(draft, optional_line_text(lit("c="), connection_text(connection)) + rest)
            == applied(connected_by(draft, connection), rest),
{
    match connection {
        Some(connection) => {
            lemma_connection_round_trip(connection);
            lemma_connection_line(draft, connection.text(), connection, rest);
        },
        None => {
            assert(optional_line_text(lit("c="), connection_text(connection)) + rest =~= rest);
        },
    }
}

proof fn lemma_contact_lines(
    draft: DraftView,
    uri: Option<Seq<u8>>,
    email: Option<Seq<u8>>,
    phone: Option<Seq<u8>>,
    rest: Seq<u8>,
)
    requires
        is_optional_value(uri),
        is_optional_value(email),
        is_optional_value(phone),
    ensures
        applied(
            draft,
            optional_line_text(lit("u="), uri) + (optional_line_text(lit("e="), email) + (
            optional_line_text(lit("p="), phone) + rest)),
        ) == applied(contacts_added(draft, uri, email, phone), rest),
{
    let after_phone = rest;
    let after_email = optional_line_text(lit("p="), phone) + after_phone;
    let after_uri = optional_line_text(lit("e="), email) + after_email;
    let with_uri = contacts_added(draft, uri, None, None);
    let with_email = contacts_added(draft, uri, email, None);
    match uri {
        Some(value) => {
            lemma_uri_line(draft, value, after_uri);
        },
        None => {
            assert(optional_line_text(lit("u="), uri) + after_uri =~= after_uri);
        },
    }
    assert(applied(draft, optional_line_text(lit("u="), uri) + after_uri) == applied(
        with_uri,
        after_uri,
    ));
    match email {
        Some(value) => {
            lemma_email_line(with_uri, value, after_email);
        },
        None => {
            assert(optional_line_text(lit("e="), email) + after_email =~= after_email);
        },
    }
    assert(applied(with_uri, after_uri) == applied(with_email, after_email));
    match phone {
        Some(value) => {
            lemma_phone_line(with_email, value, after_phone);
        },
        None => {
            assert(optional_line_text(lit("p="), phone) + after_phone =~= after_phone);
        },
    }
}

/// Whether a media item can be written and read again.
pub open spec fn valid_media_item(item: MediaItemView) -> bool {
    &&& is_optional_value(item.title)
    &&& valid_optional_connection(item.connection)
    &&& valid_attributes(item.attributes)
}

pub open spec fn valid_media(items: Seq<MediaItemView>) -> bool {
    forall|i: int| 0 <= i < items.len() ==> valid_media_item(#[trigger] items[i])
}

/// A media item of which only the first line has been read.
pub open spec fn opened(media: Media) -> MediaItemView {
    MediaItemView {
        media,
        title: None,
        connection: None,
        bandwidth: Seq::<Bandwidth>::empty(),
        attributes: Seq::<AttributeView>::empty(),
    }
}

proof fn lemma_media_item_read(draft: DraftView, item: MediaItemView)
    ensures
        attributes_added(
            bandwidths_added(
                connected_by(
                    informed(
                        DraftView { media: draft.media.push(opened(item.media)), ..draft },
                        item.title,
                    ),
                    item.connection,
                ),
                item.bandwidth,
            ),
            item.attributes,
        ) == (DraftView { media: draft.media.push(item), ..draft }),
{
    let first = DraftView { media: draft.media.push(opened(item.media)), ..draft };
    let second = informed(first, item.title);
    let third = connected_by(second, item.connection);
    let fourth = bandwidths_added(third, item.bandwidth);
    let fifth = attributes_added(fourth, item.attributes);
    assert(second.media =~= draft.media.push(
        MediaItemView { title: item.title, ..opened(item.media) },
    ));
    assert(third.media =~= draft.media.push(
        MediaItemView { title: item.title, connection: item.connection, ..opened(item.media) },
    ));
    assert(Seq::<Bandwidth>::empty() + item.bandwidth =~= item.bandwidth);
    assert(fourth.media =~= draft.media.push(
        MediaItemView {
            title: item.title,
            connection: item.connection,
            bandwidth: item.bandwidth,
            ..opened(item.media)
        },
    ));
    assert(Seq::<AttributeView>::empty() + item.attributes =~= item.attributes);
    assert(fifth.media =~= draft.media.push(item));
}

proof fn lemma_media_item_text(item: MediaItemView, rest: Seq<u8>)
    ensures
        item.text() + rest == line_text(lit("m="), item.media.text()) + (optional_line_text(
            lit("i="),
            item.title,
        ) + (optional_line_text(lit("c="), connection_text(item.connection)) + (lines_text(
            lit("b="),
            bandwidth_texts(item.bandwidth),
        ) + (lines_text(lit("a="), attribute_texts(item.attributes)) + rest)))),
{
    let first = line_text(lit("m="), item.media.text());
    let second = optional_line_text(lit("i="), item.title);
    let third = optional_line_text(lit("c="), connection_text(item.connection));
    let fourth = lines_text(lit("b="), bandwidth_texts(item.bandwidth));
    let fifth = lines_text(lit("a="), attribute_texts(item.attributes));
    assert(item.text() == first + second + third + fourth + fifth);
    assert(first + second + third + fourth + fifth + rest =~= first + (second + (third + (fourth
        + (fifth + rest)))));
}

proof fn lemma_media_item_lines(draft: DraftView, item: MediaItemView, rest: Seq<u8>)
    requires
        valid_media_item(item),
    ensures
        applied(draft, item.text() + rest) == applied(
            DraftView { media: draft.media.push(item), ..draft },
            rest,
        ),
{
    let after_bandwidth = lines_text(lit("a="), attribute_texts(item.attributes)) + rest;
    let after_connection = lines_text(lit("b="), bandwidth_texts(item.bandwidth))
        + after_bandwidth;
    let after_title = optional_line_text(lit("c="), connection_text(item.connection))
        + after_connection;
    let after_media = optional_line_text(lit("i="), item.title) + after_title;
    let first = DraftView { media: draft.media.push(opened(item.media)), ..draft };
    let second = informed(first, item.title);
    let third = connected_by(second, item.connection);
    let fourth = bandwidths_added(third, item.bandwidth);
    lemma_media_item_text(item, rest);
    lemma_media_round_trip(item.media);
    lemma_media_line(draft, item.media.text(), item.media, after_media);
    lemma_information_lines(first, item.title, after_title);
    lemma_connection_lines(second, item.connection, after_connection);
    lemma_bandwidth_lines(third, item.bandwidth, after_bandwidth);
    lemma_attribute_lines(fourth, item.attributes, rest);
    lemma_media_item_read(draft, item);
}

proof fn lemma_media_lines(draft: DraftView, items: Seq<MediaItemView>, rest: Seq<u8>)
    requires
        valid_media(items),
    ensures
        applied(draft, media_text(items) + rest) == applied(media_added(draft, items), rest),
    decreases items.len(),
{
    if items.len() == 0 {
        assert(media_text(items) + rest =~= rest);
        assert(draft.media + items =~= draft.media);
    } else {
        let front = items.drop_last();
        let tail = items.last().text() + rest;
        assert(media_text(items) + rest =~= media_text(front) + tail);
        assert forall|i: int| 0 <= i < front.len() implies valid_media_item(
            #[trigger] front[i],
        ) by {
            assert(front[i] == items[i]);
        }
        lemma_media_lines(draft, front, tail);
        assert(valid_media_item(items[items.len() - 1]));
        lemma_media_item_lines(media_added(draft, front), items.last(), rest);
        assert((draft.media + front).push(items.last()) =~= draft.media + items);
    }
}


/// Whether a session description can be written and read again. Its texts fit on a line:
/// they hold no line feed and do not end in white space. The fields of the origin and the
/// addresses hold no space. A repetition has an offset; a list of adjustments, where there
/// is one, has an entry. The name of an attribute holds no colon. There is an active time,
/// and a connection for the session or for every media item.
pub open spec fn valid_sdp(sdp: SdpView) -> bool {
    &&& valid_origin(sdp.origin)
    &&& is_line_value(sdp.session_name)
    &&& is_optional_value(sdp.session_description)
    &&& is_optional_value(sdp.uri)
    &&& is_optional_value(sdp.email)
    &&& is_optional_value(sdp.phone)
    &&& valid_optional_connection(sdp.connection)
    &&& sdp.time_active.len() > 0
    &&& valid_repeats(sdp.repeats)
    &&& valid_attributes(sdp.attributes)
    &&& valid_media(sdp.media)
    &&& (sdp.connection is Some || (sdp.media.len() > 0 && forall|i: int|
        0 <= i < sdp.media.len() ==> (#[trigger] sdp.media[i]).connection is Some))
}

/// The draft that holds what the first lines of a session say, up to the connection.
pub open spec fn head_draft(sdp: SdpView) -> DraftView {
    DraftView {
        version: Some(sdp.version),
        origin: Some(sdp.origin),
        session_name: Some(sdp.session_name),
        session_description: sdp.session_description,
        uri: sdp.uri,
        email: sdp.email,
        phone: sdp.phone,
        connection: sdp.connection,
        ..blank()
    }
}

/// The draft that holds what the lines of the session say, before any media item.
pub open spec fn session_draft(sdp: SdpView) -> DraftView {
    DraftView {
        bandwidth: sdp.bandwidth,
        time_active: sdp.time_active,
        repeats: sdp.repeats,
        attributes: sdp.attributes,
        ..head_draft(sdp)
    }
}

/// The text of the first lines of a session, up to the connection, before `rest`.
pub open spec fn head_text(sdp: SdpView, rest: Seq<u8>) -> Seq<u8> {
    line_text(lit("v="), sdp.version.text()) + (line_text(lit("o="), sdp.origin.text()) + (
    line_text(lit("s="), sdp.session_name) + (optional_line_text(
        lit("i="),
        sdp.session_description,
    ) + (optional_line_text(lit("u="), sdp.uri) + (optional_line_text(lit("e="), sdp.email) + (
    optional_line_text(lit("p="), sdp.phone) + (optional_line_text(
        lit("c="),
        connection_text(sdp.connection),
    ) + rest)))))))
}

/// The text of the lists of a session (bandwidths, active times, repetitions, attributes)
/// before `rest`.
pub open spec fn lists_text(sdp: SdpView, rest: Seq<u8>) -> Seq<u8> {
    lines_text(lit("b="), bandwidth_texts(sdp.bandwidth)) + (lines_text(
        lit("t="),
        time_texts(sdp.time_active),
    ) + (repeats_text(sdp.repeats) + (lines_text(lit("a="), attribute_texts(sdp.attributes))
        + rest)))
}

proof fn lemma_joined(first: Seq<u8>, second: Seq<u8>, third: Seq<u8>)
    ensures
        first + second + third == first + (second + third),
{
    assert(first + second + third =~= first + (second + third));
}

proof fn lemma_session_text(sdp: SdpView, rest: Seq<u8>)
    ensures
        sdp.session_text() + rest == head_text(sdp, lists_text(sdp, rest)),
{
    let a = line_text(lit("v="), sdp.version.text());
    let b = line_text(lit("o="), sdp.origin.text());
    let c = line_text(lit("s="), sdp.session_name);
    let d = optional_line_text(lit("i="), sdp.session_description);
    let e = optional_line_text(lit("u="), sdp.uri);
    let f = optional_line_text(lit("e="), sdp.email);
    let g = optional_line_text(lit("p="), sdp.phone);
    let h = optional_line_text(lit("c="), connection_text(sdp.connection));
    let i = lines_text(lit("b="), bandwidth_texts(sdp.bandwidth));
    let j = lines_text(lit("t="), time_texts(sdp.time_active));
    let k = repeats_text(sdp.repeats);
    let l = lines_text(lit("a="), attribute_texts(sdp.attributes));
    assert(connection_text(sdp.connection) == match sdp.connection {
        Some(connection) => Some(connection.text()),
        None => None,
    });
    assert(sdp.session_text() == a + b + c + d + e + f + g + h + i + j + k + l);
    let t12 = l + rest;
    let t11 = k + t12;
    let t10 = j + t11;
    let t9 = i + t10;
    let t8 = h + t9;
    let t7 = g + t8;
    let t6 = f + t7;
    let t5 = e + t6;
    let t4 = d + t5;
    let t3 = c + t4;
    let t2 = b + t3;
    assert(t9 == lists_text(sdp, rest));
    assert(a + t2 == head_text(sdp, t9));
    lemma_joined(a + b + c + d + e + f + g + h + i + j + k, l, rest);
    lemma_joined(a + b + c + d + e + f + g + h + i + j, k, t12);
    lemma_joined(a + b + c + d + e + f + g + h + i, j, t11);
    lemma_joined(a + b + c + d + e + f + g + h, i, t10);
    lemma_joined(a + b + c + d + e + f + g, h, t9);
    lemma_joined(a + b + c + d + e + f, g, t8);
    lemma_joined(a + b + c + d + e, f, t7);
    lemma_joined(a + b + c + d, e, t6);
    lemma_joined(a + b + c, d, t5);
    lemma_joined(a + b, c, t4);
    lemma_joined(a, b, t3);
}

proof fn lemma_head_lines(sdp: SdpView, rest: Seq<u8>)
    requires
        valid_sdp(sdp),
    ensures
        applied(blank(), head_text(sdp, rest)) == applied(head_draft(sdp), rest),
{
    let after_phone = optional_line_text(lit("c="), connection_text(sdp.connection)) + rest;
    let after_information = optional_line_text(lit("u="), sdp.uri) + (optional_line_text(
        lit("e="),
        sdp.email,
    ) + (optional_line_text(lit("p="), sdp.phone) + after_phone));
    let after_name = optional_line_text(lit("i="), sdp.session_description) + after_information;
    let after_origin = line_text(lit("s="), sdp.session_name) + after_name;
    let after_version = line_text(lit("o="), sdp.origin.text()) + after_origin;
    let first = DraftView { version: Some(sdp.version), ..blank() };
    let second = DraftView { origin: Some(sdp.origin), ..first };
    let third = DraftView { session_name: Some(sdp.session_name), ..second };
    let fourth = informed(third, sdp.session_description);
    let fifth = contacts_added(fourth, sdp.uri, sdp.email, sdp.phone);
    lemma_version_round_trip(sdp.version);
    lemma_version_line(blank(), sdp.version.text(), sdp.version, after_version);
    lemma_origin_round_trip(sdp.origin);
    lemma_origin_line(first, sdp.origin.text(), sdp.origin, after_origin);
    lemma_session_name_line(second, sdp.session_name, after_name);
    lemma_information_lines(third, sdp.session_description, after_information);
    lemma_contact_lines(fourth, sdp.uri, sdp.email, sdp.phone, after_phone);
    lemma_connection_lines(fifth, sdp.connection, rest);
    assert(connected_by(fifth, sdp.connection) == head_draft(sdp));
}

proof fn lemma_list_lines(sdp: SdpView, rest: Seq<u8>)
    requires
        valid_sdp(sdp),
    ensures
        applied(head_draft(sdp), lists_text(sdp, rest)) == applied(session_draft(sdp), rest),
{
    let after_repeats = lines_text(lit("a="), attribute_texts(sdp.attributes)) + rest;
    let after_times = repeats_text(sdp.repeats) + after_repeats;
    let after_bandwidth = lines_text(lit("t="), time_texts(sdp.time_active)) + after_times;
    let first = bandwidths_added(head_draft(sdp), sdp.bandwidth);
    let second = times_added(first, sdp.time_active);
    let third = repeats_added(second, sdp.repeats);
    let fourth = attributes_added(third, sdp.attributes);
    lemma_bandwidth_lines(head_draft(sdp), sdp.bandwidth, after_bandwidth);
    lemma_time_lines(first, sdp.time_active, after_times);
    lemma_repeats_lines(second, sdp.repeats, after_repeats);
    lemma_attribute_lines(third, sdp.attributes, rest);
    assert(Seq::<Bandwidth>::empty() + sdp.bandwidth =~= sdp.bandwidth);
    assert(Seq::<TimeActive>::empty() + sdp.time_active =~= sdp.time_active);
    assert(Seq::<RepeatView>::empty() + sdp.repeats =~= sdp.repeats);
    assert(Seq::<AttributeView>::empty() + sdp.attributes =~= sdp.attributes);
    assert(fourth == session_draft(sdp));
}

/// A session description that is written and then read comes back as it was: the text of a
/// valid description, with its lines in the order of the format, is read as that
/// description.
pub proof fn law_text_round_trip(sdp: SdpView)
    requires
        valid_sdp(sdp),
    ensures
        sdp_parsed(sdp.text()) == Ok::<SdpView, ErrorView>(sdp),
{
    let nothing = Seq::<u8>::empty();
    let media = media_text(sdp.media) + nothing;
    let last = media_added(session_draft(sdp), sdp.media);
    assert(sdp.text() =~= sdp.session_text() + media);
    lemma_session_text(sdp, media);
    lemma_head_lines(sdp, lists_text(sdp, media));
    lemma_list_lines(sdp, media);
    lemma_media_lines(session_draft(sdp), sdp.media, nothing);
    lemma_no_line(last);
    assert(applied(blank(), sdp.text()) == Ok::<DraftView, ErrorView>(last));
    reveal(applied);
    assert(Seq::<MediaItemView>::empty() + sdp.media =~= sdp.media);
    assert(last.media == sdp.media);
    assert(last.connected());
    assert(last.finished() == Ok::<SdpView, ErrorView>(sdp));
}


} // verus!
