//! What holds of every run of the client's dialogue.

use crate::rtsp::client::{
    own_headers, replied, requested, ClientErrorView, DialogueView, ExchangeView,
    OutcomeView, ReplyView, MAXIMUM_REDIRECTS,
};
use crate::rtsp::message::{
    ascending, extended, inserted, lemma_header_names, lemma_inserted_ascending,
    lemma_lookup_index, lemma_lookup_inserted, lookup, status_category, StatusCategory,
};
use crate::rtsp::request::RequestView;
use crate::rtsp::response::ResponseView;
use crate::text::{decimal, lex_lt, lit};
use vstd::prelude::*;

verus! {

/// What the client is asked to do, one thing after the other.
pub enum EventView {
    /// The next request of an exchange is asked for.
    Ask(ExchangeView),
    /// Something came in where an answer was due.
    Answer(ReplyView),
}

/// The dialogue after `events`, and the requests that went out on the way, in order.
pub open spec fn sent(dialogue: DialogueView, events: Seq<EventView>) -> (
    DialogueView,
    Seq<RequestView>,
)
    decreases events.len(),
{
    if events.len() == 0 {
        (dialogue, Seq::<RequestView>::empty())
    } else {
        let (before, requests) = sent(dialogue, events.drop_last());
        match events.last() {
            EventView::Ask(exchange) => match requested(before, exchange).2 {
                Ok(request) => (requested(before, exchange).0, requests.push(request)),
                Err(_) => (requested(before, exchange).0, requests),
            },
            EventView::Answer(reply) => (replied(before, reply).0, requests),
        }
    }
}

/// Whether the caller's own headers leave `CSeq` to the client.
pub open spec fn leaves_cseq(event: EventView) -> bool {
    event matches EventView::Ask(exchange) ==> ascending(exchange.headers) && lookup(
        exchange.headers,
        lit("CSeq"),
    ) is None
}

pub proof fn lemma_own_headers(cseq: usize, session: Option<Seq<u8>>)
    ensures
        ascending(own_headers(cseq, session)),
        lookup(own_headers(cseq, session), lit("CSeq")) == Some(decimal(cseq as nat)),
{
    lemma_header_names();
    assert(lex_lt(lit("CSeq"), lit("Session"))) by {
        reveal_with_fuel(lex_lt, 2);
    }
}

/// Headers that are set on top of others keep what those say under every name that they do
/// not set themselves.
pub proof fn lemma_extended_keeps(
    base: Seq<(Seq<u8>, Seq<u8>)>,
    more: Seq<(Seq<u8>, Seq<u8>)>,
    name: Seq<u8>,
)
    requires
        ascending(base),
        lookup(more, name) is None,
    ensures
        ascending(extended(base, more)),
        lookup(extended(base, more), name) == lookup(base, name),
    decreases more.len(),
{
    if more.len() > 0 {
        let head = more.drop_last();
        let last = more.last();
        lemma_lookup_index(more, name);
        lemma_lookup_index(head, name);
        assert forall|i: int| 0 <= i < head.len() implies (#[trigger] head[i]).0 != name by {
            assert(head[i] == more[i]);
        }
        assert(lookup(head, name) is None);
        lemma_extended_keeps(base, head, name);
        lemma_inserted_ascending(extended(base, head), last.0, last.1);
        lemma_lookup_inserted(extended(base, head), last.0, last.1, name);
        assert(more[more.len() - 1].0 != name);
    }
}

/// Sequence numbers count up: whatever the client is asked to do and whatever comes in, in
/// whatever order, the requests that go out carry the numbers from the dialogue's next one
/// on as their `CSeq`, one after the other, as long as the caller's own headers leave
/// `CSeq` alone.
pub proof fn law_cseq_counts_up(dialogue: DialogueView, events: Seq<EventView>)
    requires
        dialogue.next_cseq + events.len() <= usize::MAX,
        forall|k: int| 0 <= k < events.len() ==> leaves_cseq(#[trigger] events[k]),
    ensures
        sent(dialogue, events).0.next_cseq == dialogue.next_cseq + sent(dialogue, events).1.len(),
        sent(dialogue, events).1.len() <= events.len(),
        forall|i: int|
            0 <= i < sent(dialogue, events).1.len() ==> lookup(
                (#[trigger] sent(dialogue, events).1[i]).headers,
                lit("CSeq"),
            ) == Some(decimal((dialogue.next_cseq + i) as nat)),
    decreases events.len(),
{
    if events.len() > 0 {
        let head = events.drop_last();
        assert forall|k: int| 0 <= k < head.len() implies leaves_cseq(#[trigger] head[k]) by {
            assert(head[k] == events[k]);
        }
        law_cseq_counts_up(dialogue, head);
        let (before, requests) = sent(dialogue, head);
        let last = events[events.len() - 1];
        assert(leaves_cseq(last));
        match last {
            EventView::Ask(exchange) => {
                if exchange.attempts < MAXIMUM_REDIRECTS {
                    lemma_own_headers(before.next_cseq, before.session);
                    lemma_extended_keeps(
                        own_headers(before.next_cseq, before.session),
                        exchange.headers,
                        lit("CSeq"),
                    );
                    let all = sent(dialogue, events).1;
                    assert forall|i: int| 0 <= i < all.len() implies lookup(
                        (#[trigger] all[i]).headers,
                        lit("CSeq"),
                    ) == Some(decimal((dialogue.next_cseq + i) as nat)) by {
                        if i < requests.len() {
                            assert(all[i] == requests[i]);
                        }
                    }
                }
            },
            EventView::Answer(reply) => {},
        }
    }
}

/// The dialogue and the exchange after one round for every response of `answers`: the next
/// request is asked for, and the response comes in. Nothing, where a request is refused or
/// a response is taken for anything but a redirect.
pub open spec fn after_redirects(
    dialogue: DialogueView,
    exchange: ExchangeView,
    answers: Seq<ResponseView>,
) -> Option<(DialogueView, ExchangeView)>
    decreases answers.len(),
{
    if answers.len() == 0 {
        Some((dialogue, exchange))
    } else {
        match after_redirects(dialogue, exchange, answers.drop_last()) {
            None => None,
            Some((d, e)) => match requested(d, e).2 {
                Err(_) => None,
                Ok(_) => match replied(requested(d, e).0, ReplyView::Message(answers.last())).1 {
                    OutcomeView::Retry => Some(
                        (
                            replied(requested(d, e).0, ReplyView::Message(answers.last())).0,
                            requested(d, e).1,
                        ),
                    ),
                    _ => None,
                },
            },
        }
    }
}

/// Whether every response of `answers` redirects to a path.
pub open spec fn all_redirect(answers: Seq<ResponseView>) -> bool {
    forall|k: int|
        0 <= k < answers.len() ==> status_category((#[trigger] answers[k]).status)
            == StatusCategory::Redirection && (lookup(answers[k].headers, lit("Location"))
            matches Some(location) && crate::rtsp::uri::http_path_and_query(location) is Some)
}

/// Redirects end: against a server that answers every request with a redirect, a fresh
/// exchange sends exactly twenty requests, each of them followed by the redirect, and the
/// twenty-first is refused because the server redirected too many times.
pub proof fn law_redirects_end(
    dialogue: DialogueView,
    exchange: ExchangeView,
    answers: Seq<ResponseView>,
)
    requires
        exchange.attempts == 0,
        answers.len() <= MAXIMUM_REDIRECTS,
        dialogue.next_cseq + answers.len() <= usize::MAX,
        dialogue.uri.scheme is Some || dialogue.uri.authority is None,
        all_redirect(answers),
    ensures
        after_redirects(dialogue, exchange, answers) matches Some((d, e)) && e.attempts
            == answers.len() && d.next_cseq == dialogue.next_cseq + answers.len()
            && d.uri.scheme == dialogue.uri.scheme && d.uri.authority == dialogue.uri.authority
            && (answers.len() == MAXIMUM_REDIRECTS ==> requested(d, e).2 == Err::<
            RequestView,
            ClientErrorView,
        >(ClientErrorView::MaximumNumberOfRedirectsReached)) && (answers.len()
            < MAXIMUM_REDIRECTS ==> requested(d, e).2 is Ok),
    decreases answers.len(),
{
    if answers.len() > 0 {
        let head = answers.drop_last();
        assert forall|k: int| 0 <= k < head.len() implies status_category(
            (#[trigger] head[k]).status,
        ) == StatusCategory::Redirection && (lookup(head[k].headers, lit("Location"))
            matches Some(location) && crate::rtsp::uri::http_path_and_query(location)
            is Some) by {
            assert(head[k] == answers[k]);
        }
        law_redirects_end(dialogue, exchange, head);
        let last = answers[answers.len() - 1];
        assert(status_category(last.status) == StatusCategory::Redirection);
    }
}

} // verus!
