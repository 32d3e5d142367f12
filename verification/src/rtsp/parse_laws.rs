//! What holds of the incremental parser whatever the pieces are that its input arrives in.

use crate::rtsp::buffer::{
    first_break, lemma_first_break, lemma_first_break_is, line_end, line_read, line_rest,
};
use crate::rtsp::error::ErrorView;
use crate::rtsp::parse::{
    body_read, fed, head_line_read, head_read, lemma_line_rest_shorter, Fed, Head, HeadRead,
    Message, ParserView, State, Status,
};
use crate::text::{CR, LF};
use vstd::prelude::*;

verus! {

/// A line that is there stays the same line when more bytes arrive behind it.
pub proof fn lemma_line_read_extends(a: Seq<u8>, b: Seq<u8>)
    requires
        line_read(a) is Some,
    ensures
        line_read(a + b) == line_read(a),
        line_rest(a + b) == line_rest(a) + b,
{
    lemma_first_break(a);
    let at = first_break(a);
    let all = a + b;
    assert(all[at] == a[at]);
    assert forall|j: int| 0 <= j < at implies all[j] != CR && all[j] != LF by {
        assert(all[j] == a[j]);
    }
    lemma_first_break_is(all, at);
    if a[at] != LF {
        assert(all[at + 1] == a[at + 1]);
    }
    let (end, skip) = line_end(a)->Some_0;
    assert(line_end(all) == Some((end, skip)));
    assert(all.take(end) =~= a.take(end));
    assert(all.skip(end + skip) =~= a.skip(end + skip) + b);
}

/// Head lines that were read stay read when more bytes arrive: reading from the longer
/// buffer comes to where reading from the shorter one came and goes on from there.
pub proof fn lemma_head_read_extends<M: Message>(
    metadata: Option<<M::Metadata as View>::V>,
    headers: Seq<(Seq<u8>, Seq<u8>)>,
    a: Seq<u8>,
    b: Seq<u8>,
    head: Head,
)
    ensures
        ({
            let read = head_read::<M>(metadata, headers, a, head);
            head_read::<M>(metadata, headers, a + b, head) == match read.head {
                Ok(Head::Done) => HeadRead { buffer: read.buffer + b, ..read },
                Ok(next) => head_read::<M>(read.metadata, read.headers, read.buffer + b, next),
                Err(e) => HeadRead { buffer: read.buffer + b, ..read },
            }
        }),
    decreases a.len(),
{
    if head == Head::Done {
    } else {
        match line_read(a) {
            None => {},
            Some(Err(e)) => {
                lemma_line_read_extends(a, b);
            },
            Some(Ok(line)) => {
                lemma_line_read_extends(a, b);
                lemma_line_rest_shorter(a);
                lemma_line_rest_shorter(a + b);
                let (metadata2, headers2, next) = head_line_read::<M>(
                    metadata,
                    headers,
                    crate::text::trim(line),
                    head,
                );
                match next {
                    Ok(next) => {
                        lemma_head_read_extends::<M>(metadata2, headers2, line_rest(a), b, next);
                    },
                    Err(_) => {},
                }
            },
        }
    }
}

/// Whether two outcomes of feeding are the same, the parser's place after an error aside.
pub open spec fn same_outcome<V>(first: Fed<V>, second: Fed<V>) -> bool {
    &&& first.said == second.said
    &&& first.buffer == second.buffer
    &&& first.parser.metadata == second.parser.metadata
    &&& first.parser.headers == second.parser.headers
    &&& first.parser.body == second.parser.body
    &&& first.said is Ok ==> first.parser.state == second.parser.state
}

/// Feeding extends: what the parser made of a buffer, it makes of the buffer with more bytes
/// behind it, too. A parser that was hungry goes on from where it was, with what it left and
/// the new bytes, as if it had been fed everything at once; a parser that was done leaves
/// the new bytes alone; an error stays the error.
pub proof fn law_feeding_extends<M: Message>(
    parser: ParserView<<M::Metadata as View>::V>,
    a: Seq<u8>,
    b: Seq<u8>,
)
    ensures
        ({
            let first = fed::<M>(parser, a);
            let whole = fed::<M>(parser, a + b);
            match first.said {
                Ok(Status::Hungry) => same_outcome(fed::<M>(first.parser, first.buffer + b), whole),
                Ok(Status::Done) => whole == (Fed { buffer: first.buffer + b, ..first }),
                Err(e) => same_outcome(Fed { buffer: first.buffer + b, ..first }, whole),
            }
        }),
{
    match parser.state {
        State::Head(head) => {
            lemma_head_read_extends::<M>(parser.metadata, parser.headers, a, b, head);
            let read = head_read::<M>(parser.metadata, parser.headers, a, head);
            match read.head {
                Ok(Head::Done) => {
                    let inner = ParserView {
                        state: State::Body(crate::rtsp::parse::Body::Incomplete),
                        metadata: read.metadata,
                        headers: read.headers,
                        ..parser
                    };
                    lemma_body_read_extends(inner, read.buffer, b);
                },
                Ok(next) => {
                    lemma_head_read_extends::<M>(
                        read.metadata,
                        read.headers,
                        read.buffer + b,
                        Seq::<u8>::empty(),
                        next,
                    );
                    assert(read.buffer + b + Seq::<u8>::empty() =~= read.buffer + b);
                },
                Err(_) => {},
            }
        },
        State::Body(crate::rtsp::parse::Body::Incomplete) => {
            lemma_body_read_extends(parser, a, b);
        },
        State::Body(crate::rtsp::parse::Body::Complete) => {},
    }
}

/// The body, once it is there, stays the same body when more bytes arrive.
pub proof fn lemma_body_read_extends<V>(parser: ParserView<V>, a: Seq<u8>, b: Seq<u8>)
    ensures
        ({
            let first = body_read(parser, a);
            let whole = body_read(parser, a + b);
            match first.said {
                Ok(Status::Hungry) => first.parser == parser && first.buffer == a,
                Ok(Status::Done) => whole == (Fed { buffer: first.buffer + b, ..first }),
                Err(e) => whole == (Fed { buffer: first.buffer + b, ..first }),
            }
        }),
{
    match crate::rtsp::parse::content_length(parser.headers) {
        Ok(Some(need)) => {
            if a.len() >= need {
                assert((a + b).take(need as int) =~= a.take(need as int));
                assert((a + b).skip(need as int) =~= a.skip(need as int) + b);
            }
        },
        _ => {},
    }
}

/// The bytes of all `pieces`, one behind the other.
pub open spec fn joined(pieces: Seq<Seq<u8>>) -> Seq<u8>
    decreases pieces.len(),
{
    if pieces.len() == 0 {
        Seq::<u8>::empty()
    } else {
        pieces[0] + joined(pieces.skip(1))
    }
}

/// Feeding a parser piece by piece: each piece goes behind what the parser left of the
/// buffer, and the parser is fed with that. This goes on while the parser is hungry and
/// there are pieces.
pub open spec fn fed_in_pieces<M: Message>(
    parser: ParserView<<M::Metadata as View>::V>,
    buffer: Seq<u8>,
    pieces: Seq<Seq<u8>>,
) -> Fed<<M::Metadata as View>::V>
    decreases pieces.len(),
{
    if pieces.len() == 0 {
        Fed { parser, buffer, said: Ok(Status::Hungry) }
    } else {
        let next = fed::<M>(parser, buffer + pieces[0]);
        if next.said == Ok::<Status, ErrorView>(Status::Hungry) && pieces.len() > 1 {
            fed_in_pieces::<M>(next.parser, next.buffer, pieces.skip(1))
        } else {
            next
        }
    }
}

/// The pieces do not matter: where a parser that is fed a message at once is done and has
/// taken every byte, the parser is done as well when it is fed the same bytes in pieces,
/// however they are cut; it has taken every byte then, no more and no less, and holds the
/// same message.
pub proof fn law_pieces_do_not_matter<M: Message>(
    parser: ParserView<<M::Metadata as View>::V>,
    buffer: Seq<u8>,
    pieces: Seq<Seq<u8>>,
)
    requires
        pieces.len() >= 1,
        fed::<M>(parser, buffer + joined(pieces)).said == Ok::<Status, ErrorView>(Status::Done),
        fed::<M>(parser, buffer + joined(pieces)).buffer.len() == 0,
    ensures
        fed_in_pieces::<M>(parser, buffer, pieces) == fed::<M>(parser, buffer + joined(pieces)),
    decreases pieces.len(),
{
    let rest = joined(pieces.skip(1));
    let a = buffer + pieces[0];
    assert(buffer + joined(pieces) =~= a + rest);
    let next = fed::<M>(parser, a);
    let whole = fed::<M>(parser, a + rest);
    law_feeding_extends::<M>(parser, a, rest);
    match next.said {
        Ok(Status::Hungry) => {
            if pieces.len() > 1 {
                law_pieces_do_not_matter::<M>(next.parser, next.buffer, pieces.skip(1));
            } else {
                assert(pieces.skip(1) =~= Seq::<Seq<u8>>::empty());
                assert(rest =~= Seq::<u8>::empty());
                assert(a + rest =~= a);
            }
        },
        Ok(Status::Done) => {
            assert(next.buffer + rest =~= whole.buffer);
            assert(next.buffer =~= Seq::<u8>::empty());
            assert(rest =~= Seq::<u8>::empty());
        },
        Err(_) => {},
    }
}

} // verus!
