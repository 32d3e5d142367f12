//! Lines out of a buffer that fills up piece by piece.

use crate::buf::{bytes_as_slice, bytes_contents, bytes_mut_as_slice, bytes_mut_contents};
use crate::rtsp::error::{Error, ErrorView};
use crate::text::{CR, LF};
use bytes::{Bytes, BytesMut};
use vstd::prelude::*;
use vstd::slice::{slice_subrange, slice_to_vec};
use vstd::utf8::valid_utf8;

verus! {

/// The position of the first carriage return or line feed in `s`, or the length of `s`.
pub open spec fn first_break(s: Seq<u8>) -> int
    decreases s.len(),
{
    if s.len() == 0 || s[0] == CR || s[0] == LF {
        0
    } else {
        1 + first_break(s.skip(1))
    }
}

pub proof fn lemma_first_break(s: Seq<u8>)
    ensures
        0 <= first_break(s) <= s.len(),
        first_break(s) < s.len() ==> s[first_break(s)] == CR || s[first_break(s)] == LF,
        forall|j: int| 0 <= j < first_break(s) ==> s[j] != CR && s[j] != LF,
    decreases s.len(),
{
    if s.len() == 0 || s[0] == CR || s[0] == LF {
    } else {
        lemma_first_break(s.skip(1));
        assert forall|j: int| 0 <= j < first_break(s) implies s[j] != CR && s[j] != LF by {
            if j > 0 {
                assert(s.skip(1)[j - 1] == s[j]);
            }
        }
    }
}

pub proof fn lemma_first_break_is(s: Seq<u8>, at: int)
    requires
        0 <= at <= s.len(),
        at < s.len() ==> s[at] == CR || s[at] == LF,
        forall|j: int| 0 <= j < at ==> s[j] != CR && s[j] != LF,
    ensures
        first_break(s) == at,
{
    lemma_first_break(s);
    let f = first_break(s);
    if f < at {
        assert(s[f] != CR && s[f] != LF);
    } else if f > at {
        assert(s[at] != CR && s[at] != LF);
    }
}

/// Where the first line of `s` ends and how many bytes its terminator has, once the line is
/// known to be terminated. A line ends at the first carriage return or line feed; a carriage
/// return and the line feed behind it end it together. A carriage return that is the last
/// byte there is does not end the line yet: the next byte may be the line feed.
pub open spec fn line_end(s: Seq<u8>) -> Option<(int, int)> {
    let at = first_break(s);
    if at >= s.len() {
        None
    } else if s[at] == LF {
        Some((at, 1))
    } else if at + 1 >= s.len() {
        None
    } else if s[at + 1] == LF {
        Some((at, 2))
    } else {
        Some((at, 1))
    }
}

/// The first line of `s` without its terminator, or that it is not valid UTF-8.
pub open spec fn line_read(s: Seq<u8>) -> Option<Result<Seq<u8>, ErrorView>> {
    match line_end(s) {
        Some((end, skip)) => Some(
            if valid_utf8(s.take(end)) {
                Ok(s.take(end))
            } else {
                Err(ErrorView::Encoding)
            },
        ),
        None => None,
    }
}

/// What is left of `s` once its first line was read.
pub open spec fn line_rest(s: Seq<u8>) -> Seq<u8> {
    match line_end(s) {
        Some((end, skip)) => s.skip(end + skip),
        None => s,
    }
}

/// `core::str::from_utf8`: whether `bytes` are valid UTF-8.
#[verifier::external_body]
fn is_utf8(bytes: &[u8]) -> (r: bool)
    ensures
        r == valid_utf8(bytes@),
{
    core::str::from_utf8(bytes).is_ok()
}

/// Where the first line of `s` ends and how long its terminator is.
pub fn find_line_end(s: &[u8]) -> (r: Option<(usize, usize)>)
    ensures
        match r {
            Some((end, skip)) => line_end(s@) == Some((end as int, skip as int)) && end + skip
                <= s@.len() && end + skip <= usize::MAX,
            None => line_end(s@) is None,
        },
{
    let mut at: usize = 0;
    while at < s.len() && s[at] != CR && s[at] != LF
        invariant
            0 <= at <= s@.len(),
            forall|j: int| 0 <= j < at ==> s@[j] != CR && s@[j] != LF,
        decreases s@.len() - at,
    {
        at += 1;
    }
    proof {
        lemma_first_break_is(s@, at as int);
    }
    let total = s.len();
    if at >= s.len() {
        None
    } else if s[at] == LF {
        Some((at, 1))
    } else if at + 1 >= s.len() {
        None
    } else if s[at + 1] == LF {
        Some((at, 2))
    } else {
        Some((at, 1))
    }
}

/// Reading lines off the front of a buffer.
pub trait ReadLine {
    /// The bytes that are yet to be read.
    spec fn unread(&self) -> Seq<u8>;

    /// Takes the first line out of the buffer, terminator included, and hands it back
    /// without the terminator. Hands back nothing, and takes nothing, as long as the buffer
    /// holds no terminated line.
    fn read_line(&mut self) -> (r: Option<Result<Vec<u8>, Error>>)
        ensures
            final(self).unread() == line_rest(old(self).unread()),
            match line_read(old(self).unread()) {
                Some(Ok(line)) => r matches Some(Ok(l)) && l@ == line,
                Some(Err(e)) => r matches Some(Err(x)) && x@ == e,
                None => r is None,
            },
    ;
}

impl ReadLine for BytesMut {
    open spec fn unread(&self) -> Seq<u8> {
        bytes_mut_contents(*self)
    }

    fn read_line(&mut self) -> (r: Option<Result<Vec<u8>, Error>>) {
        let found = find_line_end(bytes_mut_as_slice(self));
        match found {
            Some((end, skip)) => {
                let head = self.split_to(end + skip);
                let line = slice_subrange(bytes_mut_as_slice(&head), 0, end);
                assert(line@ =~= old(self).unread().take(end as int));
                if is_utf8(line) {
                    Some(Ok(slice_to_vec(line)))
                } else {
                    Some(Err(Error::Encoding))
                }
            },
            None => None,
        }
    }
}

impl ReadLine for Bytes {
    open spec fn unread(&self) -> Seq<u8> {
        bytes_contents(*self)
    }

    fn read_line(&mut self) -> (r: Option<Result<Vec<u8>, Error>>) {
        let found = find_line_end(bytes_as_slice(self));
        match found {
            Some((end, skip)) => {
                let head = self.split_to(end + skip);
                let line = slice_subrange(bytes_as_slice(&head), 0, end);
                assert(line@ =~= old(self).unread().take(end as int));
                if is_utf8(line) {
                    Some(Ok(slice_to_vec(line)))
                } else {
                    Some(Err(Error::Encoding))
                }
            },
            None => None,
        }
    }
}

} // verus!
