//! Taking a byte stream apart into NAL units.

use crate::buf::{bytes_as_slice, bytes_contents, bytes_slice, bytes_views};
use crate::h264::error::Error;
use bytes::Bytes;
use vstd::prelude::*;

verus! {

/// The length of the start code at `at`: three for `00 00 01`, four for `00 00 00 01`, and
/// zero where there is neither.
pub open spec fn start_code_len(s: Seq<u8>, at: int) -> int {
    if at + 3 <= s.len() && s[at] == 0 && s[at + 1] == 0 && s[at + 2] == 1 {
        3
    } else if at + 4 <= s.len() && s[at] == 0 && s[at + 1] == 0 && s[at + 2] == 0 && s[at + 3]
        == 1 {
        4
    } else {
        0
    }
}

/// The position of the first start code at or behind `from`, or the length of `s`.
pub open spec fn next_start_code(s: Seq<u8>, from: int) -> int
    decreases s.len() - from,
{
    if from >= s.len() || start_code_len(s, from) > 0 {
        from
    } else {
        next_start_code(s, from + 1)
    }
}

/// The NAL units in `s` from `from` on: each reaches up to the next start code, and the
/// last one up to the end.
pub open spec fn units_from(s: Seq<u8>, from: int) -> Seq<Seq<u8>>
    decreases s.len() - from,
{
    if from >= s.len() || from < 0 {
        Seq::<Seq<u8>>::empty()
    } else {
        let at = next_start_code(s, from);
        if at >= s.len() {
            seq![s.subrange(from, s.len() as int)]
        } else if at + start_code_len(s, at) > from {
            seq![s.subrange(from, at)] + units_from(s, at + start_code_len(s, at))
        } else {
            seq![s.subrange(from, at)]
        }
    }
}

/// The NAL units of a byte stream, which begins with a start code.
pub open spec fn annex_b_units(s: Seq<u8>) -> Result<Seq<Seq<u8>>, Error> {
    if start_code_len(s, 0) == 0 {
        Err(Error::AnnexBStartCodeMissing)
    } else {
        Ok(units_from(s, start_code_len(s, 0)))
    }
}

proof fn lemma_next_start_code_is(s: Seq<u8>, from: int, at: int)
    requires
        0 <= from <= at <= s.len(),
        at < s.len() ==> start_code_len(s, at) > 0,
        forall|j: int| from <= j < at ==> start_code_len(s, j) == 0,
    ensures
        next_start_code(s, from) == at,
    decreases at - from,
{
    if from < at {
        lemma_next_start_code_is(s, from + 1, at);
    }
}

fn code_len(s: &[u8], at: usize) -> (r: usize)
    requires
        at <= s@.len(),
    ensures
        r == start_code_len(s@, at as int),
{
    let left = s.len() - at;
    if left >= 3 && s[at] == 0 && s[at + 1] == 0 && s[at + 2] == 1 {
        3
    } else if left >= 4 && s[at] == 0 && s[at + 1] == 0 && s[at + 2] == 0 && s[at + 3] == 1 {
        4
    } else {
        0
    }
}

/// Takes a byte stream apart into its NAL units. The stream begins with a start code, and
/// every further start code ends one unit and begins the next.
pub fn split_nals_annex_b(data: Bytes) -> (r: Result<Vec<Bytes>, Error>)
    ensures
        match annex_b_units(bytes_contents(data)) {
            Ok(units) => r matches Ok(u) && bytes_views(u@) == units,
            Err(e) => r == Err::<Vec<Bytes>, Error>(e),
        },
{
    let s = bytes_as_slice(&data);
    let ghost all = bytes_contents(data);
    let len = s.len();
    let first_offset = code_len(s, 0);
    if first_offset == 0 {
        return Err(Error::AnnexBStartCodeMissing);
    }
    let mut nals: Vec<Bytes> = Vec::new();
    let mut from: usize = first_offset;
    assert(bytes_views(nals@) + units_from(all, from as int) =~= units_from(all, from as int));
    while from < len
        invariant
            0 < from <= len,
            len == all.len(),
            s@ == all,
            all == bytes_contents(data),
            bytes_views(nals@) + units_from(all, from as int) == units_from(
                all,
                first_offset as int,
            ),
        decreases len - from,
    {
        let mut at: usize = from;
        while at < len && code_len(s, at) == 0
            invariant
                from <= at <= len,
                len == all.len(),
                s@ == all,
                forall|j: int| from <= j < at ==> start_code_len(all, j) == 0,
            decreases len - at,
        {
            at += 1;
        }
        proof {
            lemma_next_start_code_is(all, from as int, at as int);
        }
        let ghost before = bytes_views(nals@);
        let ghost unit = all.subrange(from as int, at as int);
        nals.push(bytes_slice(&data, from, at));
        assert(bytes_views(nals@) =~= before.push(unit));
        if at >= len {
            proof {
                assert(units_from(all, len as int) =~= Seq::<Seq<u8>>::empty());
                assert(before.push(unit) + Seq::<Seq<u8>>::empty() =~= before + seq![unit]);
            }
            from = len;
        } else {
            let skip = code_len(s, at);
            proof {
                assert(before.push(unit) + units_from(all, at + skip) =~= before + (seq![unit]
                    + units_from(all, at + skip)));
            }
            from = at + skip;
        }
    }
    proof {
        assert(units_from(all, from as int) =~= Seq::<Seq<u8>>::empty());
        assert(bytes_views(nals@) + Seq::<Seq<u8>>::empty() =~= bytes_views(nals@));
    }
    Ok(nals)
}

} // verus!
