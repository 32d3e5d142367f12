//! The parts that requests and responses share: headers, methods, versions and statuses.

use crate::rtsp::error::{Error, ErrorView};
use crate::text::{
    bytes_eq, copy_of, decimal, decimal_bytes, has_prefix, is_space, lex_less, lex_lt, lit,
    lemma_lex_total, lemma_lex_transitive, push_all, text_of, CR, LF, SPACE,
};
use vstd::prelude::*;
use vstd::string::*;

verus! {

pub type StatusCode = usize;

/// One header: its name and its value.
pub type Entry = (Vec<u8>, Vec<u8>);

/// The views of a run of headers.
pub open spec fn entry_views(entries: Seq<Entry>) -> Seq<(Seq<u8>, Seq<u8>)> {
    Seq::new(entries.len(), |i: int| (entries[i].0@, entries[i].1@))
}

/// Whether the names of `entries` ascend strictly, so that no name occurs twice.
pub open spec fn ascending(entries: Seq<(Seq<u8>, Seq<u8>)>) -> bool {
    forall|i: int, j: int|
        0 <= i < j < entries.len() ==> lex_lt(#[trigger] entries[i].0, #[trigger] entries[j].0)
}

/// The value that goes with `name`, if `entries` has the name.
pub open spec fn lookup(entries: Seq<(Seq<u8>, Seq<u8>)>, name: Seq<u8>) -> Option<Seq<u8>>
    decreases entries.len(),
{
    if entries.len() == 0 {
        None
    } else if entries[0].0 == name {
        Some(entries[0].1)
    } else {
        lookup(entries.skip(1), name)
    }
}

/// The number of names at the front of `entries` that come before `name`.
pub open spec fn names_before(entries: Seq<(Seq<u8>, Seq<u8>)>, name: Seq<u8>) -> int
    decreases entries.len(),
{
    if entries.len() == 0 || !lex_lt(entries[0].0, name) {
        0
    } else {
        1 + names_before(entries.skip(1), name)
    }
}

/// `entries` with `name` set to `value`: in place of the value that the name had, or as a
/// new header at the name's place in the order.
pub open spec fn inserted(entries: Seq<(Seq<u8>, Seq<u8>)>, name: Seq<u8>, value: Seq<u8>) -> Seq<
    (Seq<u8>, Seq<u8>),
> {
    let at = names_before(entries, name);
    if at < entries.len() && entries[at].0 == name {
        entries.update(at, (name, value))
    } else {
        entries.take(at) + seq![(name, value)] + entries.skip(at)
    }
}

/// `entries` with every header of `more` set, first to last.
pub open spec fn extended(entries: Seq<(Seq<u8>, Seq<u8>)>, more: Seq<(Seq<u8>, Seq<u8>)>) -> Seq<
    (Seq<u8>, Seq<u8>),
>
    decreases more.len(),
{
    if more.len() == 0 {
        entries
    } else {
        extended(entries, more.drop_last()).insert_entry(more.last())
    }
}

pub trait InsertEntry {
    spec fn insert_entry(self, entry: (Seq<u8>, Seq<u8>)) -> Self;
}

impl InsertEntry for Seq<(Seq<u8>, Seq<u8>)> {
    open spec fn insert_entry(self, entry: (Seq<u8>, Seq<u8>)) -> Self {
        inserted(self, entry.0, entry.1)
    }
}

pub proof fn lemma_names_before(entries: Seq<(Seq<u8>, Seq<u8>)>, name: Seq<u8>)
    ensures
        0 <= names_before(entries, name) <= entries.len(),
        forall|i: int| 0 <= i < names_before(entries, name) ==> lex_lt(entries[i].0, name),
        names_before(entries, name) < entries.len() ==> !lex_lt(
            entries[names_before(entries, name)].0,
            name,
        ),
    decreases entries.len(),
{
    if entries.len() == 0 || !lex_lt(entries[0].0, name) {
    } else {
        lemma_names_before(entries.skip(1), name);
        assert forall|i: int| 0 <= i < names_before(entries, name) implies lex_lt(
            entries[i].0,
            name,
        ) by {
            if i > 0 {
                assert(entries.skip(1)[i - 1] == entries[i]);
            }
        }
    }
}

proof fn lemma_names_before_is(entries: Seq<(Seq<u8>, Seq<u8>)>, name: Seq<u8>, at: int)
    requires
        0 <= at <= entries.len(),
        forall|i: int| 0 <= i < at ==> lex_lt(entries[i].0, name),
        at < entries.len() ==> !lex_lt(entries[at].0, name),
    ensures
        names_before(entries, name) == at,
{
    lemma_names_before(entries, name);
    let n = names_before(entries, name);
    if n < at {
        assert(lex_lt(entries[n].0, name));
    } else if n > at {
        assert(lex_lt(entries[at].0, name));
    }
}

/// Setting a header keeps the names ascending.
pub proof fn lemma_inserted_ascending(entries: Seq<(Seq<u8>, Seq<u8>)>, name: Seq<u8>, value: Seq<u8>)
    requires
        ascending(entries),
    ensures
        ascending(inserted(entries, name, value)),
{
    lemma_names_before(entries, name);
    let at = names_before(entries, name);
    let after = inserted(entries, name, value);
    if at < entries.len() && entries[at].0 == name {
        assert forall|i: int, j: int| 0 <= i < j < after.len() implies lex_lt(
            #[trigger] after[i].0,
            #[trigger] after[j].0,
        ) by {
            assert(after[i].0 == entries[i].0);
            assert(after[j].0 == entries[j].0);
        }
    } else {
        assert forall|i: int, j: int| 0 <= i < j < after.len() implies lex_lt(
            #[trigger] after[i].0,
            #[trigger] after[j].0,
        ) by {
            if j < at {
                assert(after[i] == entries[i] && after[j] == entries[j]);
            } else if i < at && j == at {
                assert(after[i] == entries[i]);
            } else if i < at {
                assert(after[i] == entries[i] && after[j] == entries[j - 1]);
            } else if i == at {
                assert(after[j] == entries[j - 1]);
                lemma_lex_total(entries[at].0, name);
                if j - 1 > at {
                    assert(lex_lt(entries[at].0, entries[j - 1].0));
                    lemma_lex_transitive(name, entries[at].0, entries[j - 1].0);
                }
            } else {
                assert(after[i] == entries[i - 1] && after[j] == entries[j - 1]);
            }
        }
    }
}

/// A header whose name comes after every name there is goes to the end.
pub proof fn lemma_inserted_last(entries: Seq<(Seq<u8>, Seq<u8>)>, name: Seq<u8>, value: Seq<u8>)
    requires
        forall|i: int| 0 <= i < entries.len() ==> lex_lt(entries[i].0, name),
    ensures
        inserted(entries, name, value) == entries.push((name, value)),
{
    lemma_names_before_is(entries, name, entries.len() as int);
    assert(entries.take(entries.len() as int) + seq![(name, value)] + entries.skip(
        entries.len() as int,
    ) =~= entries.push((name, value)));
}

pub proof fn lemma_lookup_index(entries: Seq<(Seq<u8>, Seq<u8>)>, name: Seq<u8>)
    ensures
        match lookup(entries, name) {
            Some(value) => exists|i: int|
                0 <= i < entries.len() && #[trigger] entries[i].0 == name && entries[i].1 == value,
            None => forall|i: int| 0 <= i < entries.len() ==> (#[trigger] entries[i]).0 != name,
        },
    decreases entries.len(),
{
    if entries.len() == 0 {
    } else if entries[0].0 == name {
    } else {
        lemma_lookup_index(entries.skip(1), name);
        match lookup(entries, name) {
            Some(value) => {
                let i = choose|i: int|
                    0 <= i < entries.skip(1).len() && #[trigger] entries.skip(1)[i].0 == name
                        && entries.skip(1)[i].1 == value;
                assert(entries[i + 1].0 == name && entries[i + 1].1 == value);
            },
            None => {
                assert forall|i: int| 0 <= i < entries.len() implies (#[trigger] entries[i]).0
                    != name by {
                    if i > 0 {
                        assert(entries.skip(1)[i - 1] == entries[i]);
                    }
                }
            },
        }
    }
}

/// Where no name occurs twice, the header at any place is the one that its name finds.
pub proof fn lemma_lookup_at(entries: Seq<(Seq<u8>, Seq<u8>)>, at: int)
    requires
        ascending(entries),
        0 <= at < entries.len(),
    ensures
        lookup(entries, entries[at].0) == Some(entries[at].1),
{
    let name = entries[at].0;
    lemma_lookup_index(entries, name);
    match lookup(entries, name) {
        Some(value) => {
            let i = choose|i: int|
                0 <= i < entries.len() && #[trigger] entries[i].0 == name && entries[i].1 == value;
            if i != at {
                crate::text::lemma_lex_irreflexive(name);
                if i < at {
                    assert(lex_lt(entries[i].0, entries[at].0));
                } else {
                    assert(lex_lt(entries[at].0, entries[i].0));
                }
            }
        },
        None => {
            assert(entries[at].0 != name);
        },
    }
}

/// What a name finds after a header was set: the new value under the header's own name,
/// and what it found before under any other.
pub proof fn lemma_lookup_inserted(
    entries: Seq<(Seq<u8>, Seq<u8>)>,
    name: Seq<u8>,
    value: Seq<u8>,
    other: Seq<u8>,
)
    requires
        ascending(entries),
    ensures
        lookup(inserted(entries, name, value), other) == if other == name {
            Some(value)
        } else {
            lookup(entries, other)
        },
{
    lemma_names_before(entries, name);
    lemma_inserted_ascending(entries, name, value);
    let at = names_before(entries, name);
    let after = inserted(entries, name, value);
    let replaced = at < entries.len() && entries[at].0 == name;
    assert(after[at] == (name, value));
    if other == name {
        lemma_lookup_at(after, at);
    } else {
        lemma_lookup_index(entries, other);
        lemma_lookup_index(after, other);
        match lookup(entries, other) {
            Some(found) => {
                let i = choose|i: int|
                    0 <= i < entries.len() && #[trigger] entries[i].0 == other && entries[i].1
                        == found;
                let k = if replaced || i < at {
                    i
                } else {
                    i + 1
                };
                assert(after[k] == entries[i]);
                lemma_lookup_at(after, k);
            },
            None => {
                match lookup(after, other) {
                    Some(found) => {
                        let k = choose|k: int|
                            0 <= k < after.len() && #[trigger] after[k].0 == other && after[k].1
                                == found;
                        let i = if replaced || k < at {
                            k
                        } else {
                            k - 1
                        };
                        assert(after[k] == entries[i]);
                        assert(entries[i].0 != other);
                    },
                    None => {},
                }
            },
        }
    }
}

/// The headers of a message: names with their values, each name once, kept in ascending
/// order of the names.
#[derive(Debug, PartialEq, Eq)]
pub struct Headers {
    map: Vec<Entry>,
}

impl View for Headers {
    type V = Seq<(Seq<u8>, Seq<u8>)>;

    closed spec fn view(&self) -> Seq<(Seq<u8>, Seq<u8>)> {
        entry_views(self.map@)
    }
}

impl Headers {
    #[verifier::type_invariant]
    spec fn in_order(self) -> bool {
        ascending(entry_views(self.map@))
    }

    /// No headers.
    pub fn new() -> (r: Headers)
        ensures
            r@ == Seq::<(Seq<u8>, Seq<u8>)>::empty(),
    {
        let map: Vec<Entry> = Vec::new();
        assert(entry_views(map@) =~= Seq::<(Seq<u8>, Seq<u8>)>::empty());
        Headers { map }
    }

    /// The headers of `entries`, set first to last.
    pub fn from_entries(entries: Vec<Entry>) -> (r: Headers)
        ensures
            r@ == extended(Seq::<(Seq<u8>, Seq<u8>)>::empty(), entry_views(entries@)),
    {
        let mut headers = Headers::new();
        let ghost all = entry_views(entries@);
        let mut i: usize = 0;
        assert(all.take(0) =~= Seq::<(Seq<u8>, Seq<u8>)>::empty());
        while i < entries.len()
            invariant
                0 <= i <= entries@.len(),
                all == entry_views(entries@),
                headers@ == extended(Seq::<(Seq<u8>, Seq<u8>)>::empty(), all.take(i as int)),
            decreases entries@.len() - i,
        {
            let key = copy_of(entries[i].0.as_slice());
            let value = copy_of(entries[i].1.as_slice());
            headers.insert(key, value);
            proof {
                let next = all.take(i + 1);
                assert(next.drop_last() =~= all.take(i as int));
                assert(next.last() == all[i as int]);
            }
            i += 1;
        }
        assert(all.take(all.len() as int) =~= all);
        headers
    }

    /// The one header `CSeq`, with `cseq` in decimal.
    pub fn with_cseq(cseq: usize) -> (r: Headers)
        ensures
            r@ == seq![(lit("CSeq"), decimal(cseq as nat))],
    {
        let mut headers = Headers::new();
        headers.insert(text_of("CSeq"), decimal_bytes(cseq as u64));
        proof {
            lemma_inserted_last(Seq::<(Seq<u8>, Seq<u8>)>::empty(), lit("CSeq"), decimal(cseq as nat));
            assert(Seq::<(Seq<u8>, Seq<u8>)>::empty().push((lit("CSeq"), decimal(cseq as nat)))
                =~= seq![(lit("CSeq"), decimal(cseq as nat))]);
        }
        headers
    }

    /// The two headers `CSeq`, with `cseq` in decimal, and `Session`.
    pub fn with_cseq_and_session(cseq: usize, session_id: &[u8]) -> (r: Headers)
        ensures
            r@ == seq![(lit("CSeq"), decimal(cseq as nat)), (lit("Session"), session_id@)],
    {
        let mut headers = Headers::with_cseq(cseq);
        headers.insert(text_of("Session"), copy_of(session_id));
        proof {
            lemma_header_names();
            let first = seq![(lit("CSeq"), decimal(cseq as nat))];
            assert(lex_lt(lit("CSeq"), lit("Session"))) by {
                reveal_with_fuel(lex_lt, 2);
            }
            lemma_inserted_last(first, lit("Session"), session_id@);
            assert(first.push((lit("Session"), session_id@)) =~= seq![
                (lit("CSeq"), decimal(cseq as nat)),
                (lit("Session"), session_id@),
            ]);
        }
        headers
    }

    /// Sets the header `key` to `value` and hands back the value that it had, if any.
    pub fn insert(&mut self, key: Vec<u8>, value: Vec<u8>) -> (r: Option<Vec<u8>>)
        ensures
            final(self)@ == inserted(old(self)@, key@, value@),
            match r {
                Some(previous) => lookup(old(self)@, key@) == Some(previous@),
                None => lookup(old(self)@, key@) is None,
            },
    {
        proof {
            use_type_invariant(&*self);
        }
        let mut taken = Headers::new();
        core::mem::swap(self, &mut taken);
        let mut map = taken.map;
        let ghost before = entry_views(map@);
        let mut at: usize = 0;
        while at < map.len() && lex_less(map[at].0.as_slice(), key.as_slice())
            invariant
                0 <= at <= map@.len(),
                before == entry_views(map@),
                forall|i: int| 0 <= i < at ==> lex_lt(before[i].0, key@),
            decreases map@.len() - at,
        {
            at += 1;
        }
        proof {
            lemma_names_before_is(before, key@, at as int);
            lemma_inserted_ascending(before, key@, value@);
            lemma_lookup_index(before, key@);
        }
        if at < map.len() && bytes_eq(map[at].0.as_slice(), key.as_slice()) {
            let previous = map.remove(at);
            map.insert(at, (key, value));
            proof {
                assert(entry_views(map@) =~= before.update(at as int, (key@, value@)));
                lemma_lookup_at(before, at as int);
            }
            *self = Headers { map };
            Some(previous.1)
        } else {
            map.insert(at, (key, value));
            proof {
                assert(entry_views(map@) =~= before.take(at as int) + seq![(key@, value@)]
                    + before.skip(at as int));
                match lookup(before, key@) {
                    Some(found) => {
                        let i = choose|i: int|
                            0 <= i < before.len() && #[trigger] before[i].0 == key@ && before[i].1
                                == found;
                        crate::text::lemma_lex_irreflexive(key@);
                        if i < at {
                            assert(lex_lt(before[i].0, key@));
                        } else if i > at {
                            assert(lex_lt(before[at as int].0, before[i].0));
                        }
                    },
                    None => {},
                }
            }
            *self = Headers { map };
            None
        }
    }

    /// Sets every header of `other`.
    pub fn extend(&mut self, other: Headers)
        ensures
            final(self)@ == extended(old(self)@, other@),
    {
        let mut i: usize = 0;
        assert(other@.take(0) =~= Seq::<(Seq<u8>, Seq<u8>)>::empty());
        while i < other.map.len()
            invariant
                0 <= i <= other.map@.len(),
                self@ == extended(old(self)@, other@.take(i as int)),
            decreases other.map@.len() - i,
        {
            let key = copy_of(other.map[i].0.as_slice());
            let value = copy_of(other.map[i].1.as_slice());
            self.insert(key, value);
            proof {
                let next = other@.take(i + 1);
                assert(next.drop_last() =~= other@.take(i as int));
                assert(next.last() == other@[i as int]);
            }
            i += 1;
        }
        assert(other@.take(other@.len() as int) =~= other@);
    }

    /// Whether there is a header `key`.
    pub fn contains(&self, key: &[u8]) -> (r: bool)
        ensures
            r == (lookup(self@, key@) is Some),
    {
        self.get(key).is_some()
    }

    /// The value of the header `key`, if there is one.
    pub fn get(&self, key: &[u8]) -> (r: Option<&Vec<u8>>)
        ensures
            match r {
                Some(value) => lookup(self@, key@) == Some(value@),
                None => lookup(self@, key@) is None,
            },
    {
        let mut i: usize = 0;
        assert(self@.skip(0) =~= self@);
        while i < self.map.len()
            invariant
                0 <= i <= self.map@.len(),
                lookup(self@, key@) == lookup(self@.skip(i as int), key@),
            decreases self.map@.len() - i,
        {
            assert(self@.skip(i as int)[0] == self@[i as int]);
            if bytes_eq(self.map[i].0.as_slice(), key) {
                return Some(&self.map[i].1);
            }
            assert(self@.skip(i as int).skip(1) =~= self@.skip(i + 1));
            i += 1;
        }
        None
    }

    /// Whether there is no header.
    pub fn is_empty(&self) -> (r: bool)
        ensures
            r == (self@.len() == 0),
    {
        self.map.len() == 0
    }

    /// The headers in ascending order of their names.
    pub fn into_map(self) -> (r: Vec<Entry>)
        ensures
            entry_views(r@) == self@,
            ascending(self@),
    {
        proof {
            use_type_invariant(&self);
        }
        self.map
    }

    /// The headers in ascending order of their names.
    pub fn as_map(&self) -> (r: &Vec<Entry>)
        ensures
            entry_views(r@) == self@,
            ascending(self@),
    {
        proof {
            use_type_invariant(self);
        }
        &self.map
    }

    /// A copy of the headers.
    pub fn duplicate(&self) -> (r: Headers)
        ensures
            r@ == self@,
    {
        proof {
            use_type_invariant(self);
        }
        let mut map: Vec<Entry> = Vec::new();
        let mut i: usize = 0;
        while i < self.map.len()
            invariant
                0 <= i <= self.map@.len(),
                entry_views(map@) == entry_views(self.map@).take(i as int),
            decreases self.map@.len() - i,
        {
            let ghost before = entry_views(map@);
            let name = copy_of(self.map[i].0.as_slice());
            let value = copy_of(self.map[i].1.as_slice());
            map.push((name, value));
            assert(entry_views(map@) =~= before.push(entry_views(self.map@)[i as int]));
            i += 1;
            assert(entry_views(map@) =~= entry_views(self.map@).take(i as int));
        }
        assert(entry_views(self.map@).take(self.map@.len() as int) =~= entry_views(self.map@));
        Headers { map }
    }
}

impl Clone for Headers {
    fn clone(&self) -> (r: Headers)
        ensures
            r@ == self@,
    {
        self.duplicate()
    }
}

impl Default for Headers {
    fn default() -> (r: Headers)
        ensures
            r@ == Seq::<(Seq<u8>, Seq<u8>)>::empty(),
    {
        Headers::new()
    }
}

/// RTSP version.
#[derive(Debug, Clone, Copy, PartialEq, Eq, Structural)]
pub enum Version {
    V1,
    V2,
    Unknown,
}

impl Default for Version {
    fn default() -> (r: Version)
        ensures
            r == Version::V1,
    {
        Version::V1
    }
}

impl Version {
    /// The version that a version token names: `RTSP/1.0` and `RTSP/2.0` are known, any
    /// other token that begins with `RTSP/` is an unknown version, and any other token is
    /// malformed.
    pub open spec fn of_text(part: Seq<u8>) -> Option<Version> {
        if part == lit("RTSP/1.0") {
            Some(Version::V1)
        } else if part == lit("RTSP/2.0") {
            Some(Version::V2)
        } else if has_prefix(part, lit("RTSP/")) {
            Some(Version::Unknown)
        } else {
            None
        }
    }

    /// The version on the wire, for the versions that have a wire form.
    pub open spec fn text(self) -> Option<Seq<u8>> {
        match self {
            Version::V1 => Some(lit("RTSP/1.0")),
            Version::V2 => Some(lit("RTSP/2.0")),
            Version::Unknown => None,
        }
    }

    /// The version on the wire; an unknown version has no wire form.
    pub fn to_bytes(&self) -> (r: Result<Vec<u8>, Error>)
        ensures
            match self.text() {
                Some(text) => r matches Ok(t) && t@ == text,
                None => r matches Err(e) && e@ == ErrorView::VersionUnknown,
            },
    {
        match self {
            Version::V1 => Ok(text_of("RTSP/1.0")),
            Version::V2 => Ok(text_of("RTSP/2.0")),
            Version::Unknown => Err(Error::VersionUnknown),
        }
    }
}

/// Status category, by the hundreds of the status code.
#[derive(Debug, Clone, Copy, PartialEq, Eq, Structural)]
pub enum StatusCategory {
    Informational,
    Success,
    Redirection,
    ClientError,
    ServerError,
    Unknown,
}

/// The category of a status code.
pub open spec fn status_category(code: StatusCode) -> StatusCategory {
    if code >= 600 {
        StatusCategory::Unknown
    } else if code >= 500 {
        StatusCategory::ServerError
    } else if code >= 400 {
        StatusCategory::ClientError
    } else if code >= 300 {
        StatusCategory::Redirection
    } else if code >= 200 {
        StatusCategory::Success
    } else if code >= 100 {
        StatusCategory::Informational
    } else {
        StatusCategory::Unknown
    }
}

/// RTSP status codes that have a name.
#[derive(Debug, Clone, Copy, PartialEq, Eq, Structural)]
pub enum Status {
    Continue,
    Okay,
    Created,
    LowonStorageSpace,
    MultipleChoices,
    MovedPermanently,
    MovedTemporarily,
    SeeOther,
    UseProxy,
    BadRequest,
    Unauthorized,
    PaymentRequired,
    Forbidden,
    NotFound,
    MethodNotAllowed,
    NotAcceptable,
    ProxyAuthenticationRequired,
    RequestTimeout,
    Gone,
    LengthRequired,
    PreconditionFailed,
    RequestEntityTooLarge,
    RequestUriTooLong,
    UnsupportedMediaType,
    InvalidParameter,
    IllegalConferenceIdentifier,
    NotEnoughBandwidth,
    SessionNotFound,
    MethodNotValidInThisState,
    HeaderFieldNotValid,
    InvalidRange,
    ParameterIsReadOnly,
    AggregateOperationNotAllowed,
    OnlyAggregateOperationAllowed,
    UnsupportedTransport,
    DestinationUnreachable,
    InternalServerError,
    NotImplemented,
    BadGateway,
    ServiceUnavailable,
    GatewayTimeout,
    RTSPVersionNotSupported,
    OptionNotSupported,
}

impl Status {
    /// The number of the status.
    pub open spec fn code(self) -> StatusCode {
        match self {
            Status::Continue => 100,
            Status::Okay => 200,
            Status::Created => 201,
            Status::LowonStorageSpace => 250,
            Status::MultipleChoices => 300,
            Status::MovedPermanently => 301,
            Status::MovedTemporarily => 302,
            Status::SeeOther => 303,
            Status::UseProxy => 305,
            Status::BadRequest => 400,
            Status::Unauthorized => 401,
            Status::PaymentRequired => 402,
            Status::Forbidden => 403,
            Status::NotFound => 404,
            Status::MethodNotAllowed => 405,
            Status::NotAcceptable => 406,
            Status::ProxyAuthenticationRequired => 407,
            Status::RequestTimeout => 408,
            Status::Gone => 410,
            Status::LengthRequired => 411,
            Status::PreconditionFailed => 412,
            Status::RequestEntityTooLarge => 413,
            Status::RequestUriTooLong => 414,
            Status::UnsupportedMediaType => 415,
            Status::InvalidParameter => 451,
            Status::IllegalConferenceIdentifier => 452,
            Status::NotEnoughBandwidth => 453,
            Status::SessionNotFound => 454,
            Status::MethodNotValidInThisState => 455,
            Status::HeaderFieldNotValid => 456,
            Status::InvalidRange => 457,
            Status::ParameterIsReadOnly => 458,
            Status::AggregateOperationNotAllowed => 459,
            Status::OnlyAggregateOperationAllowed => 460,
            Status::UnsupportedTransport => 461,
            Status::DestinationUnreachable => 462,
            Status::InternalServerError => 500,
            Status::NotImplemented => 501,
            Status::BadGateway => 502,
            Status::ServiceUnavailable => 503,
            Status::GatewayTimeout => 504,
            Status::RTSPVersionNotSupported => 505,
            Status::OptionNotSupported => 551,
        }
    }

    /// The status that `code` numbers, if it has a name.
    pub open spec fn of_code(code: StatusCode) -> Option<Status> {
        if code == 100 {
            Some(Status::Continue)
        } else if code == 200 {
            Some(Status::Okay)
        } else if code == 201 {
            Some(Status::Created)
        } else if code == 250 {
            Some(Status::LowonStorageSpace)
        } else if code == 300 {
            Some(Status::MultipleChoices)
        } else if code == 301 {
            Some(Status::MovedPermanently)
        } else if code == 302 {
            Some(Status::MovedTemporarily)
        } else if code == 303 {
            Some(Status::SeeOther)
        } else if code == 305 {
            Some(Status::UseProxy)
        } else if code == 400 {
            Some(Status::BadRequest)
        } else if code == 401 {
            Some(Status::Unauthorized)
        } else if code == 402 {
            Some(Status::PaymentRequired)
        } else if code == 403 {
            Some(Status::Forbidden)
        } else if code == 404 {
            Some(Status::NotFound)
        } else if code == 405 {
            Some(Status::MethodNotAllowed)
        } else if code == 406 {
            Some(Status::NotAcceptable)
        } else if code == 407 {
            Some(Status::ProxyAuthenticationRequired)
        } else if code == 408 {
            Some(Status::RequestTimeout)
        } else if code == 410 {
            Some(Status::Gone)
        } else if code == 411 {
            Some(Status::LengthRequired)
        } else if code == 412 {
            Some(Status::PreconditionFailed)
        } else if code == 413 {
            Some(Status::RequestEntityTooLarge)
        } else if code == 414 {
            Some(Status::RequestUriTooLong)
        } else if code == 415 {
            Some(Status::UnsupportedMediaType)
        } else if code == 451 {
            Some(Status::InvalidParameter)
        } else if code == 452 {
            Some(Status::IllegalConferenceIdentifier)
        } else if code == 453 {
            Some(Status::NotEnoughBandwidth)
        } else if code == 454 {
            Some(Status::SessionNotFound)
        } else if code == 455 {
            Some(Status::MethodNotValidInThisState)
        } else if code == 456 {
            Some(Status::HeaderFieldNotValid)
        } else if code == 457 {
            Some(Status::InvalidRange)
        } else if code == 458 {
            Some(Status::ParameterIsReadOnly)
        } else if code == 459 {
            Some(Status::AggregateOperationNotAllowed)
        } else if code == 460 {
            Some(Status::OnlyAggregateOperationAllowed)
        } else if code == 461 {
            Some(Status::UnsupportedTransport)
        } else if code == 462 {
            Some(Status::DestinationUnreachable)
        } else if code == 500 {
            Some(Status::InternalServerError)
        } else if code == 501 {
            Some(Status::NotImplemented)
        } else if code == 502 {
            Some(Status::BadGateway)
        } else if code == 503 {
            Some(Status::ServiceUnavailable)
        } else if code == 504 {
            Some(Status::GatewayTimeout)
        } else if code == 505 {
            Some(Status::RTSPVersionNotSupported)
        } else if code == 551 {
            Some(Status::OptionNotSupported)
        } else {
            None
        }
    }

    /// The reason phrase that goes with the status.
    pub open spec fn reason(self) -> Seq<char> {
        match self {
            Status::Continue => "Continue"@,
            Status::Okay => "OK"@,
            Status::Created => "Created"@,
            Status::LowonStorageSpace => "Low on Storage Space"@,
            Status::MultipleChoices => "Multiple Choices"@,
            Status::MovedPermanently => "Moved Permanently"@,
            Status::MovedTemporarily => "Moved Temporarily"@,
            Status::SeeOther => "See Other"@,
            Status::UseProxy => "Use Proxy"@,
            Status::BadRequest => "Bad Request"@,
            Status::Unauthorized => "Unauthorized"@,
            Status::PaymentRequired => "Payment Required"@,
            Status::Forbidden => "Forbidden"@,
            Status::NotFound => "Not Found"@,
            Status::MethodNotAllowed => "Method Not Allowed"@,
            Status::NotAcceptable => "Not Acceptable"@,
            Status::ProxyAuthenticationRequired => "Proxy Authentication Required"@,
            Status::RequestTimeout => "Request Timeout"@,
            Status::Gone => "Gone"@,
            Status::LengthRequired => "Length Required"@,
            Status::PreconditionFailed => "Precondition Failed"@,
            Status::RequestEntityTooLarge => "Request Entity Too Large"@,
            Status::RequestUriTooLong => "Request-URI Too Long"@,
            Status::UnsupportedMediaType => "Unsupported Media Type"@,
            Status::InvalidParameter => "Invalid parameter"@,
            Status::IllegalConferenceIdentifier => "Illegal Conference Identifier"@,
            Status::NotEnoughBandwidth => "Not Enough Bandwidth"@,
            Status::SessionNotFound => "Session Not Found"@,
            Status::MethodNotValidInThisState => "Method Not Valid In This State"@,
            Status::HeaderFieldNotValid => "Header Field Not Valid"@,
            Status::InvalidRange => "Invalid Range"@,
            Status::ParameterIsReadOnly => "Parameter Is Read-Only"@,
            Status::AggregateOperationNotAllowed => "Aggregate Operation Not Allowed"@,
            Status::OnlyAggregateOperationAllowed => "Only Aggregate Operation Allowed"@,
            Status::UnsupportedTransport => "Unsupported Transport"@,
            Status::DestinationUnreachable => "Destination Unreachable"@,
            Status::InternalServerError => "Internal Server Error"@,
            Status::NotImplemented => "Not Implemented"@,
            Status::BadGateway => "Bad Gateway"@,
            Status::ServiceUnavailable => "Service Unavailable"@,
            Status::GatewayTimeout => "Gateway Timeout"@,
            Status::RTSPVersionNotSupported => "RTSP Version Not Supported"@,
            Status::OptionNotSupported => "Option Not Supported"@,
        }
    }

    /// The status as text: its number, a space, and its reason phrase.
    pub open spec fn text(self) -> Seq<u8> {
        decimal(self.code() as nat) + seq![SPACE] + status_to_reason_text(self)
    }

    /// The status as text.
    pub fn to_bytes(&self) -> (r: Vec<u8>)
        ensures
            r@ == self.text(),
    {
        let mut out = decimal_bytes(status_to_code(*self) as u64);
        out.push(SPACE);
        push_all(&mut out, status_to_reason(*self).as_bytes());
        assert(out@ =~= self.text());
        out
    }
}

/// The bytes of the reason phrase that goes with `status`.
pub open spec fn status_to_reason_text(status: Status) -> Seq<u8> {
    match status {
        Status::Continue => lit("Continue"),
        Status::Okay => lit("OK"),
        Status::Created => lit("Created"),
        Status::LowonStorageSpace => lit("Low on Storage Space"),
        Status::MultipleChoices => lit("Multiple Choices"),
        Status::MovedPermanently => lit("Moved Permanently"),
        Status::MovedTemporarily => lit("Moved Temporarily"),
        Status::SeeOther => lit("See Other"),
        Status::UseProxy => lit("Use Proxy"),
        Status::BadRequest => lit("Bad Request"),
        Status::Unauthorized => lit("Unauthorized"),
        Status::PaymentRequired => lit("Payment Required"),
        Status::Forbidden => lit("Forbidden"),
        Status::NotFound => lit("Not Found"),
        Status::MethodNotAllowed => lit("Method Not Allowed"),
        Status::NotAcceptable => lit("Not Acceptable"),
        Status::ProxyAuthenticationRequired => lit("Proxy Authentication Required"),
        Status::RequestTimeout => lit("Request Timeout"),
        Status::Gone => lit("Gone"),
        Status::LengthRequired => lit("Length Required"),
        Status::PreconditionFailed => lit("Precondition Failed"),
        Status::RequestEntityTooLarge => lit("Request Entity Too Large"),
        Status::RequestUriTooLong => lit("Request-URI Too Long"),
        Status::UnsupportedMediaType => lit("Unsupported Media Type"),
        Status::InvalidParameter => lit("Invalid parameter"),
        Status::IllegalConferenceIdentifier => lit("Illegal Conference Identifier"),
        Status::NotEnoughBandwidth => lit("Not Enough Bandwidth"),
        Status::SessionNotFound => lit("Session Not Found"),
        Status::MethodNotValidInThisState => lit("Method Not Valid In This State"),
        Status::HeaderFieldNotValid => lit("Header Field Not Valid"),
        Status::InvalidRange => lit("Invalid Range"),
        Status::ParameterIsReadOnly => lit("Parameter Is Read-Only"),
        Status::AggregateOperationNotAllowed => lit("Aggregate Operation Not Allowed"),
        Status::OnlyAggregateOperationAllowed => lit("Only Aggregate Operation Allowed"),
        Status::UnsupportedTransport => lit("Unsupported Transport"),
        Status::DestinationUnreachable => lit("Destination Unreachable"),
        Status::InternalServerError => lit("Internal Server Error"),
        Status::NotImplemented => lit("Not Implemented"),
        Status::BadGateway => lit("Bad Gateway"),
        Status::ServiceUnavailable => lit("Service Unavailable"),
        Status::GatewayTimeout => lit("Gateway Timeout"),
        Status::RTSPVersionNotSupported => lit("RTSP Version Not Supported"),
        Status::OptionNotSupported => lit("Option Not Supported"),
    }
}

pub fn status_to_code(status: Status) -> (code: StatusCode)
    ensures
        code == status.code(),
{
    match status {
        Status::Continue => 100,
        Status::Okay => 200,
        Status::Created => 201,
        Status::LowonStorageSpace => 250,
        Status::MultipleChoices => 300,
        Status::MovedPermanently => 301,
        Status::MovedTemporarily => 302,
        Status::SeeOther => 303,
        Status::UseProxy => 305,
        Status::BadRequest => 400,
        Status::Unauthorized => 401,
        Status::PaymentRequired => 402,
        Status::Forbidden => 403,
        Status::NotFound => 404,
        Status::MethodNotAllowed => 405,
        Status::NotAcceptable => 406,
        Status::ProxyAuthenticationRequired => 407,
        Status::RequestTimeout => 408,
        Status::Gone => 410,
        Status::LengthRequired => 411,
        Status::PreconditionFailed => 412,
        Status::RequestEntityTooLarge => 413,
        Status::RequestUriTooLong => 414,
        Status::UnsupportedMediaType => 415,
        Status::InvalidParameter => 451,
        Status::IllegalConferenceIdentifier => 452,
        Status::NotEnoughBandwidth => 453,
        Status::SessionNotFound => 454,
        Status::MethodNotValidInThisState => 455,
        Status::HeaderFieldNotValid => 456,
        Status::InvalidRange => 457,
        Status::ParameterIsReadOnly => 458,
        Status::AggregateOperationNotAllowed => 459,
        Status::OnlyAggregateOperationAllowed => 460,
        Status::UnsupportedTransport => 461,
        Status::DestinationUnreachable => 462,
        Status::InternalServerError => 500,
        Status::NotImplemented => 501,
        Status::BadGateway => 502,
        Status::ServiceUnavailable => 503,
        Status::GatewayTimeout => 504,
        Status::RTSPVersionNotSupported => 505,
        Status::OptionNotSupported => 551,
    }
}

pub fn status_from_code(code: StatusCode) -> (status: Option<Status>)
    ensures
        status == Status::of_code(code),
{
    match code {
        100 => Some(Status::Continue),
        200 => Some(Status::Okay),
        201 => Some(Status::Created),
        250 => Some(Status::LowonStorageSpace),
        300 => Some(Status::MultipleChoices),
        301 => Some(Status::MovedPermanently),
        302 => Some(Status::MovedTemporarily),
        303 => Some(Status::SeeOther),
        305 => Some(Status::UseProxy),
        400 => Some(Status::BadRequest),
        401 => Some(Status::Unauthorized),
        402 => Some(Status::PaymentRequired),
        403 => Some(Status::Forbidden),
        404 => Some(Status::NotFound),
        405 => Some(Status::MethodNotAllowed),
        406 => Some(Status::NotAcceptable),
        407 => Some(Status::ProxyAuthenticationRequired),
        408 => Some(Status::RequestTimeout),
        410 => Some(Status::Gone),
        411 => Some(Status::LengthRequired),
        412 => Some(Status::PreconditionFailed),
        413 => Some(Status::RequestEntityTooLarge),
        414 => Some(Status::RequestUriTooLong),
        415 => Some(Status::UnsupportedMediaType),
        451 => Some(Status::InvalidParameter),
        452 => Some(Status::IllegalConferenceIdentifier),
        453 => Some(Status::NotEnoughBandwidth),
        454 => Some(Status::SessionNotFound),
        455 => Some(Status::MethodNotValidInThisState),
        456 => Some(Status::HeaderFieldNotValid),
        457 => Some(Status::InvalidRange),
        458 => Some(Status::ParameterIsReadOnly),
        459 => Some(Status::AggregateOperationNotAllowed),
        460 => Some(Status::OnlyAggregateOperationAllowed),
        461 => Some(Status::UnsupportedTransport),
        462 => Some(Status::DestinationUnreachable),
        500 => Some(Status::InternalServerError),
        501 => Some(Status::NotImplemented),
        502 => Some(Status::BadGateway),
        503 => Some(Status::ServiceUnavailable),
        504 => Some(Status::GatewayTimeout),
        505 => Some(Status::RTSPVersionNotSupported),
        551 => Some(Status::OptionNotSupported),
        _ => None,
    }
}

pub fn status_to_reason(status: Status) -> (reason: &'static str)
    ensures
        reason@ == status.reason(),
        reason.spec_bytes() == status_to_reason_text(status),
{
    match status {
        Status::Continue => "Continue",
        Status::Okay => "OK",
        Status::Created => "Created",
        Status::LowonStorageSpace => "Low on Storage Space",
        Status::MultipleChoices => "Multiple Choices",
        Status::MovedPermanently => "Moved Permanently",
        Status::MovedTemporarily => "Moved Temporarily",
        Status::SeeOther => "See Other",
        Status::UseProxy => "Use Proxy",
        Status::BadRequest => "Bad Request",
        Status::Unauthorized => "Unauthorized",
        Status::PaymentRequired => "Payment Required",
        Status::Forbidden => "Forbidden",
        Status::NotFound => "Not Found",
        Status::MethodNotAllowed => "Method Not Allowed",
        Status::NotAcceptable => "Not Acceptable",
        Status::ProxyAuthenticationRequired => "Proxy Authentication Required",
        Status::RequestTimeout => "Request Timeout",
        Status::Gone => "Gone",
        Status::LengthRequired => "Length Required",
        Status::PreconditionFailed => "Precondition Failed",
        Status::RequestEntityTooLarge => "Request Entity Too Large",
        Status::RequestUriTooLong => "Request-URI Too Long",
        Status::UnsupportedMediaType => "Unsupported Media Type",
        Status::InvalidParameter => "Invalid parameter",
        Status::IllegalConferenceIdentifier => "Illegal Conference Identifier",
        Status::NotEnoughBandwidth => "Not Enough Bandwidth",
        Status::SessionNotFound => "Session Not Found",
        Status::MethodNotValidInThisState => "Method Not Valid In This State",
        Status::HeaderFieldNotValid => "Header Field Not Valid",
        Status::InvalidRange => "Invalid Range",
        Status::ParameterIsReadOnly => "Parameter Is Read-Only",
        Status::AggregateOperationNotAllowed => "Aggregate Operation Not Allowed",
        Status::OnlyAggregateOperationAllowed => "Only Aggregate Operation Allowed",
        Status::UnsupportedTransport => "Unsupported Transport",
        Status::DestinationUnreachable => "Destination Unreachable",
        Status::InternalServerError => "Internal Server Error",
        Status::NotImplemented => "Not Implemented",
        Status::BadGateway => "Bad Gateway",
        Status::ServiceUnavailable => "Service Unavailable",
        Status::GatewayTimeout => "Gateway Timeout",
        Status::RTSPVersionNotSupported => "RTSP Version Not Supported",
        Status::OptionNotSupported => "Option Not Supported",
    }
}

/// Every status that has a name is found again by its number.
pub proof fn law_status_code_round_trip(status: Status)
    ensures
        Status::of_code(status.code()) == Some(status),
{
}

/// RTSP methods.
#[derive(Debug, Clone, Copy, PartialEq, Eq, Structural)]
pub enum Method {
    Describe,
    Announce,
    Setup,
    Play,
    Pause,
    Record,
    Options,
    Redirect,
    Teardown,
    GetParameter,
    SetParameter,
}

impl Method {
    /// The method's name on the wire.
    pub open spec fn text(self) -> Seq<u8> {
        match self {
            Method::Describe => lit("DESCRIBE"),
            Method::Announce => lit("ANNOUNCE"),
            Method::Setup => lit("SETUP"),
            Method::Play => lit("PLAY"),
            Method::Pause => lit("PAUSE"),
            Method::Record => lit("RECORD"),
            Method::Options => lit("OPTIONS"),
            Method::Redirect => lit("REDIRECT"),
            Method::Teardown => lit("TEARDOWN"),
            Method::GetParameter => lit("GET_PARAMETER"),
            Method::SetParameter => lit("SET_PARAMETER"),
        }
    }

    /// The method that `s` names.
    pub open spec fn of_text(s: Seq<u8>) -> Option<Method> {
        if s == lit("DESCRIBE") {
            Some(Method::Describe)
        } else if s == lit("ANNOUNCE") {
            Some(Method::Announce)
        } else if s == lit("SETUP") {
            Some(Method::Setup)
        } else if s == lit("PLAY") {
            Some(Method::Play)
        } else if s == lit("PAUSE") {
            Some(Method::Pause)
        } else if s == lit("RECORD") {
            Some(Method::Record)
        } else if s == lit("OPTIONS") {
            Some(Method::Options)
        } else if s == lit("REDIRECT") {
            Some(Method::Redirect)
        } else if s == lit("TEARDOWN") {
            Some(Method::Teardown)
        } else if s == lit("GET_PARAMETER") {
            Some(Method::GetParameter)
        } else if s == lit("SET_PARAMETER") {
            Some(Method::SetParameter)
        } else {
            None
        }
    }

    /// The method's name on the wire.
    pub fn as_str(&self) -> (r: &'static str)
        ensures
            r.spec_bytes() == self.text(),
    {
        match self {
            Method::Describe => "DESCRIBE",
            Method::Announce => "ANNOUNCE",
            Method::Setup => "SETUP",
            Method::Play => "PLAY",
            Method::Pause => "PAUSE",
            Method::Record => "RECORD",
            Method::Options => "OPTIONS",
            Method::Redirect => "REDIRECT",
            Method::Teardown => "TEARDOWN",
            Method::GetParameter => "GET_PARAMETER",
            Method::SetParameter => "SET_PARAMETER",
        }
    }

    /// The method's name on the wire.
    pub fn to_bytes(&self) -> (r: Vec<u8>)
        ensures
            r@ == self.text(),
    {
        text_of(self.as_str())
    }

    /// Reads a method by its name, which is case-sensitive.
    pub fn from_bytes(s: &[u8]) -> (r: Result<Method, Error>)
        ensures
            match Method::of_text(s@) {
                Some(method) => r matches Ok(m) && m == method,
                None => r matches Err(e) && e@ == (ErrorView::MethodUnknown { method: s@ }),
            },
    {
        if bytes_eq(s, "DESCRIBE".as_bytes()) {
            Ok(Method::Describe)
        } else if bytes_eq(s, "ANNOUNCE".as_bytes()) {
            Ok(Method::Announce)
        } else if bytes_eq(s, "SETUP".as_bytes()) {
            Ok(Method::Setup)
        } else if bytes_eq(s, "PLAY".as_bytes()) {
            Ok(Method::Play)
        } else if bytes_eq(s, "PAUSE".as_bytes()) {
            Ok(Method::Pause)
        } else if bytes_eq(s, "RECORD".as_bytes()) {
            Ok(Method::Record)
        } else if bytes_eq(s, "OPTIONS".as_bytes()) {
            Ok(Method::Options)
        } else if bytes_eq(s, "REDIRECT".as_bytes()) {
            Ok(Method::Redirect)
        } else if bytes_eq(s, "TEARDOWN".as_bytes()) {
            Ok(Method::Teardown)
        } else if bytes_eq(s, "GET_PARAMETER".as_bytes()) {
            Ok(Method::GetParameter)
        } else if bytes_eq(s, "SET_PARAMETER".as_bytes()) {
            Ok(Method::SetParameter)
        } else {
            Err(Error::MethodUnknown { method: copy_of(s) })
        }
    }
}

/// The bytes of the names, one by one.
pub proof fn lemma_method_names()
    ensures
        lit("DESCRIBE") == seq![68u8, 69u8, 83u8, 67u8, 82u8, 73u8, 66u8, 69u8],
        lit("ANNOUNCE") == seq![65u8, 78u8, 78u8, 79u8, 85u8, 78u8, 67u8, 69u8],
        lit("SETUP") == seq![83u8, 69u8, 84u8, 85u8, 80u8],
        lit("PLAY") == seq![80u8, 76u8, 65u8, 89u8],
        lit("PAUSE") == seq![80u8, 65u8, 85u8, 83u8, 69u8],
        lit("RECORD") == seq![82u8, 69u8, 67u8, 79u8, 82u8, 68u8],
        lit("OPTIONS") == seq![79u8, 80u8, 84u8, 73u8, 79u8, 78u8, 83u8],
        lit("REDIRECT") == seq![82u8, 69u8, 68u8, 73u8, 82u8, 69u8, 67u8, 84u8],
        lit("TEARDOWN") == seq![84u8, 69u8, 65u8, 82u8, 68u8, 79u8, 87u8, 78u8],
        lit("GET_PARAMETER") == seq![71u8, 69u8, 84u8, 95u8, 80u8, 65u8, 82u8, 65u8, 77u8, 69u8, 84u8, 69u8, 82u8],
        lit("SET_PARAMETER") == seq![83u8, 69u8, 84u8, 95u8, 80u8, 65u8, 82u8, 65u8, 77u8, 69u8, 84u8, 69u8, 82u8],
{
    broadcast use is_ascii_spec_bytes;

    reveal_strlit("DESCRIBE");
    assert(is_ascii("DESCRIBE"));
    assert(lit("DESCRIBE") =~= seq![68u8, 69u8, 83u8, 67u8, 82u8, 73u8, 66u8, 69u8]);
    reveal_strlit("ANNOUNCE");
    assert(is_ascii("ANNOUNCE"));
    assert(lit("ANNOUNCE") =~= seq![65u8, 78u8, 78u8, 79u8, 85u8, 78u8, 67u8, 69u8]);
    reveal_strlit("SETUP");
    assert(is_ascii("SETUP"));
    assert(lit("SETUP") =~= seq![83u8, 69u8, 84u8, 85u8, 80u8]);
    reveal_strlit("PLAY");
    assert(is_ascii("PLAY"));
    assert(lit("PLAY") =~= seq![80u8, 76u8, 65u8, 89u8]);
    reveal_strlit("PAUSE");
    assert(is_ascii("PAUSE"));
    assert(lit("PAUSE") =~= seq![80u8, 65u8, 85u8, 83u8, 69u8]);
    reveal_strlit("RECORD");
    assert(is_ascii("RECORD"));
    assert(lit("RECORD") =~= seq![82u8, 69u8, 67u8, 79u8, 82u8, 68u8]);
    reveal_strlit("OPTIONS");
    assert(is_ascii("OPTIONS"));
    assert(lit("OPTIONS") =~= seq![79u8, 80u8, 84u8, 73u8, 79u8, 78u8, 83u8]);
    reveal_strlit("REDIRECT");
    assert(is_ascii("REDIRECT"));
    assert(lit("REDIRECT") =~= seq![82u8, 69u8, 68u8, 73u8, 82u8, 69u8, 67u8, 84u8]);
    reveal_strlit("TEARDOWN");
    assert(is_ascii("TEARDOWN"));
    assert(lit("TEARDOWN") =~= seq![84u8, 69u8, 65u8, 82u8, 68u8, 79u8, 87u8, 78u8]);
    reveal_strlit("GET_PARAMETER");
    assert(is_ascii("GET_PARAMETER"));
    assert(lit("GET_PARAMETER") =~= seq![71u8, 69u8, 84u8, 95u8, 80u8, 65u8, 82u8, 65u8, 77u8, 69u8, 84u8, 69u8, 82u8]);
    reveal_strlit("SET_PARAMETER");
    assert(is_ascii("SET_PARAMETER"));
    assert(lit("SET_PARAMETER") =~= seq![83u8, 69u8, 84u8, 95u8, 80u8, 65u8, 82u8, 65u8, 77u8, 69u8, 84u8, 69u8, 82u8]);
}

/// Every method is found again by its name, and no name holds a space or a line end.
pub proof fn lemma_method_round_trip(method: Method)
    ensures
        Method::of_text(method.text()) == Some(method),
        forall|i: int|
            0 <= i < method.text().len() ==> (#[trigger] method.text()[i]) != SPACE
                && method.text()[i] != CR && method.text()[i] != LF,
        method.text().len() > 0,
        !is_space(method.text()[0]),
{
    lemma_method_names();
}

/// The bytes of the header names that the library itself writes and reads.
pub proof fn lemma_header_names()
    ensures
        lit("CSeq") == seq![67u8, 83u8, 101u8, 113u8],
        lit("Session") == seq![83u8, 101u8, 115u8, 115u8, 105u8, 111u8, 110u8],
{
    broadcast use is_ascii_spec_bytes;

    reveal_strlit("CSeq");
    assert(is_ascii("CSeq"));
    assert(lit("CSeq") =~= seq![67u8, 83u8, 101u8, 113u8]);
    reveal_strlit("Session");
    assert(is_ascii("Session"));
    assert(lit("Session") =~= seq![83u8, 101u8, 115u8, 115u8, 105u8, 111u8, 110u8]);
}

} // verus!
