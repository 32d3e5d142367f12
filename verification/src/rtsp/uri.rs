//! Request targets.
//!
//! A URI is parsed by the `http` crate. The library keeps the components that its own logic
//! reads, as plain bytes, and puts the text of a URI together from them.

use crate::text::{copy_of, copy_of_option, lit, option_view, push_all, text_of};
use vstd::prelude::*;

verus! {

/// A URI, by its components.
#[derive(Debug, Clone, PartialEq, Eq)]
pub struct Uri {
    scheme: Option<Vec<u8>>,
    authority: Option<Vec<u8>>,
    host: Option<Vec<u8>>,
    port: Option<u16>,
    path: Vec<u8>,
    query: Option<Vec<u8>>,
}

pub struct UriView {
    pub scheme: Option<Seq<u8>>,
    pub authority: Option<Seq<u8>>,
    pub host: Option<Seq<u8>>,
    pub port: Option<u16>,
    pub path: Seq<u8>,
    pub query: Option<Seq<u8>>,
}

impl View for Uri {
    type V = UriView;

    closed spec fn view(&self) -> UriView {
        UriView {
            scheme: option_view(self.scheme),
            authority: option_view(self.authority),
            host: option_view(self.host),
            port: self.port,
            path: self.path@,
            query: option_view(self.query),
        }
    }
}

/// What the `http` crate makes of `text` as a URI: its components, or nothing when `text`
/// is no URI.
pub uninterp spec fn http_uri(text: Seq<u8>) -> Option<UriView>;

/// What the `http` crate makes of `text` as the path and query of a URI: the path and the
/// query, or nothing when `text` is neither.
pub uninterp spec fn http_path_and_query(text: Seq<u8>) -> Option<(Seq<u8>, Option<Seq<u8>>)>;

impl UriView {
    /// The text of the URI: the scheme with `://`, the authority, the path, and the query
    /// behind a question mark, each as far as it is there.
    pub open spec fn text(self) -> Seq<u8> {
        (match self.scheme {
            Some(scheme) => scheme + lit("://"),
            None => Seq::<u8>::empty(),
        }) + (match self.authority {
            Some(authority) => authority,
            None => Seq::<u8>::empty(),
        }) + self.path + (match self.query {
            Some(query) => lit("?") + query,
            None => Seq::<u8>::empty(),
        })
    }

    /// Whether the URI may stand as a request target: it has an authority, or it is `*`.
    pub open spec fn is_target(self) -> bool {
        self.authority is Some || self.path == lit("*")
    }

    /// Whether reading the text of the URI gives the URI back.
    pub open spec fn is_canonical(self) -> bool {
        http_uri(self.text()) == Some(self)
    }

    /// The URI with another path and query, as far as one can be put together: a URI with an
    /// authority and no scheme cannot take a path.
    pub open spec fn redirected(self, path: Seq<u8>, query: Option<Seq<u8>>) -> Option<UriView> {
        if self.scheme is None && self.authority is Some {
            None
        } else {
            Some(UriView { path, query, ..self })
        }
    }
}

/// `TryFrom<&[u8]>` for `http::Uri`, with the accessors `scheme_str`, `authority`, `host`,
/// `port_u16`, `path` and `query`: the components of the URI that `text` spells, or nothing
/// when the crate rejects `text`.
#[verifier::external_body]
fn http_uri_parse(text: &[u8]) -> (r: Option<Uri>)
    ensures
        match r {
            Some(uri) => http_uri(text@) == Some(uri@),
            None => http_uri(text@) is None,
        },
{
    let uri = http::Uri::try_from(text).ok()?;
    Some(
        Uri {
            scheme: uri.scheme_str().map(text_of),
            authority: uri.authority().map(|authority| text_of(authority.as_str())),
            host: uri.host().map(text_of),
            port: uri.port_u16(),
            path: text_of(uri.path()),
            query: uri.query().map(text_of),
        },
    )
}

/// `TryFrom<&[u8]>` for `http::uri::PathAndQuery`, with the accessors `path` and `query`:
/// the path and the query that `text` spells, or nothing when the crate rejects `text`.
#[verifier::external_body]
fn http_path_and_query_parse(text: &[u8]) -> (r: Option<(Vec<u8>, Option<Vec<u8>>)>)
    ensures
        match r {
            Some((path, query)) => http_path_and_query(text@) == Some((path@, option_view(query))),
            None => http_path_and_query(text@) is None,
        },
{
    let parsed = http::uri::PathAndQuery::try_from(text).ok()?;
    Some((text_of(parsed.path()), parsed.query().map(text_of)))
}

impl Uri {
    /// Reads a URI.
    pub fn parse(text: &[u8]) -> (r: Option<Uri>)
        ensures
            match r {
                Some(uri) => http_uri(text@) == Some(uri@),
                None => http_uri(text@) is None,
            },
    {
        http_uri_parse(text)
    }

    /// The text of the URI.
    pub fn to_bytes(&self) -> (r: Vec<u8>)
        ensures
            r@ == self@.text(),
    {
        let mut out: Vec<u8> = Vec::new();
        if let Some(scheme) = &self.scheme {
            push_all(&mut out, scheme.as_slice());
            push_all(&mut out, "://".as_bytes());
        }
        if let Some(authority) = &self.authority {
            push_all(&mut out, authority.as_slice());
        }
        push_all(&mut out, self.path.as_slice());
        if let Some(query) = &self.query {
            push_all(&mut out, "?".as_bytes());
            push_all(&mut out, query.as_slice());
        }
        assert(out@ =~= self@.text());
        out
    }

    pub fn scheme(&self) -> (r: Option<&Vec<u8>>)
        ensures
            match r {
                Some(scheme) => self@.scheme == Some(scheme@),
                None => self@.scheme is None,
            },
    {
        self.scheme.as_ref()
    }

    pub fn authority(&self) -> (r: Option<&Vec<u8>>)
        ensures
            match r {
                Some(authority) => self@.authority == Some(authority@),
                None => self@.authority is None,
            },
    {
        self.authority.as_ref()
    }

    pub fn host(&self) -> (r: Option<&Vec<u8>>)
        ensures
            match r {
                Some(host) => self@.host == Some(host@),
                None => self@.host is None,
            },
    {
        self.host.as_ref()
    }

    pub fn port(&self) -> (r: Option<u16>)
        ensures
            r == self@.port,
    {
        self.port
    }

    pub fn path(&self) -> (r: &Vec<u8>)
        ensures
            r@ == self@.path,
    {
        &self.path
    }

    pub fn query(&self) -> (r: Option<&Vec<u8>>)
        ensures
            match r {
                Some(query) => self@.query == Some(query@),
                None => self@.query is None,
            },
    {
        self.query.as_ref()
    }

    /// Whether the URI may stand as a request target.
    pub fn is_target(&self) -> (r: bool)
        ensures
            r == self@.is_target(),
    {
        self.authority.is_some() || crate::text::bytes_eq(self.path.as_slice(), "*".as_bytes())
    }

    /// A copy of the URI.
    pub fn duplicate(&self) -> (r: Uri)
        ensures
            r@ == self@,
    {
        Uri {
            scheme: copy_of_option(&self.scheme),
            authority: copy_of_option(&self.authority),
            host: copy_of_option(&self.host),
            port: self.port,
            path: copy_of(self.path.as_slice()),
            query: copy_of_option(&self.query),
        }
    }

    /// The URI with the path and query that `location` spells, or nothing when `location`
    /// spells none or the URI cannot take a path.
    pub fn redirected_to(&self, location: &[u8]) -> (r: Option<Uri>)
        ensures
            match http_path_and_query(location@) {
                Some((path, query)) => match self@.redirected(path, query) {
                    Some(uri) => r matches Some(u) && u@ == uri,
                    None => r is None,
                },
                None => r is None,
            },
    {
        match http_path_and_query_parse(location) {
            Some((path, query)) => {
                if self.scheme.is_none() && self.authority.is_some() {
                    None
                } else {
                    let copy = self.duplicate();
                    Some(
                        Uri {
                            scheme: copy.scheme,
                            authority: copy.authority,
                            host: copy.host,
                            port: copy.port,
                            path,
                            query,
                        },
                    )
                }
            },
            None => None,
        }
    }
}

} // verus!
