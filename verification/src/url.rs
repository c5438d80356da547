//! The parts of a URL that a request line and a `host` header are made of.

use crate::error::HeadError;
use crate::text::{bytes_eq, decimal, push_all, push_decimal};
use vstd::prelude::*;
use vstd::string::*;

verus! {

/// A URL, taken apart. The texts are held as they go on the wire, so a path or
/// a query is already percent-encoded.
#[derive(Debug)]
pub struct Url {
    pub scheme: Vec<u8>,
    pub host: Option<Vec<u8>>,
    /// The port as the URL spells it out, if it does.
    pub port: Option<u16>,
    pub path: Vec<u8>,
    /// The query, without its `?`.
    pub query: Option<Vec<u8>>,
    /// The fragment, without its `#`. It never goes on the wire.
    pub fragment: Option<Vec<u8>>,
}

/// What a [`Url`] holds.
pub struct UrlView {
    pub scheme: Seq<u8>,
    pub host: Option<Seq<u8>>,
    pub port: Option<u16>,
    pub path: Seq<u8>,
    pub query: Option<Seq<u8>>,
    pub fragment: Option<Seq<u8>>,
}

/// What an optional text holds.
pub open spec fn text_view(t: Option<Vec<u8>>) -> Option<Seq<u8>> {
    match t {
        Some(v) => Some(v@),
        None => None,
    }
}

impl View for Url {
    type V = UrlView;

    open spec fn view(&self) -> UrlView {
        UrlView {
            scheme: self.scheme@,
            host: text_view(self.host),
            port: self.port,
            path: self.path@,
            query: text_view(self.query),
            fragment: text_view(self.fragment),
        }
    }
}

/// The port that a scheme implies: 80 for `http` and `ws`, 443 for `https` and
/// `wss`, 21 for `ftp`, and none for any other scheme.
pub open spec fn default_port(scheme: Seq<u8>) -> Option<u16> {
    if scheme == "http".spec_bytes() || scheme == "ws".spec_bytes() {
        Some(80u16)
    } else if scheme == "https".spec_bytes() || scheme == "wss".spec_bytes() {
        Some(443u16)
    } else if scheme == "ftp".spec_bytes() {
        Some(21u16)
    } else {
        None
    }
}

impl UrlView {
    /// The port that the URL names, or else the one that its scheme implies.
    pub open spec fn port_or_known_default(self) -> Option<u16> {
        match self.port {
            Some(p) => Some(p),
            None => default_port(self.scheme),
        }
    }

    /// The port that a `host` header has to show: the one that the URL names,
    /// unless the scheme implies it anyway.
    pub open spec fn shown_port(self) -> Option<u16> {
        match self.port {
            Some(p) => if default_port(self.scheme) == Some(p) {
                None
            } else {
                Some(p)
            },
            None => None,
        }
    }

    /// The value of a `host` header for this URL: `host`, or `host:port` where
    /// the port has to be shown. A URL without a host has none.
    pub open spec fn host_value(self) -> Option<Seq<u8>> {
        match self.host {
            Some(h) => match self.shown_port() {
                Some(p) => Some(h + ":".spec_bytes() + decimal(p as nat)),
                None => Some(h),
            },
            None => None,
        }
    }

    /// The authority form of a request target, `host:port`, with the scheme's
    /// port where the URL names none.
    pub open spec fn authority_form(self) -> Result<Seq<u8>, HeadError> {
        match self.host {
            None => Err(HeadError::MissingHostname),
            Some(h) => match self.port_or_known_default() {
                None => Err(HeadError::NoDefaultPort),
                Some(p) => Ok(h + ":".spec_bytes() + decimal(p as nat)),
            },
        }
    }

    /// The origin form of a request target: the path, then `?` and the query
    /// where there is one. The fragment is no part of it.
    pub open spec fn origin_form(self) -> Seq<u8> {
        match self.query {
            Some(q) => self.path + "?".spec_bytes() + q,
            None => self.path,
        }
    }
}

/// The port that `scheme` implies, if it implies one.
pub fn known_default_port(scheme: &[u8]) -> (r: Option<u16>)
    ensures
        r == default_port(scheme@),
{
    if bytes_eq(scheme, "http".as_bytes()) || bytes_eq(scheme, "ws".as_bytes()) {
        Some(80)
    } else if bytes_eq(scheme, "https".as_bytes()) || bytes_eq(scheme, "wss".as_bytes()) {
        Some(443)
    } else if bytes_eq(scheme, "ftp".as_bytes()) {
        Some(21)
    } else {
        None
    }
}

impl Url {
    /// The port that the URL names, or else the one that its scheme implies.
    pub fn port_or_known_default(&self) -> (r: Option<u16>)
        ensures
            r == self@.port_or_known_default(),
    {
        match self.port {
            Some(p) => Some(p),
            None => known_default_port(self.scheme.as_slice()),
        }
    }

    /// The value of a `host` header for this URL, if the URL has a host.
    pub fn host_value(&self) -> (r: Option<Vec<u8>>)
        ensures
            text_view(r) == self@.host_value(),
    {
        match &self.host {
            None => None,
            Some(h) => {
                let mut value: Vec<u8> = Vec::new();
                push_all(&mut value, h.as_slice());
                match self.port {
                    Some(p) => {
                        if known_default_port(self.scheme.as_slice()) != Some(p) {
                            push_all(&mut value, ":".as_bytes());
                            push_decimal(&mut value, p as usize);
                        }
                    },
                    None => {},
                }
                Some(value)
            },
        }
    }

    /// Appends the authority form of the request target to `out`, or fails and
    /// leaves `out` as it was.
    pub fn write_authority_form(&self, out: &mut Vec<u8>) -> (r: Result<(), HeadError>)
        ensures
            match self@.authority_form() {
                Ok(t) => r is Ok && final(out)@ == old(out)@ + t,
                Err(e) => r == Err::<(), HeadError>(e) && final(out)@ == old(out)@,
            },
    {
        match &self.host {
            None => Err(HeadError::MissingHostname),
            Some(h) => match self.port_or_known_default() {
                None => Err(HeadError::NoDefaultPort),
                Some(p) => {
                    push_all(out, h.as_slice());
                    push_all(out, ":".as_bytes());
                    push_decimal(out, p as usize);
                    assert(out@ =~= old(out)@ + (h@ + ":".spec_bytes() + decimal(p as nat)));
                    Ok(())
                },
            },
        }
    }

    /// Appends the origin form of the request target to `out`.
    pub fn write_origin_form(&self, out: &mut Vec<u8>)
        ensures
            final(out)@ == old(out)@ + self@.origin_form(),
    {
        push_all(out, self.path.as_slice());
        match &self.query {
            Some(q) => {
                push_all(out, "?".as_bytes());
                push_all(out, q.as_slice());
                assert(out@ =~= old(out)@ + (self.path@ + "?".spec_bytes() + q@));
            },
            None => {},
        }
    }
}

} // verus!
