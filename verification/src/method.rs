//! Request methods.

use vstd::prelude::*;
use vstd::string::*;

verus! {

/// The request methods of the IANA registry.
#[derive(Clone, Copy, Debug, PartialEq, Eq, Structural, Hash)]
pub enum Method {
    Acl,
    BaselineControl,
    Bind,
    Checkin,
    Checkout,
    Connect,
    Copy,
    Delete,
    Get,
    Head,
    Label,
    Link,
    Lock,
    Merge,
    MkActivity,
    MkCalendar,
    MkCol,
    MkRedirectRef,
    MkWorkspace,
    Move,
    Options,
    OrderPatch,
    Patch,
    Post,
    Pri,
    PropFind,
    PropPatch,
    Put,
    Rebind,
    Report,
    Search,
    Trace,
    Unbind,
    Uncheckout,
    Unlink,
    Unlock,
    Update,
    UpdateRedirectRef,
    VersionControl,
}

impl Method {
    /// The method's name as it is written in a request line.
    pub open spec fn name(self) -> &'static str {
        match self {
            Method::Acl => "ACL",
            Method::BaselineControl => "BASELINE-CONTROL",
            Method::Bind => "BIND",
            Method::Checkin => "CHECKIN",
            Method::Checkout => "CHECKOUT",
            Method::Connect => "CONNECT",
            Method::Copy => "COPY",
            Method::Delete => "DELETE",
            Method::Get => "GET",
            Method::Head => "HEAD",
            Method::Label => "LABEL",
            Method::Link => "LINK",
            Method::Lock => "LOCK",
            Method::Merge => "MERGE",
            Method::MkActivity => "MKACTIVITY",
            Method::MkCalendar => "MKCALENDAR",
            Method::MkCol => "MKCOL",
            Method::MkRedirectRef => "MKREDIRECTREF",
            Method::MkWorkspace => "MKWORKSPACE",
            Method::Move => "MOVE",
            Method::Options => "OPTIONS",
            Method::OrderPatch => "ORDERPATCH",
            Method::Patch => "PATCH",
            Method::Post => "POST",
            Method::Pri => "PRI",
            Method::PropFind => "PROPFIND",
            Method::PropPatch => "PROPPATCH",
            Method::Put => "PUT",
            Method::Rebind => "REBIND",
            Method::Report => "REPORT",
            Method::Search => "SEARCH",
            Method::Trace => "TRACE",
            Method::Unbind => "UNBIND",
            Method::Uncheckout => "UNCHECKOUT",
            Method::Unlink => "UNLINK",
            Method::Unlock => "UNLOCK",
            Method::Update => "UPDATE",
            Method::UpdateRedirectRef => "UPDATEREDIRECTREF",
            Method::VersionControl => "VERSION-CONTROL",
        }
    }

    /// The bytes of the method's name.
    pub open spec fn token(self) -> Seq<u8> {
        self.name().spec_bytes()
    }

    /// The method's name as it is written in a request line.
    pub fn as_str(self) -> (r: &'static str)
        ensures
            r@ == self.name()@,
            r.spec_bytes() == self.token(),
    {
        match self {
            Method::Acl => "ACL",
            Method::BaselineControl => "BASELINE-CONTROL",
            Method::Bind => "BIND",
            Method::Checkin => "CHECKIN",
            Method::Checkout => "CHECKOUT",
            Method::Connect => "CONNECT",
            Method::Copy => "COPY",
            Method::Delete => "DELETE",
            Method::Get => "GET",
            Method::Head => "HEAD",
            Method::Label => "LABEL",
            Method::Link => "LINK",
            Method::Lock => "LOCK",
            Method::Merge => "MERGE",
            Method::MkActivity => "MKACTIVITY",
            Method::MkCalendar => "MKCALENDAR",
            Method::MkCol => "MKCOL",
            Method::MkRedirectRef => "MKREDIRECTREF",
            Method::MkWorkspace => "MKWORKSPACE",
            Method::Move => "MOVE",
            Method::Options => "OPTIONS",
            Method::OrderPatch => "ORDERPATCH",
            Method::Patch => "PATCH",
            Method::Post => "POST",
            Method::Pri => "PRI",
            Method::PropFind => "PROPFIND",
            Method::PropPatch => "PROPPATCH",
            Method::Put => "PUT",
            Method::Rebind => "REBIND",
            Method::Report => "REPORT",
            Method::Search => "SEARCH",
            Method::Trace => "TRACE",
            Method::Unbind => "UNBIND",
            Method::Uncheckout => "UNCHECKOUT",
            Method::Unlink => "UNLINK",
            Method::Unlock => "UNLOCK",
            Method::Update => "UPDATE",
            Method::UpdateRedirectRef => "UPDATEREDIRECTREF",
            Method::VersionControl => "VERSION-CONTROL",
        }
    }
}

} // verus!
