//! A request as the encoder sees it.

use crate::headers::{HeaderView, Headers};
use crate::method::Method;
use crate::url::{Url, UrlView};
use vstd::prelude::*;

verus! {

/// A request to encode. `B` is the stream of its body, which the encoder hands
/// on and never reads.
#[derive(Debug)]
pub struct Request<B> {
    pub method: Method,
    pub url: Url,
    pub headers: Headers,
    /// The length of the body, where it is known before the body is read.
    pub len: Option<usize>,
    /// The body, until it is taken.
    pub body: Option<B>,
}

/// What a [`Request`] holds.
pub struct RequestView<B> {
    pub method: Method,
    pub url: UrlView,
    pub headers: Seq<HeaderView>,
    pub len: Option<usize>,
    pub body: Option<B>,
}

impl<B> View for Request<B> {
    type V = RequestView<B>;

    open spec fn view(&self) -> RequestView<B> {
        RequestView {
            method: self.method,
            url: self.url@,
            headers: self.headers@,
            len: self.len,
            body: self.body,
        }
    }
}

impl<B> Request<B> {
    /// Takes the body out of the request, which is left without one.
    pub fn take_body(&mut self) -> (body: Option<B>)
        ensures
            body == old(self).body,
            final(self)@ == (RequestView { body: None, ..old(self)@ }),
    {
        self.body.take()
    }
}

} // verus!
