//! The head of a request: the request line, the headers and the empty line
//! that ends them.

use crate::error::HeadError;
use crate::headers::{has_header, with_header, without_header, Header, HeaderView};
use crate::method::Method;
use crate::order::{host_name, views, wire_order};
use crate::request::RequestView;
use crate::text::{decimal, push_all};
use crate::url::UrlView;
use vstd::prelude::*;
use vstd::string::*;

verus! {

pub open spec fn proxy_connection_name() -> Seq<u8> {
    "proxy-connection".spec_bytes()
}

pub open spec fn keep_alive() -> Seq<u8> {
    "keep-alive".spec_bytes()
}

pub open spec fn content_length_name() -> Seq<u8> {
    "content-length".spec_bytes()
}

pub open spec fn transfer_encoding_name() -> Seq<u8> {
    "transfer-encoding".spec_bytes()
}

pub open spec fn chunked() -> Seq<u8> {
    "chunked".spec_bytes()
}

/// The end of a line.
pub open spec fn crlf() -> Seq<u8> {
    "\r\n".spec_bytes()
}

/// The headers with a `host` header among them: the one that is there, or
/// else one made from the URL, which then has to name a host.
pub open spec fn with_host(h: Seq<HeaderView>, url: UrlView) -> Result<Seq<HeaderView>, HeadError> {
    if has_header(h, host_name()) {
        Ok(h)
    } else {
        match url.host_value() {
            Some(value) => Ok(with_header(h, host_name(), value)),
            None => Err(HeadError::MissingHostname),
        }
    }
}

/// The headers of a CONNECT request ask the proxy to keep the connection;
/// those of another request stay as they are.
pub open spec fn with_proxy_connection(h: Seq<HeaderView>, method: Method) -> Seq<HeaderView> {
    if method == Method::Connect {
        with_header(h, proxy_connection_name(), keep_alive())
    } else {
        h
    }
}

/// The headers with word of how the body is framed, and that one word only:
/// where the length is known, no `transfer-encoding` and the length under
/// `content-length`; where it is not, no `content-length` and `chunked`
/// under `transfer-encoding`.
pub open spec fn with_framing(h: Seq<HeaderView>, len: Option<usize>) -> Seq<HeaderView> {
    match len {
        Some(n) => with_header(
            without_header(h, transfer_encoding_name()),
            content_length_name(),
            decimal(n as nat),
        ),
        None => with_header(
            without_header(h, content_length_name()),
            transfer_encoding_name(),
            chunked(),
        ),
    }
}

/// The headers that a request goes out with.
pub open spec fn finalized<B>(req: RequestView<B>) -> Result<Seq<HeaderView>, HeadError> {
    match with_host(req.headers, req.url) {
        Ok(h) => Ok(with_framing(with_proxy_connection(h, req.method), req.len)),
        Err(e) => Err(e),
    }
}

/// The target of the request line: the authority form for CONNECT, the origin
/// form for every other method.
pub open spec fn target(method: Method, url: UrlView) -> Result<Seq<u8>, HeadError> {
    if method == Method::Connect {
        url.authority_form()
    } else {
        Ok(url.origin_form())
    }
}

/// The request line: method, target and protocol version, a space between
/// them, and the end of the line.
pub open spec fn request_line(method: Method, target: Seq<u8>) -> Seq<u8> {
    method.token() + " ".spec_bytes() + target + " HTTP/1.1\r\n".spec_bytes()
}

/// One header line: `name: value` and the end of the line.
pub open spec fn header_line(name: Seq<u8>, value: Seq<u8>) -> Seq<u8> {
    name + ": ".spec_bytes() + value + crlf()
}

/// The lines of one header, a line for each value in the order of the values.
pub open spec fn header_lines(name: Seq<u8>, values: Seq<Seq<u8>>) -> Seq<u8>
    decreases values.len(),
{
    if values.len() == 0 {
        Seq::empty()
    } else {
        header_lines(name, values.drop_last()) + header_line(name, values.last())
    }
}

/// The lines of the headers, in the order of the list.
pub open spec fn header_block(h: Seq<HeaderView>) -> Seq<u8>
    decreases h.len(),
{
    if h.len() == 0 {
        Seq::empty()
    } else {
        header_block(h.drop_last()) + header_lines(h.last().name, h.last().values)
    }
}

/// The head of a request, or why it has none. The target is looked at before
/// the headers, so a CONNECT request without a host fails on that account.
pub open spec fn head<B>(req: RequestView<B>) -> Result<Seq<u8>, HeadError> {
    match target(req.method, req.url) {
        Err(e) => Err(e),
        Ok(t) => match finalized(req) {
            Err(e) => Err(e),
            Ok(h) => Ok(request_line(req.method, t) + header_block(wire_order(h)) + crlf()),
        },
    }
}

/// Appends the lines of `header` to `out`.
pub fn write_header_lines(out: &mut Vec<u8>, header: &Header)
    ensures
        final(out)@ == old(out)@ + header_lines(header@.name, header@.values),
{
    let n: usize = header.values.len();
    let mut i: usize = 0;
    assert(header@.values.take(0) =~= Seq::<Seq<u8>>::empty());
    assert(out@ =~= old(out)@ + Seq::<u8>::empty());
    while i < n
        invariant
            i <= n,
            n == header.values@.len(),
            out@ == old(out)@ + header_lines(header@.name, header@.values.take(i as int)),
        decreases n - i,
    {
        let ghost before = out@;
        push_all(out, header.name.as_slice());
        push_all(out, ": ".as_bytes());
        push_all(out, header.values[i].as_slice());
        push_all(out, "\r\n".as_bytes());
        proof {
            let values = header@.values;
            assert(values.take(i + 1).drop_last() =~= values.take(i as int));
            assert(values.take(i + 1).last() == header.values@[i as int]@);
            assert(out@ =~= before + header_line(header@.name, header.values@[i as int]@));
            assert(out@ =~= old(out)@ + header_lines(header@.name, values.take(i + 1)));
        }
        i += 1;
    }
    assert(header@.values.take(n as int) =~= header@.values);
}

/// Appends the lines of the headers to `out`, in the order of the list.
pub fn write_header_block(out: &mut Vec<u8>, headers: &Vec<&Header>)
    ensures
        final(out)@ == old(out)@ + header_block(views(headers@)),
{
    let n: usize = headers.len();
    let mut i: usize = 0;
    assert(views(headers@).take(0) =~= Seq::<HeaderView>::empty());
    assert(out@ =~= old(out)@ + Seq::<u8>::empty());
    while i < n
        invariant
            i <= n,
            n == headers@.len(),
            out@ == old(out)@ + header_block(views(headers@).take(i as int)),
        decreases n - i,
    {
        write_header_lines(out, headers[i]);
        proof {
            let all = views(headers@);
            assert(all.take(i + 1).drop_last() =~= all.take(i as int));
            assert(all.take(i + 1).last() == headers@[i as int]@);
            assert(out@ =~= old(out)@ + header_block(all.take(i + 1)));
        }
        i += 1;
    }
    assert(views(headers@).take(n as int) =~= views(headers@));
}

} // verus!
