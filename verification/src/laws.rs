//! What holds of every request and of every run of reads.

use crate::cursor::chunk;
use crate::encoder::{body_step, read, BodyRead, EncoderView, Progress, Read, StateView, Step};
use crate::error::{BodyError, HeadError};
use crate::head::{
    chunked, content_length_name, crlf, finalized, head, header_block, header_lines, keep_alive,
    proxy_connection_name, request_line, target, transfer_encoding_name, with_host,
    with_proxy_connection,
};
use crate::headers::{
    has_header, lemma_has_header_permuted, lemma_with_header_keeps,
    lemma_with_header_keeps_entry, lemma_with_header_permuted, lemma_with_header_sets,
    lemma_with_header_well_formed, lemma_without_header_keeps, lemma_without_header_keeps_entry,
    lemma_without_header_permuted, lemma_without_header_removes,
    lemma_without_header_well_formed, position, well_formed, without_header, HeaderView,
};
use crate::method::Method;
use crate::order::{
    host_name, is_host, lemma_host_leads, lemma_host_once, lemma_wire_order_ignores_order,
    lemma_wire_order_permutes, wire_order,
};
use crate::request::RequestView;
use crate::text::{decimal, folded, same_name};
use vstd::prelude::*;
use vstd::string::*;

verus! {

/// The names of the headers that the encoder sets are four different names.
pub proof fn lemma_names_differ()
    ensures
        !same_name(host_name(), proxy_connection_name()),
        !same_name(host_name(), content_length_name()),
        !same_name(host_name(), transfer_encoding_name()),
        !same_name(proxy_connection_name(), content_length_name()),
        !same_name(proxy_connection_name(), transfer_encoding_name()),
        !same_name(content_length_name(), transfer_encoding_name()),
{
    reveal_strlit("host");
    reveal_strlit("proxy-connection");
    reveal_strlit("content-length");
    reveal_strlit("transfer-encoding");
    is_ascii_spec_bytes("host");
    is_ascii_spec_bytes("proxy-connection");
    is_ascii_spec_bytes("content-length");
    is_ascii_spec_bytes("transfer-encoding");
    assert(folded(host_name()).len() == 4);
    assert(folded(proxy_connection_name()).len() == 16);
    assert(folded(content_length_name()).len() == 14);
    assert(folded(transfer_encoding_name()).len() == 17);
}

/// The framing header that goes, the one that is set, and its value.
pub open spec fn framing(len: Option<usize>) -> (Seq<u8>, Seq<u8>, Seq<u8>) {
    match len {
        Some(n) => (transfer_encoding_name(), content_length_name(), decimal(n as nat)),
        None => (content_length_name(), transfer_encoding_name(), chunked()),
    }
}

/// The headers that a request goes out with are well-formed, and a `host`
/// header is among them.
pub proof fn lemma_finalized_well_formed<B>(req: RequestView<B>)
    requires
        well_formed(req.headers),
        finalized(req) is Ok,
    ensures
        well_formed(finalized(req)->Ok_0),
        has_header(finalized(req)->Ok_0, host_name()),
{
    lemma_names_differ();
    let h1 = with_host(req.headers, req.url)->Ok_0;
    if !has_header(req.headers, host_name()) {
        lemma_with_header_well_formed(req.headers, host_name(), req.url.host_value()->Some_0);
    }
    let h2 = with_proxy_connection(h1, req.method);
    if req.method == Method::Connect {
        lemma_with_header_well_formed(h1, proxy_connection_name(), keep_alive());
        lemma_with_header_keeps(h1, proxy_connection_name(), keep_alive(), host_name());
    }
    let (gone, set, value) = framing(req.len);
    let h3 = without_header(h2, gone);
    lemma_without_header_well_formed(h2, gone);
    lemma_without_header_keeps(h2, gone, host_name());
    lemma_with_header_well_formed(h3, set, value);
    lemma_with_header_keeps(h3, set, value, host_name());
}

/// The lines of a list of headers begin with the lines of its first header.
pub proof fn lemma_header_block_front(h: Seq<HeaderView>)
    requires
        h.len() > 0,
    ensures
        header_block(h) == header_lines(h[0].name, h[0].values) + header_block(h.drop_first()),
    decreases h.len(),
{
    if h.len() == 1 {
        assert(h.drop_last() =~= Seq::<HeaderView>::empty());
        assert(h.drop_first() =~= Seq::<HeaderView>::empty());
        assert(header_block(h) =~= header_lines(h[0].name, h[0].values) + header_block(
            h.drop_first(),
        ));
    } else {
        let t = h.drop_last();
        lemma_header_block_front(t);
        assert(t.drop_first() =~= h.drop_first().drop_last());
        assert(h.drop_first().last() == h.last());
        assert(header_block(h) =~= header_lines(h[0].name, h[0].values) + header_block(
            h.drop_first(),
        ));
    }
}

/// The `host` header that leads the head: the one that the request came
/// with, or else the one made from the URL.
pub open spec fn leading_host<B>(req: RequestView<B>) -> HeaderView {
    if has_header(req.headers, host_name()) {
        req.headers[position(req.headers, host_name())]
    } else {
        HeaderView { name: host_name(), values: seq![req.url.host_value()->Some_0] }
    }
}

/// Whatever headers a request came with and in whatever order, the head
/// holds one `host` header, and its lines are the first after the request
/// line. It is the header that the request came with, name and values as
/// they were, so one value gives one line; where the request came without
/// one, it is the one line `host: ` and what the URL gives.
pub proof fn lemma_host_first_and_once<B>(req: RequestView<B>)
    requires
        well_formed(req.headers),
        head(req) is Ok,
    ensures
        ({
            let sent = wire_order(finalized(req)->Ok_0);
            &&& sent.len() > 0
            &&& is_host(sent[0].name)
            &&& forall|i: int| 0 < i < sent.len() ==> !is_host(#[trigger] sent[i].name)
            &&& sent[0] == leading_host(req)
            &&& head(req)->Ok_0 == request_line(req.method, target(req.method, req.url)->Ok_0)
                + header_lines(sent[0].name, sent[0].values) + header_block(sent.drop_first())
                + crlf()
        }),
{
    broadcast use vstd::seq_lib::group_to_multiset_ensures;

    let h = finalized(req)->Ok_0;
    lemma_finalized_well_formed(req);
    lemma_host_leads(h);
    lemma_host_once(h);
    lemma_header_block_front(wire_order(h));
    let sent = wire_order(h);
    let line = request_line(req.method, target(req.method, req.url)->Ok_0);
    assert(line + header_block(sent) + crlf() =~= line + header_lines(
        sent[0].name,
        sent[0].values,
    ) + header_block(sent.drop_first()) + crlf());

    lemma_names_differ();
    let first = leading_host(req);
    let h1 = with_host(req.headers, req.url)->Ok_0;
    assert(h1.contains(first) && is_host(first.name)) by {
        if has_header(req.headers, host_name()) {
            let p = position(req.headers, host_name());
            assert(h1[p] == first);
        } else {
            lemma_with_header_sets(req.headers, host_name(), req.url.host_value()->Some_0);
        }
    }
    let h2 = with_proxy_connection(h1, req.method);
    if req.method == Method::Connect {
        lemma_with_header_keeps_entry(h1, proxy_connection_name(), keep_alive(), first);
    }
    let (gone, set, value) = framing(req.len);
    lemma_without_header_keeps_entry(h2, gone, first);
    lemma_with_header_keeps_entry(without_header(h2, gone), set, value, first);
    assert(h.contains(first));
    lemma_wire_order_permutes(h);
    assert(sent.to_multiset().count(first) > 0);
    assert(sent.contains(first));
    let k = choose|k: int| 0 <= k < sent.len() && sent[k] == first;
    assert(is_host(sent[k].name));
}

/// The head of a request does not depend on the order in which the request
/// holds its headers.
pub proof fn lemma_head_ignores_insertion_order<B>(a: RequestView<B>, b: RequestView<B>)
    requires
        well_formed(a.headers),
        well_formed(b.headers),
        a.headers.to_multiset() == b.headers.to_multiset(),
        b == (RequestView { headers: b.headers, ..a }),
    ensures
        head(a) == head(b),
{
    lemma_has_header_permuted(a.headers, b.headers, host_name());
    if finalized(a) is Ok {
        let a1 = with_host(a.headers, a.url)->Ok_0;
        let b1 = with_host(b.headers, b.url)->Ok_0;
        if !has_header(a.headers, host_name()) {
            let value = a.url.host_value()->Some_0;
            lemma_with_header_permuted(a.headers, b.headers, host_name(), value);
            lemma_with_header_well_formed(a.headers, host_name(), value);
            lemma_with_header_well_formed(b.headers, host_name(), value);
        }
        let a2 = with_proxy_connection(a1, a.method);
        let b2 = with_proxy_connection(b1, b.method);
        if a.method == Method::Connect {
            lemma_with_header_permuted(a1, b1, proxy_connection_name(), keep_alive());
            lemma_with_header_well_formed(a1, proxy_connection_name(), keep_alive());
            lemma_with_header_well_formed(b1, proxy_connection_name(), keep_alive());
        }
        let (gone, set, value) = framing(a.len);
        lemma_without_header_permuted(a2, b2, gone);
        lemma_without_header_well_formed(a2, gone);
        lemma_without_header_well_formed(b2, gone);
        lemma_with_header_permuted(without_header(a2, gone), without_header(b2, gone), set, value);
        lemma_finalized_well_formed(a);
        lemma_wire_order_ignores_order(finalized(a)->Ok_0, finalized(b)->Ok_0);
    }
}

/// A request goes out with one header that says how its body is framed:
/// `content-length` with the length in decimal if the length is known,
/// `transfer-encoding: chunked` if it is not, and never both, whatever word
/// on framing the request came with.
pub proof fn lemma_one_framing_header<B>(req: RequestView<B>)
    requires
        finalized(req) is Ok,
    ensures
        has_header(finalized(req)->Ok_0, content_length_name()) <==> req.len is Some,
        has_header(finalized(req)->Ok_0, transfer_encoding_name()) <==> req.len is None,
        req.len matches Some(n) ==> finalized(req)->Ok_0.contains(
            HeaderView { name: content_length_name(), values: seq![decimal(n as nat)] },
        ),
        req.len is None ==> finalized(req)->Ok_0.contains(
            HeaderView { name: transfer_encoding_name(), values: seq![chunked()] },
        ),
{
    lemma_names_differ();
    let h1 = with_host(req.headers, req.url)->Ok_0;
    let h2 = with_proxy_connection(h1, req.method);
    let (gone, set, value) = framing(req.len);
    let h3 = without_header(h2, gone);
    lemma_without_header_removes(h2, gone);
    lemma_with_header_keeps(h3, set, value, gone);
    lemma_with_header_sets(h3, set, value);
}

/// A request whose URL names no host has no head, and a read of it fails
/// without a byte written, when the request is a CONNECT request or came
/// without a `host` header.
pub proof fn lemma_missing_hostname<B>(req: RequestView<B>, buf: Seq<u8>)
    requires
        req.url.host is None,
        req.method == Method::Connect || !has_header(req.headers, host_name()),
    ensures
        head(req) == Err::<Seq<u8>, HeadError>(HeadError::MissingHostname),
        read(EncoderView { request: req, state: StateView::Start }, buf) == (Read {
            encoder: EncoderView { request: req, state: StateView::Start },
            buf: buf,
            result: Err(HeadError::MissingHostname),
        }),
{
}

/// At the end a read writes nothing, fails never, and leaves the encoder at
/// the end.
pub proof fn lemma_end_is_final<B>(encoder: EncoderView<B>, buf: Seq<u8>)
    requires
        encoder.state is End,
    ensures
        read(encoder, buf) == (Read { encoder: encoder, buf: buf, result: Ok(Step::Ready(0)) }),
{
}

/// What a read wrote into the reader's buffer.
pub open spec fn output<B>(r: Read<B>) -> Seq<u8> {
    match r.result {
        Ok(Step::Ready(n)) => r.buf.take(n as int),
        _ => Seq::empty(),
    }
}

/// Reads into the buffers `bufs`, one after the other: the encoder as they
/// leave it, and what they wrote, end to end.
pub open spec fn reads<B>(encoder: EncoderView<B>, bufs: Seq<Seq<u8>>) -> (EncoderView<B>, Seq<u8>)
    decreases bufs.len(),
{
    if bufs.len() == 0 {
        (encoder, Seq::empty())
    } else {
        let before = reads(encoder, bufs.drop_last());
        let last = read(before.0, bufs.last());
        (last.encoder, before.1 + output(last))
    }
}

/// The room in all the buffers together.
pub open spec fn room(bufs: Seq<Seq<u8>>) -> nat
    decreases bufs.len(),
{
    if bufs.len() == 0 {
        0
    } else {
        room(bufs.drop_last()) + bufs.last().len()
    }
}

/// The first `n` bytes, or all if there are no more.
pub open spec fn front(bytes: Seq<u8>, n: nat) -> Seq<u8> {
    if n < bytes.len() {
        bytes.take(n as int)
    } else {
        bytes
    }
}

/// Reads into buffers of any sizes write the head from its first byte on,
/// each byte once and in its place, as far as the buffers have room; with
/// room for all of it, what they wrote is the head. The body is not begun
/// before the whole head is written.
pub proof fn lemma_head_delivery<B>(req: RequestView<B>, bufs: Seq<Seq<u8>>)
    requires
        head(req) is Ok,
        forall|i: int| 0 <= i < bufs.len() ==> (#[trigger] bufs[i]).len() <= usize::MAX,
    ensures
        reads(EncoderView { request: req, state: StateView::Start }, bufs).1 == front(
            head(req)->Ok_0,
            room(bufs),
        ),
        room(bufs) >= head(req)->Ok_0.len() ==> reads(
            EncoderView { request: req, state: StateView::Start },
            bufs,
        ).1 == head(req)->Ok_0,
        reads(EncoderView { request: req, state: StateView::Start }, bufs).0.state is Body
            ==> reads(EncoderView { request: req, state: StateView::Start }, bufs).1 == head(
            req,
        )->Ok_0,
        !(reads(EncoderView { request: req, state: StateView::Start }, bufs).0.state is End),
{
    lemma_head_delivery_step(req, bufs);
}

/// How far the encoder is after the reads of [`lemma_head_delivery`].
proof fn lemma_head_delivery_step<B>(req: RequestView<B>, bufs: Seq<Seq<u8>>)
    requires
        head(req) is Ok,
        forall|i: int| 0 <= i < bufs.len() ==> (#[trigger] bufs[i]).len() <= usize::MAX,
    ensures
        ({
            let bytes = head(req)->Ok_0;
            let start = EncoderView { request: req, state: StateView::Start };
            let after = reads(start, bufs);
            &&& after.1 == front(bytes, room(bufs))
            &&& match after.0.state {
                StateView::Start => bufs.len() == 0,
                StateView::Head { bytes: b, pos } => b == bytes && pos == after.1.len(),
                StateView::Body { written, expected } => after.1 == bytes,
                StateView::End => false,
            }
        }),
    decreases bufs.len(),
{
    let bytes = head(req)->Ok_0;
    let start = EncoderView { request: req, state: StateView::Start };
    if bufs.len() == 0 {
        assert(front(bytes, 0) =~= Seq::<u8>::empty());
    } else {
        lemma_head_delivery_step(req, bufs.drop_last());
        let before = reads(start, bufs.drop_last());
        let buf = bufs.last();
        assert(buf == bufs[bufs.len() - 1]);
        let last = read(before.0, buf);
        let pos: nat = before.1.len();
        match before.0.state {
            StateView::Body { .. } => {
                assert(before.1 + output(last) =~= bytes);
            },
            _ => {
                if pos < bytes.len() {
                    let piece = chunk(bytes, pos, buf.len());
                    assert(output(last) =~= piece);
                    assert(before.1 + piece =~= front(bytes, room(bufs)));
                } else {
                    assert(before.1 + output(last) =~= bytes);
                }
            },
        }
    }
}

/// A run of the body's source against a body of which `expected` bytes are
/// declared: the state that the answers `events` lead to, and the number of
/// bytes that were written on the way. Once the body is over, no answer
/// counts.
pub open spec fn body_run<E>(expected: Option<nat>, events: Seq<BodyRead<E>>) -> (StateView, nat)
    decreases events.len(),
{
    if events.len() == 0 {
        (StateView::Body { written: 0, expected: expected }, 0)
    } else {
        let before = body_run(expected, events.drop_last());
        match before.0 {
            StateView::Body { written, expected } => (
                body_step(written, expected, events.last()).0,
                match events.last() {
                    BodyRead::Bytes(n) => before.1 + n as nat,
                    _ => before.1,
                },
            ),
            _ => before,
        }
    }
}

/// While a body is sent, the count is the number of bytes written. A body
/// of a declared length ends the request only when exactly that many bytes
/// are written; if its source ends at any other count, that is an error
/// and the request does not end.
pub proof fn lemma_body_length<E>(expected: Option<nat>, events: Seq<BodyRead<E>>)
    ensures
        ({
            let run = body_run(expected, events);
            match run.0 {
                StateView::Body { written, expected: e } => {
                    &&& written == run.1
                    &&& e == expected
                    &&& body_step::<E>(written, e, BodyRead::Bytes(0)) == if expected is Some
                        && expected != Some(written) {
                        (run.0, Err::<Progress, BodyError<E>>(BodyError::UnexpectedEnd))
                    } else {
                        (StateView::End, Ok::<Progress, BodyError<E>>(Progress::Ready(0)))
                    }
                },
                StateView::End => expected is Some ==> expected == Some(run.1),
                _ => false,
            }
        }),
    decreases events.len(),
{
    if events.len() > 0 {
        lemma_body_length(expected, events.drop_last());
    }
}

} // verus!
