//! The encoder: it writes the head of a request into the reader's buffers,
//! then has the body sent and keeps count of it.

use crate::cursor::{chunk, Cursor};
use crate::error::{BodyError, HeadError};
use crate::head::{finalized, head, write_header_block};
use crate::method::Method;
use crate::order::in_wire_order;
use crate::request::{Request, RequestView};
use crate::text::{push_all, push_decimal};
use vstd::prelude::*;
use vstd::string::*;

verus! {

/// How far an encoder has come.
#[derive(Debug)]
pub enum EncoderState {
    /// Nothing is written yet.
    Start,
    /// The head is made and is being read out.
    Head(Cursor),
    /// The head is out and the body is being sent: so many bytes of it so
    /// far, of so many that the request declared.
    Body { written: usize, expected: Option<usize> },
    /// All is sent.
    End,
}

/// What an [`EncoderState`] holds.
pub enum StateView {
    Start,
    Head { bytes: Seq<u8>, pos: nat },
    Body { written: nat, expected: Option<nat> },
    End,
}

/// A length as a number.
pub open spec fn len_view(len: Option<usize>) -> Option<nat> {
    match len {
        Some(n) => Some(n as nat),
        None => None,
    }
}

impl View for EncoderState {
    type V = StateView;

    open spec fn view(&self) -> StateView {
        match *self {
            EncoderState::Start => StateView::Start,
            EncoderState::Head(cursor) => StateView::Head {
                bytes: cursor.bytes(),
                pos: cursor.position(),
            },
            EncoderState::Body { written, expected } => StateView::Body {
                written: written as nat,
                expected: len_view(expected),
            },
            EncoderState::End => StateView::End,
        }
    }
}

/// What a read asks of its caller.
#[derive(Debug)]
pub enum Step<B> {
    /// So many bytes stand at the front of the buffer. None at all means that
    /// the buffer has no room or that the request is sent.
    Ready(usize),
    /// The head is out. The body's source is to be read into the same buffer,
    /// and what it says is to be reported. The request's body comes along
    /// when the encoder lets go of it, which is the first time.
    Body(Option<B>),
}

/// What the source of the body said to a read. `E` is its error.
#[derive(Debug)]
pub enum BodyRead<E> {
    /// It gave so many bytes; none at all means that it has ended.
    Bytes(usize),
    /// It has nothing yet.
    Pending,
    /// It failed.
    Failed(E),
}

/// What a read of the body comes to.
#[derive(Clone, Copy, Debug, PartialEq, Eq, Structural)]
pub enum Progress {
    /// So many bytes were written; none at all means the end of the request.
    Ready(usize),
    /// Nothing yet: the read is to be tried again later.
    Pending,
}

/// An HTTP encoder.
#[derive(Debug)]
pub struct Encoder<B> {
    request: Request<B>,
    state: EncoderState,
}

/// What an [`Encoder`] holds.
pub struct EncoderView<B> {
    pub request: RequestView<B>,
    pub state: StateView,
}

impl<B> View for Encoder<B> {
    type V = EncoderView<B>;

    closed spec fn view(&self) -> EncoderView<B> {
        EncoderView { request: self.request@, state: self.state@ }
    }
}

/// A read, as it leaves things: the encoder, the reader's buffer, and the
/// answer.
pub struct Read<B> {
    pub encoder: EncoderView<B>,
    pub buf: Seq<u8>,
    pub result: Result<Step<B>, HeadError>,
}

/// A read that finds the head read out, or the body under way: the encoder
/// lets go of the body if it still has it, and asks for the body's source to
/// be read. The count starts at nothing when the body is entered.
pub open spec fn read_body<B>(request: RequestView<B>, state: StateView, buf: Seq<u8>) -> Read<B> {
    Read {
        encoder: EncoderView {
            request: RequestView { body: None, ..request },
            state: match state {
                StateView::Body { written, expected } => state,
                _ => StateView::Body { written: 0, expected: len_view(request.len) },
            },
        },
        buf: buf,
        result: Ok(Step::Body(request.body)),
    }
}

/// A read while the head is being read out: the next piece of the head goes
/// to the front of the buffer and nothing else happens; only when no byte of
/// the head is left does the body begin.
pub open spec fn read_head<B>(
    request: RequestView<B>,
    bytes: Seq<u8>,
    pos: nat,
    buf: Seq<u8>,
) -> Read<B> {
    if pos < bytes.len() {
        let piece = chunk(bytes, pos, buf.len());
        Read {
            encoder: EncoderView {
                request: request,
                state: StateView::Head { bytes: bytes, pos: pos + piece.len() },
            },
            buf: piece + buf.skip(piece.len() as int),
            result: Ok(Step::Ready(piece.len() as usize)),
        }
    } else {
        read_body(request, StateView::Head { bytes: bytes, pos: pos }, buf)
    }
}

/// A read. At the start the head is made, from the request with its headers
/// finalized, and its first piece is read; a request without a head fails,
/// and nothing changes. At the end nothing is written, as often as one asks.
pub open spec fn read<B>(encoder: EncoderView<B>, buf: Seq<u8>) -> Read<B> {
    match encoder.state {
        StateView::Start => match head(encoder.request) {
            Ok(bytes) => read_head(
                RequestView { headers: finalized(encoder.request)->Ok_0, ..encoder.request },
                bytes,
                0,
                buf,
            ),
            Err(e) => Read { encoder: encoder, buf: buf, result: Err(e) },
        },
        StateView::Head { bytes, pos } => read_head(encoder.request, bytes, pos, buf),
        StateView::Body { written, expected } => read_body(encoder.request, encoder.state, buf),
        StateView::End => Read { encoder: encoder, buf: buf, result: Ok(Step::Ready(0)) },
    }
}

/// What becomes of a body of which `written` bytes are out, of `expected`
/// declared, when its source answers a read with `event`. Bytes are counted
/// and reported. The end of the source ends the request if the count is the
/// declared length or none was declared, and is an error otherwise. A source
/// that has nothing yet, or fails, leaves the state as it is, and the failure
/// is passed on.
pub open spec fn body_step<E>(written: nat, expected: Option<nat>, event: BodyRead<E>) -> (
    StateView,
    Result<Progress, BodyError<E>>,
) {
    let same = StateView::Body { written: written, expected: expected };
    match event {
        BodyRead::Bytes(n) => if n == 0 {
            if expected is Some && expected != Some(written) {
                (same, Err(BodyError::UnexpectedEnd))
            } else {
                (StateView::End, Ok(Progress::Ready(0)))
            }
        } else {
            (
                StateView::Body { written: written + n as nat, expected: expected },
                Ok(Progress::Ready(n)),
            )
        },
        BodyRead::Pending => (same, Ok(Progress::Pending)),
        BodyRead::Failed(e) => (same, Err(BodyError::Upstream(e))),
    }
}

impl<B> Encoder<B> {
    /// An encoder for `request`, with nothing written yet.
    pub fn new(request: Request<B>) -> (r: Self)
        ensures
            r@ == (EncoderView { request: request@, state: StateView::Start }),
    {
        Self { request: request, state: EncoderState::Start }
    }

    /// How far the encoder has come.
    pub fn state(&self) -> (r: &EncoderState)
        ensures
            r@ == self@.state,
    {
        &self.state
    }

    /// The request, as it stands.
    pub fn request(&self) -> (r: &Request<B>)
        ensures
            r@ == self@.request,
    {
        &self.request
    }

    /// Sees to it that the request has the headers it cannot go without:
    /// `host`, `proxy-connection` for CONNECT, and the one that says how the
    /// body is framed, in place of any word on framing that it came with. A
    /// request that needs a host and has none is left as it was.
    pub fn finalize_headers(&mut self) -> (r: Result<(), HeadError>)
        ensures
            final(self)@.state == old(self)@.state,
            match finalized(old(self)@.request) {
                Ok(h) => r is Ok && final(self)@.request == (RequestView {
                    headers: h,
                    ..old(self)@.request
                }),
                Err(e) => r == Err::<(), HeadError>(e) && final(self)@ == old(self)@,
            },
    {
        if !self.request.headers.contains("host".as_bytes()) {
            match self.request.url.host_value() {
                Some(value) => {
                    self.request.headers.insert("host".as_bytes_vec(), value);
                },
                None => {
                    return Err(HeadError::MissingHostname);
                },
            }
        }
        if self.request.method == Method::Connect {
            self.request.headers.insert(
                "proxy-connection".as_bytes_vec(),
                "keep-alive".as_bytes_vec(),
            );
        }
        match self.request.len {
            Some(len) => {
                let mut value: Vec<u8> = Vec::new();
                push_decimal(&mut value, len);
                self.request.headers.remove("transfer-encoding".as_bytes());
                self.request.headers.insert("content-length".as_bytes_vec(), value);
            },
            None => {
                self.request.headers.remove("content-length".as_bytes());
                self.request.headers.insert(
                    "transfer-encoding".as_bytes_vec(),
                    "chunked".as_bytes_vec(),
                );
            },
        }
        Ok(())
    }

    /// Makes the head of the request, with the headers finalized on the way.
    /// A request that has no head is left as it was.
    pub fn compute_head(&mut self) -> (r: Result<Vec<u8>, HeadError>)
        ensures
            final(self)@.state == old(self)@.state,
            match head(old(self)@.request) {
                Ok(bytes) => r is Ok && r->Ok_0@ == bytes && final(self)@.request == (RequestView {
                    headers: finalized(old(self)@.request)->Ok_0,
                    ..old(self)@.request
                }),
                Err(e) => r == Err::<Vec<u8>, HeadError>(e) && final(self)@ == old(self)@,
            },
    {
        let mut buf: Vec<u8> = Vec::with_capacity(128);
        push_all(&mut buf, self.request.method.as_str().as_bytes());
        push_all(&mut buf, " ".as_bytes());
        if self.request.method == Method::Connect {
            match self.request.url.write_authority_form(&mut buf) {
                Ok(()) => {},
                Err(e) => {
                    return Err(e);
                },
            }
        } else {
            self.request.url.write_origin_form(&mut buf);
        }
        push_all(&mut buf, " HTTP/1.1\r\n".as_bytes());
        match self.finalize_headers() {
            Ok(()) => {},
            Err(e) => {
                return Err(e);
            },
        }
        let headers = in_wire_order(&self.request.headers);
        write_header_block(&mut buf, &headers);
        push_all(&mut buf, "\r\n".as_bytes());
        assert(buf@ =~= head(old(self)@.request)->Ok_0);
        Ok(buf)
    }

    /// Reads the next bytes of the request into `buf`, as far as they are
    /// the encoder's to give: the head. After the head the caller reads the
    /// body's source into `buf` and calls [`Encoder::body_polled`]. A request
    /// without a head fails, each time anew, and nothing is written. At the
    /// end nothing is written either, and that is no failure.
    pub fn poll_read(&mut self, buf: &mut [u8]) -> (r: Result<Step<B>, HeadError>)
        ensures
            final(self)@ == read(old(self)@, old(buf)@).encoder,
            final(buf)@ == read(old(self)@, old(buf)@).buf,
            r == read(old(self)@, old(buf)@).result,
            final(buf)@.len() == old(buf)@.len(),
            r is Err ==> final(self)@ == old(self)@ && final(buf)@ == old(buf)@,
            old(self)@.state is End ==> r == Ok::<Step<B>, HeadError>(Step::Ready(0))
                && final(self)@ == old(self)@ && final(buf)@ == old(buf)@,
    {
        if let EncoderState::Start = self.state {
            match self.compute_head() {
                Ok(bytes) => {
                    self.state = EncoderState::Head(Cursor::new(bytes));
                },
                Err(e) => {
                    return Err(e);
                },
            }
        }
        match &mut self.state {
            EncoderState::Head(cursor) => {
                if !cursor.is_spent() {
                    let n: usize = cursor.read(buf);
                    return Ok(Step::Ready(n));
                }
                self.state = EncoderState::Body { written: 0, expected: self.request.len };
            },
            EncoderState::End => {
                return Ok(Step::Ready(0));
            },
            _ => {},
        }
        Ok(Step::Body(self.request.take_body()))
    }

    /// Takes note of what the body's source said to a read, and answers the
    /// read.
    pub fn body_polled<E>(&mut self, event: BodyRead<E>) -> (r: Result<Progress, BodyError<E>>)
        requires
            old(self)@.state is Body,
            event matches BodyRead::Bytes(n) ==> old(self)@.state->written + n <= usize::MAX,
        ensures
            final(self)@.request == old(self)@.request,
            (final(self)@.state, r) == body_step(
                old(self)@.state->written,
                old(self)@.state->expected,
                event,
            ),
    {
        match event {
            BodyRead::Bytes(n) => {
                if let EncoderState::Body { written, expected } = self.state {
                    if n > 0 {
                        self.state = EncoderState::Body { written: written + n, expected: expected };
                    } else {
                        if let Some(len) = expected {
                            if written != len {
                                return Err(BodyError::UnexpectedEnd);
                            }
                        }
                        self.state = EncoderState::End;
                    }
                }
                Ok(Progress::Ready(n))
            },
            BodyRead::Pending => Ok(Progress::Pending),
            BodyRead::Failed(e) => Err(BodyError::Upstream(e)),
        }
    }
}

} // verus!
