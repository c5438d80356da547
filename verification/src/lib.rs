//! An HTTP/1.1 request encoder: a request held in memory is turned, read by
//! read, into the bytes that go on the wire.
//!
//! [`encoder::Encoder`] writes the head, which [`head`] defines, into the
//! buffers that it is given, and then keeps count of the body, which its
//! caller has sent by whatever frames it. [`laws`] states what holds of every
//! request.

pub mod cursor;
pub mod encoder;
pub mod error;
pub mod head;
pub mod headers;
pub mod laws;
pub mod method;
pub mod order;
pub mod request;
pub mod text;
pub mod url;
