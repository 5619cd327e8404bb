//! The frames of the transport, and which message each of them carries:
//! a text frame carries a message in the text framing, a binary frame one
//! in the binary framing, and neither is ever read as the other.

use crate::codec::backend_decoding;
use crate::codec::frontend_decoding;
use crate::codec::ProtocolError;
use crate::messages::opt_close_view;
use crate::messages::BackendMessage;
use crate::messages::BackendMessageView;
use crate::messages::CloseReason;
use crate::messages::FrontendMessage;
use crate::messages::FrontendMessageView;
use crate::text_codec::backend_text_decoding;
use crate::text_codec::frontend_text_decoding;
use vstd::prelude::*;
use vstd::utf8::encode_utf8;

verus! {

/// One message of the transport.
#[derive(Debug, PartialEq, Eq)]
pub enum Frame {
    /// A text message.
    Text(String),
    /// A binary message.
    Binary(Vec<u8>),
    /// A part of a message that goes on.
    Continuation,
    /// A ping, with its payload.
    Ping(Vec<u8>),
    /// A pong, with its payload.
    Pong(Vec<u8>),
    /// The peer closes the connection, with the reason if it gave one.
    Close(Option<CloseReason>),
    /// Nothing.
    Nop,
}

/// What a body decodes to, or the protocol error for a body that decodes
/// to nothing.
pub open spec fn or_malformed<V>(decoded: Option<V>) -> Result<V, ProtocolError> {
    match decoded {
        Some(v) => Ok(v),
        None => Err(ProtocolError::Malformed),
    }
}

/// The request that a frame carries to the relay. A text frame is decoded
/// in the text framing and a binary frame in the binary framing; a close
/// frame is the request to close; any other frame carries no request.
pub open spec fn frontend_of_frame(frame: Frame) -> Result<FrontendMessageView, ProtocolError> {
    match frame {
        Frame::Text(text) => or_malformed(frontend_text_decoding(encode_utf8(text@))),
        Frame::Binary(body) => or_malformed(frontend_decoding(body@)),
        Frame::Close(reason) => Ok(FrontendMessageView::Close(opt_close_view(reason))),
        _ => Err(ProtocolError::UnexpectedFrame),
    }
}

/// The event that a frame carries to a client. A text frame is decoded in
/// the text framing and a binary frame in the binary framing; any other
/// frame carries no event.
pub open spec fn backend_of_frame(frame: Frame) -> Result<BackendMessageView, ProtocolError> {
    match frame {
        Frame::Text(text) => or_malformed(backend_text_decoding(encode_utf8(text@))),
        Frame::Binary(body) => or_malformed(backend_decoding(body@)),
        _ => Err(ProtocolError::UnexpectedFrame),
    }
}

/// A block of bytes as the server's transport takes it.
#[verifier::external_type_specification]
#[verifier::external_body]
pub struct ExBytes(bytes::Bytes);

/// The bytes that a block holds, in order.
pub uninterp spec fn bytes_contents(block: bytes::Bytes) -> Seq<u8>;

/// `Bytes::from` for a vector: the block holds the vector's bytes.
#[verifier::external_body]
fn bytes_from_vec(body: Vec<u8>) -> (block: bytes::Bytes)
    ensures
        bytes_contents(block) == body@,
{
    bytes::Bytes::from(body)
}

/// `to_vec` on a block, which reads it as a slice: a vector of the bytes
/// that the block holds.
#[verifier::external_body]
fn bytes_to_vec(block: &bytes::Bytes) -> (body: Vec<u8>)
    ensures
        body@ == bytes_contents(*block),
{
    block.to_vec()
}

impl FrontendMessage {
    /// The request that a frame carries to the relay, or the protocol
    /// error for a frame that carries none.
    pub fn from_frame(frame: Frame) -> (r: Result<FrontendMessage, ProtocolError>)
        ensures
            match r {
                Ok(m) => frontend_of_frame(frame) == Ok::<FrontendMessageView, ProtocolError>(m@),
                Err(e) => frontend_of_frame(frame) == Err::<FrontendMessageView, ProtocolError>(e),
            },
    {
        match frame {
            Frame::Text(text) => FrontendMessage::decode_text(text.as_str().as_bytes()),
            Frame::Binary(body) => FrontendMessage::decode(body.as_slice()),
            Frame::Close(reason) => Ok(FrontendMessage::Close(reason)),
            _ => Err(ProtocolError::UnexpectedFrame),
        }
    }

    /// The request that a block of bytes holds in the binary framing.
    pub fn from_bytes(block: &bytes::Bytes) -> (r: Result<FrontendMessage, ProtocolError>)
        ensures
            match r {
                Ok(m) => frontend_decoding(bytes_contents(*block)) == Some(m@),
                Err(e) => e == ProtocolError::Malformed && frontend_decoding(
                    bytes_contents(*block),
                ) is None,
            },
    {
        let body = bytes_to_vec(block);
        FrontendMessage::decode(body.as_slice())
    }

    /// The binary frame that carries the request.
    pub fn into_frame(self) -> (frame: Frame)
        ensures
            frame matches Frame::Binary(body) && body@ == self@.encoding(),
            self@.wf(),
    {
        Frame::Binary(self.encode())
    }

    /// The text frame that carries the request.
    pub fn into_text_frame(self) -> (frame: Frame)
        ensures
            frame matches Frame::Text(text) && encode_utf8(text@) == self@.text(),
    {
        Frame::Text(self.to_text())
    }
}

impl BackendMessage {
    /// The event that a frame carries to a client, or the protocol error
    /// for a frame that carries none.
    pub fn from_frame(frame: Frame) -> (r: Result<BackendMessage, ProtocolError>)
        ensures
            match r {
                Ok(m) => backend_of_frame(frame) == Ok::<BackendMessageView, ProtocolError>(m@),
                Err(e) => backend_of_frame(frame) == Err::<BackendMessageView, ProtocolError>(e),
            },
    {
        match frame {
            Frame::Text(text) => BackendMessage::decode_text(text.as_str().as_bytes()),
            Frame::Binary(body) => BackendMessage::decode(body.as_slice()),
            _ => Err(ProtocolError::UnexpectedFrame),
        }
    }

    /// The binary frame that carries the event.
    pub fn into_frame(self) -> (frame: Frame)
        ensures
            frame matches Frame::Binary(body) && body@ == self@.encoding(),
            self@.wf(),
    {
        Frame::Binary(self.encode())
    }

    /// The text frame that carries the event.
    pub fn into_text_frame(self) -> (frame: Frame)
        ensures
            frame matches Frame::Text(text) && encode_utf8(text@) == self@.text(),
    {
        Frame::Text(self.to_text())
    }

    /// The event's bytes in the binary framing, as a block for the
    /// server's transport.
    pub fn into_bytes(self) -> (block: bytes::Bytes)
        ensures
            bytes_contents(block) == self@.encoding(),
            self@.wf(),
    {
        bytes_from_vec(self.encode())
    }
}

} // verus!
