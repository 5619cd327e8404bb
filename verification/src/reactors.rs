//! The plain-text reactor: what a consumer hands it goes out as a text
//! frame, and what comes in as text comes back as it is.

use crate::frames::Frame;
use crate::wire::string_from_utf8;
use vstd::prelude::*;
use vstd::utf8::encode_utf8;
use vstd::utf8::valid_utf8;

verus! {

/// What a consumer hands to the reactor.
#[derive(Debug, PartialEq, Eq)]
pub enum WebsocketInput {
    /// Send this text.
    SendMessage(String),
}

/// What the reactor hands to a consumer.
#[derive(Debug, PartialEq, Eq)]
pub enum WebsocketOutput {
    /// This text was received.
    ReceivedMessage(String),
}

/// The text frame that an input goes out as.
pub fn outgoing(input: WebsocketInput) -> (frame: Frame)
    ensures
        frame == Frame::Text(input->SendMessage_0),
{
    match input {
        WebsocketInput::SendMessage(message) => Frame::Text(message),
    }
}

/// Whether `output` is what a frame comes in as: the text of a text frame,
/// the text that a binary frame spells where its body is well-formed
/// UTF-8, and nothing for any other frame.
pub open spec fn comes_in_as(frame: Frame, output: Option<WebsocketOutput>) -> bool {
    match frame {
        Frame::Text(data) => output == Some(WebsocketOutput::ReceivedMessage(data)),
        Frame::Binary(body) => if valid_utf8(body@) {
            output matches Some(WebsocketOutput::ReceivedMessage(text)) && encode_utf8(text@)
                == body@
        } else {
            output is None
        },
        _ => output is None,
    }
}

/// What a frame comes in as.
pub fn incoming(frame: Frame) -> (output: Option<WebsocketOutput>)
    ensures
        comes_in_as(frame, output),
{
    match frame {
        Frame::Text(data) => Some(WebsocketOutput::ReceivedMessage(data)),
        Frame::Binary(body) => match string_from_utf8(body) {
            Some(text) => Some(WebsocketOutput::ReceivedMessage(text)),
            None => None,
        },
        _ => None,
    }
}

} // verus!
