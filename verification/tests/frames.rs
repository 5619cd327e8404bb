use comment_relay::codec::ProtocolError;
use comment_relay::comments::Comment;
use comment_relay::frames::Frame;
use comment_relay::messages::BackendMessage;
use comment_relay::messages::CloseReason;
use comment_relay::messages::FrontendMessage;
use comment_relay::reactors::incoming;
use comment_relay::reactors::outgoing;
use comment_relay::reactors::WebsocketInput;
use comment_relay::reactors::WebsocketOutput;
use comment_relay::users::User;

fn alice() -> User {
    User { id: 1, username: "alice".to_string() }
}

#[test]
fn binary_frame_is_decoded_in_the_binary_framing() {
    let m = FrontendMessage::Login("alice".to_string());
    assert_eq!(FrontendMessage::from_frame(Frame::Binary(m.encode())), Ok(m));
    let e = BackendMessage::LoggedIn(alice());
    assert_eq!(BackendMessage::from_frame(Frame::Binary(e.encode())), Ok(e));
}

#[test]
fn text_frame_is_decoded_in_the_text_framing() {
    let frame = Frame::Text("{\"Login\":\"alice\"}".to_string());
    assert_eq!(
        FrontendMessage::from_frame(frame),
        Ok(FrontendMessage::Login("alice".to_string()))
    );
    let frame = Frame::Text("{\"LoggedIn\":{\"id\":1,\"username\":\"alice\"}}".to_string());
    assert_eq!(BackendMessage::from_frame(frame), Ok(BackendMessage::LoggedIn(alice())));
}

#[test]
fn binary_body_in_a_text_frame_is_malformed() {
    let body = FrontendMessage::Login(String::new()).encode();
    let text = String::from_utf8(body).unwrap();
    assert_eq!(FrontendMessage::from_frame(Frame::Text(text)), Err(ProtocolError::Malformed));
}

#[test]
fn text_body_in_a_binary_frame_is_malformed() {
    let body = FrontendMessage::Login("alice".to_string()).encode_text();
    assert_eq!(FrontendMessage::from_frame(Frame::Binary(body)), Err(ProtocolError::Malformed));
    let body = BackendMessage::LoggedIn(alice()).encode_text();
    assert_eq!(BackendMessage::from_frame(Frame::Binary(body)), Err(ProtocolError::Malformed));
}

#[test]
fn close_frame_is_the_request_to_close() {
    assert_eq!(FrontendMessage::from_frame(Frame::Close(None)), Ok(FrontendMessage::Close(None)));
    let reason = CloseReason { code: 1001, reason: Some("away".to_string()) };
    assert_eq!(
        FrontendMessage::from_frame(Frame::Close(Some(reason.clone()))),
        Ok(FrontendMessage::Close(Some(reason)))
    );
}

#[test]
fn control_frames_carry_no_request() {
    for frame in [Frame::Ping(vec![1]), Frame::Pong(vec![]), Frame::Continuation, Frame::Nop] {
        assert_eq!(FrontendMessage::from_frame(frame), Err(ProtocolError::UnexpectedFrame));
    }
}

#[test]
fn frames_other_than_text_and_binary_carry_no_event() {
    for frame in [
        Frame::Ping(vec![1]),
        Frame::Pong(vec![]),
        Frame::Continuation,
        Frame::Nop,
        Frame::Close(None),
    ] {
        assert_eq!(BackendMessage::from_frame(frame), Err(ProtocolError::UnexpectedFrame));
    }
}

#[test]
fn malformed_frames_are_protocol_errors() {
    assert_eq!(FrontendMessage::from_frame(Frame::Binary(vec![])), Err(ProtocolError::Malformed));
    assert_eq!(
        FrontendMessage::from_frame(Frame::Text(String::new())),
        Err(ProtocolError::Malformed)
    );
    assert_eq!(BackendMessage::from_frame(Frame::Binary(vec![9])), Err(ProtocolError::Malformed));
}

#[test]
fn messages_go_out_as_binary_frames() {
    let m = FrontendMessage::DeleteComment(Comment { id: 3, user_id: 1, body: "x".to_string() });
    assert_eq!(m.clone().into_frame(), Frame::Binary(m.encode()));
    let e = BackendMessage::NewComment(Comment { id: 3, user_id: 1, body: "x".to_string() });
    assert_eq!(e.clone().into_frame(), Frame::Binary(e.encode()));
}

#[test]
fn event_as_a_block_holds_its_encoding() {
    let e = BackendMessage::LoggedIn(alice());
    let block = e.clone().into_bytes();
    assert_eq!(block.to_vec(), e.encode());
    assert_eq!(block.len(), 4 + 4 + 8 + 5);
}

#[test]
fn request_is_read_from_a_block() {
    let m = FrontendMessage::Login("alice".to_string());
    let block = bytes::Bytes::from(m.encode());
    assert_eq!(FrontendMessage::from_bytes(&block), Ok(m));
    let broken = bytes::Bytes::from(vec![1u8, 0, 0]);
    assert_eq!(FrontendMessage::from_bytes(&broken), Err(ProtocolError::Malformed));
    let tail = bytes::Bytes::from(vec![9u8, 0, 0, 0, 0, 0]).slice(1..);
    assert_eq!(FrontendMessage::from_bytes(&tail), Ok(FrontendMessage::Close(None)));
}

#[test]
fn reactor_sends_text_as_a_text_frame() {
    assert_eq!(
        outgoing(WebsocketInput::SendMessage("hello".to_string())),
        Frame::Text("hello".to_string())
    );
}

#[test]
fn reactor_reads_text_from_text_and_binary_frames() {
    assert_eq!(
        incoming(Frame::Text("hello".to_string())),
        Some(WebsocketOutput::ReceivedMessage("hello".to_string()))
    );
    assert_eq!(
        incoming(Frame::Binary("gr\u{fc}n".as_bytes().to_vec())),
        Some(WebsocketOutput::ReceivedMessage("gr\u{fc}n".to_string()))
    );
    assert_eq!(incoming(Frame::Binary(vec![0xff, 0xfe])), None);
    assert_eq!(incoming(Frame::Ping(vec![])), None);
    assert_eq!(incoming(Frame::Close(None)), None);
}

#[test]
fn messages_go_out_as_text_frames_too() {
    let m = FrontendMessage::Login("alice".to_string());
    assert_eq!(m.clone().into_text_frame(), Frame::Text("{\"Login\":\"alice\"}".to_string()));
    assert_eq!(FrontendMessage::from_frame(m.clone().into_text_frame()), Ok(m));
    let e = BackendMessage::DeletedComment(Comment { id: 3, user_id: 1, body: "x\ty".to_string() });
    assert_eq!(BackendMessage::from_frame(e.clone().into_text_frame()), Ok(e));
}
