use comment_relay::codec::decode;
use comment_relay::codec::encode;
use comment_relay::codec::ProtocolError;
use comment_relay::comments::Comment;
use comment_relay::messages::BackendMessage;
use comment_relay::messages::CloseReason;
use comment_relay::messages::Direction;
use comment_relay::messages::Envelope;
use comment_relay::messages::FrontendMessage;
use comment_relay::users::User;

fn user(id: i32, name: &str) -> User {
    User { id, username: name.to_string() }
}

fn comment(id: i32, user_id: i32, body: &str) -> Comment {
    Comment { id, user_id, body: body.to_string() }
}

fn frontend_samples() -> Vec<FrontendMessage> {
    vec![
        FrontendMessage::Close(None),
        FrontendMessage::Close(Some(CloseReason { code: 1000, reason: None })),
        FrontendMessage::Close(Some(CloseReason { code: 65535, reason: Some("bye".to_string()) })),
        FrontendMessage::Login(String::new()),
        FrontendMessage::Login("alice".to_string()),
        FrontendMessage::Login("gr\u{fc}\u{df}e \u{1f600} \"quoted\"\n".to_string()),
        FrontendMessage::InsertComment((user(1, "alice"), "hello".to_string())),
        FrontendMessage::InsertComment((user(-7, ""), String::new())),
        FrontendMessage::DeleteComment(comment(3, 1, "hello")),
        FrontendMessage::DeleteComment(comment(i32::MIN, i32::MAX, "\u{0}\u{7f}")),
    ]
}

fn backend_samples() -> Vec<BackendMessage> {
    vec![
        BackendMessage::LoggedIn(user(1, "alice")),
        BackendMessage::NewComment(comment(3, 1, "hello")),
        BackendMessage::InsertedComment(comment(3, 1, "hello")),
        BackendMessage::Comments(vec![]),
        BackendMessage::Comments(vec![comment(1, 1, "a"), comment(2, -1, "b"), comment(0, 0, "")]),
        BackendMessage::DeletedComment(comment(3, 1, "hello")),
        BackendMessage::UpdatedComment(comment(3, 1, "hello, again")),
    ]
}

#[test]
fn every_request_round_trips() {
    for m in frontend_samples() {
        let bytes = m.encode();
        assert_eq!(FrontendMessage::decode(&bytes), Ok(m));
    }
}

#[test]
fn every_event_round_trips() {
    for m in backend_samples() {
        let bytes = m.encode();
        assert_eq!(BackendMessage::decode(&bytes), Ok(m));
    }
}

#[test]
fn every_envelope_round_trips_in_its_direction() {
    for m in frontend_samples() {
        let e = Envelope::ClientRequest(m);
        assert_eq!(e.direction(), Direction::ToServer);
        let bytes = encode(&e);
        assert_eq!(decode(Direction::ToServer, &bytes), Ok(e));
    }
    for m in backend_samples() {
        let e = Envelope::ServerEvent(m);
        assert_eq!(e.direction(), Direction::ToClient);
        let bytes = encode(&e);
        assert_eq!(decode(Direction::ToClient, &bytes), Ok(e));
    }
}

#[test]
fn login_has_these_bytes() {
    let bytes = FrontendMessage::Login("alice".to_string()).encode();
    assert_eq!(
        bytes,
        vec![1, 0, 0, 0, 5, 0, 0, 0, 0, 0, 0, 0, b'a', b'l', b'i', b'c', b'e']
    );
}

#[test]
fn close_without_reason_has_these_bytes() {
    assert_eq!(FrontendMessage::Close(None).encode(), vec![0, 0, 0, 0, 0]);
}

#[test]
fn close_with_reason_has_these_bytes() {
    let m = FrontendMessage::Close(Some(CloseReason {
        code: 1000,
        reason: Some("ok".to_string()),
    }));
    assert_eq!(
        m.encode(),
        vec![0, 0, 0, 0, 1, 0xe8, 0x03, 1, 2, 0, 0, 0, 0, 0, 0, 0, b'o', b'k']
    );
}

#[test]
fn negative_ids_are_laid_out_in_twos_complement() {
    let m = BackendMessage::NewComment(comment(-1, -2, ""));
    assert_eq!(
        m.encode(),
        vec![
            1, 0, 0, 0, 0xff, 0xff, 0xff, 0xff, 0xfe, 0xff, 0xff, 0xff, 0, 0, 0, 0, 0, 0, 0, 0
        ]
    );
}

#[test]
fn list_of_comments_has_these_bytes() {
    let m = BackendMessage::Comments(vec![comment(1, 2, "a")]);
    assert_eq!(
        m.encode(),
        vec![
            3, 0, 0, 0, 1, 0, 0, 0, 0, 0, 0, 0, 1, 0, 0, 0, 2, 0, 0, 0, 1, 0, 0, 0, 0, 0, 0, 0,
            b'a'
        ]
    );
}

#[test]
fn requests_are_laid_out_as_bincode_lays_them_out() {
    let login = FrontendMessage::Login("alice".to_string()).encode();
    assert_eq!(login, bincode::serialize(&(1u32, "alice")).unwrap());

    let insert = FrontendMessage::InsertComment((user(7, "bob"), "hi there".to_string())).encode();
    assert_eq!(insert, bincode::serialize(&(2u32, ((7i32, "bob"), "hi there"))).unwrap());

    let delete = FrontendMessage::DeleteComment(comment(-3, 9, "x")).encode();
    assert_eq!(delete, bincode::serialize(&(3u32, (-3i32, 9i32, "x"))).unwrap());

    let close = FrontendMessage::Close(Some(CloseReason {
        code: 1001,
        reason: Some("away".to_string()),
    }))
    .encode();
    assert_eq!(close, bincode::serialize(&(0u32, Some((1001u16, Some("away"))))).unwrap());

    let none: Option<(u16, Option<String>)> = None;
    assert_eq!(FrontendMessage::Close(None).encode(), bincode::serialize(&(0u32, none)).unwrap());
}

#[test]
fn events_are_laid_out_as_bincode_lays_them_out() {
    let logged_in = BackendMessage::LoggedIn(user(1, "alice")).encode();
    assert_eq!(logged_in, bincode::serialize(&(0u32, (1i32, "alice"))).unwrap());

    let list = BackendMessage::Comments(vec![comment(1, 2, "a"), comment(3, 4, "bc")]).encode();
    assert_eq!(
        list,
        bincode::serialize(&(3u32, vec![(1i32, 2i32, "a"), (3i32, 4i32, "bc")])).unwrap()
    );

    let deleted = BackendMessage::DeletedComment(comment(5, 6, "gone")).encode();
    assert_eq!(deleted, bincode::serialize(&(4u32, (5i32, 6i32, "gone"))).unwrap());
}

#[test]
fn bincode_reads_what_was_encoded() {
    let bytes = BackendMessage::InsertedComment(comment(11, 12, "\u{e9}t\u{e9}")).encode();
    let read: (u32, (i32, i32, String)) = bincode::deserialize(&bytes).unwrap();
    assert_eq!(read, (2, (11, 12, "\u{e9}t\u{e9}".to_string())));
}

#[test]
fn what_bincode_wrote_is_decoded() {
    let bytes = bincode::serialize(&(2u32, ((4i32, "dora"), "text"))).unwrap();
    assert_eq!(
        FrontendMessage::decode(&bytes),
        Ok(FrontendMessage::InsertComment((user(4, "dora"), "text".to_string())))
    );
}

#[test]
fn bytes_behind_the_encoding_are_not_looked_at() {
    let m = FrontendMessage::Login("alice".to_string());
    let mut bytes = m.encode();
    bytes.extend_from_slice(&[9, 9, 9]);
    assert_eq!(FrontendMessage::decode(&bytes), Ok(m));
}

#[test]
fn empty_input_is_malformed() {
    assert_eq!(FrontendMessage::decode(&[]), Err(ProtocolError::Malformed));
    assert_eq!(BackendMessage::decode(&[]), Err(ProtocolError::Malformed));
}

#[test]
fn unknown_variant_index_is_malformed() {
    assert_eq!(FrontendMessage::decode(&[4, 0, 0, 0, 0]), Err(ProtocolError::Malformed));
    assert_eq!(BackendMessage::decode(&[6, 0, 0, 0, 0]), Err(ProtocolError::Malformed));
    assert_eq!(FrontendMessage::decode(&[1, 0, 0, 1, 0]), Err(ProtocolError::Malformed));
}

#[test]
fn truncated_body_is_malformed() {
    let bytes = FrontendMessage::Login("alice".to_string()).encode();
    for cut in 0..bytes.len() {
        assert_eq!(FrontendMessage::decode(&bytes[..cut]), Err(ProtocolError::Malformed));
    }
    let bytes = BackendMessage::Comments(vec![comment(1, 2, "a"), comment(3, 4, "b")]).encode();
    for cut in 0..bytes.len() {
        assert_eq!(BackendMessage::decode(&bytes[..cut]), Err(ProtocolError::Malformed));
    }
}

#[test]
fn text_that_is_not_utf8_is_malformed() {
    let bytes = vec![1, 0, 0, 0, 2, 0, 0, 0, 0, 0, 0, 0, 0xc3, 0x28];
    assert_eq!(FrontendMessage::decode(&bytes), Err(ProtocolError::Malformed));
}

#[test]
fn option_tag_other_than_zero_or_one_is_malformed() {
    assert_eq!(FrontendMessage::decode(&[0, 0, 0, 0, 2]), Err(ProtocolError::Malformed));
}

#[test]
fn length_beyond_the_input_is_malformed() {
    let bytes = vec![1, 0, 0, 0, 0xff, 0xff, 0xff, 0xff, 0xff, 0xff, 0xff, 0xff, b'a'];
    assert_eq!(FrontendMessage::decode(&bytes), Err(ProtocolError::Malformed));
    let list = vec![3, 0, 0, 0, 0xff, 0xff, 0xff, 0xff, 0xff, 0xff, 0xff, 0xff];
    assert_eq!(BackendMessage::decode(&list), Err(ProtocolError::Malformed));
}

#[test]
fn a_request_is_not_decoded_as_an_event_of_another_shape() {
    let bytes = FrontendMessage::Close(None).encode();
    assert_eq!(decode(Direction::ToClient, &bytes), Err(ProtocolError::Malformed));
}
