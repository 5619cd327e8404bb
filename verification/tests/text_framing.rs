use comment_relay::codec::ProtocolError;
use comment_relay::comments::Comment;
use comment_relay::messages::BackendMessage;
use comment_relay::messages::CloseReason;
use comment_relay::messages::Direction;
use comment_relay::messages::Envelope;
use comment_relay::messages::FrontendMessage;
use comment_relay::text_codec::decode_text;
use comment_relay::text_codec::encode_text;
use comment_relay::users::User;

fn user(id: i32, name: &str) -> User {
    User { id, username: name.to_string() }
}

fn comment(id: i32, user_id: i32, body: &str) -> Comment {
    Comment { id, user_id, body: body.to_string() }
}

fn text_of(bytes: Vec<u8>) -> String {
    String::from_utf8(bytes).unwrap()
}

#[test]
fn requests_have_these_texts() {
    assert_eq!(text_of(FrontendMessage::Close(None).encode_text()), "{\"Close\":null}");
    assert_eq!(
        text_of(
            FrontendMessage::Close(Some(CloseReason { code: 1000, reason: None })).encode_text()
        ),
        "{\"Close\":{\"code\":1000,\"reason\":null}}"
    );
    assert_eq!(
        text_of(
            FrontendMessage::Close(Some(CloseReason { code: 0, reason: Some("x".to_string()) }))
                .encode_text()
        ),
        "{\"Close\":{\"code\":0,\"reason\":\"x\"}}"
    );
    assert_eq!(
        text_of(FrontendMessage::Login("alice".to_string()).encode_text()),
        "{\"Login\":\"alice\"}"
    );
    assert_eq!(
        text_of(FrontendMessage::InsertComment((user(1, "alice"), "hello".to_string())).encode_text()),
        "{\"InsertComment\":[{\"id\":1,\"username\":\"alice\"},\"hello\"]}"
    );
    assert_eq!(
        text_of(FrontendMessage::DeleteComment(comment(3, -1, "hello")).encode_text()),
        "{\"DeleteComment\":{\"id\":3,\"user_id\":-1,\"body\":\"hello\"}}"
    );
}

#[test]
fn events_have_these_texts() {
    assert_eq!(
        text_of(BackendMessage::LoggedIn(user(1, "alice")).encode_text()),
        "{\"LoggedIn\":{\"id\":1,\"username\":\"alice\"}}"
    );
    assert_eq!(
        text_of(BackendMessage::NewComment(comment(3, 1, "hi")).encode_text()),
        "{\"NewComment\":{\"id\":3,\"user_id\":1,\"body\":\"hi\"}}"
    );
    assert_eq!(
        text_of(BackendMessage::InsertedComment(comment(3, 1, "hi")).encode_text()),
        "{\"InsertedComment\":{\"id\":3,\"user_id\":1,\"body\":\"hi\"}}"
    );
    assert_eq!(text_of(BackendMessage::Comments(vec![]).encode_text()), "{\"Comments\":[]}");
    assert_eq!(
        text_of(
            BackendMessage::Comments(vec![comment(1, 2, "a"), comment(3, 4, "b")]).encode_text()
        ),
        "{\"Comments\":[{\"id\":1,\"user_id\":2,\"body\":\"a\"},{\"id\":3,\"user_id\":4,\"body\":\"b\"}]}"
    );
    assert_eq!(
        text_of(BackendMessage::DeletedComment(comment(i32::MIN, i32::MAX, "")).encode_text()),
        "{\"DeletedComment\":{\"id\":-2147483648,\"user_id\":2147483647,\"body\":\"\"}}"
    );
    assert_eq!(
        text_of(BackendMessage::UpdatedComment(comment(0, 10, "z")).encode_text()),
        "{\"UpdatedComment\":{\"id\":0,\"user_id\":10,\"body\":\"z\"}}"
    );
}

#[test]
fn texts_are_escaped_as_json_asks() {
    let name = "q\"b\\s/\u{8}\u{c}\n\r\t\u{0}\u{1f}\u{7f}\u{e9}\u{1f600}";
    let text = text_of(FrontendMessage::Login(name.to_string()).encode_text());
    assert_eq!(
        text,
        "{\"Login\":\"q\\\"b\\\\s/\\b\\f\\n\\r\\t\\u0000\\u001f\u{7f}\u{e9}\u{1f600}\"}"
    );
    assert_eq!(text, format!("{{\"Login\":{}}}", serde_json::to_string(name).unwrap()));
}

#[test]
fn every_request_text_round_trips() {
    let samples = vec![
        FrontendMessage::Close(None),
        FrontendMessage::Close(Some(CloseReason { code: 1000, reason: None })),
        FrontendMessage::Close(Some(CloseReason { code: 65535, reason: Some("null".to_string()) })),
        FrontendMessage::Login(String::new()),
        FrontendMessage::Login("a\"\\\n\u{1}\u{10}\u{1f}\u{e9}\u{1f600}".to_string()),
        FrontendMessage::InsertComment((user(-2147483648, "bob"), "]}".to_string())),
        FrontendMessage::DeleteComment(comment(2147483647, 0, "{\"id\":1}")),
    ];
    for m in samples {
        let text = m.encode_text();
        assert_eq!(FrontendMessage::decode_text(&text), Ok(m));
    }
}

#[test]
fn every_event_text_round_trips() {
    let samples = vec![
        BackendMessage::LoggedIn(user(1, "alice")),
        BackendMessage::NewComment(comment(3, 1, "hello")),
        BackendMessage::InsertedComment(comment(3, 1, "hello")),
        BackendMessage::Comments(vec![]),
        BackendMessage::Comments(vec![comment(1, 1, "a")]),
        BackendMessage::Comments(vec![comment(1, 1, "a"), comment(2, -1, ","), comment(0, 0, "]")]),
        BackendMessage::DeletedComment(comment(3, 1, "hello")),
        BackendMessage::UpdatedComment(comment(3, 1, "hello")),
    ];
    for m in samples {
        let text = m.encode_text();
        assert_eq!(BackendMessage::decode_text(&text), Ok(m));
    }
}

#[test]
fn envelopes_round_trip_as_text() {
    let e = Envelope::ClientRequest(FrontendMessage::Login("alice".to_string()));
    let text = encode_text(&e);
    assert_eq!(decode_text(Direction::ToServer, &text), Ok(e));
    assert_eq!(decode_text(Direction::ToClient, &text), Err(ProtocolError::Malformed));
    let e = Envelope::ServerEvent(BackendMessage::LoggedIn(user(1, "alice")));
    let text = encode_text(&e);
    assert_eq!(decode_text(Direction::ToClient, &text), Ok(e));
    assert_eq!(decode_text(Direction::ToServer, &text), Err(ProtocolError::Malformed));
}

#[test]
fn serde_json_reads_the_text_as_the_same_value() {
    let m = BackendMessage::Comments(vec![comment(1, 2, "a\n\"b\""), comment(-3, 4, "\u{e9}")]);
    let value: serde_json::Value = serde_json::from_slice(&m.encode_text()).unwrap();
    let list = value.get("Comments").unwrap().as_array().unwrap();
    assert_eq!(list.len(), 2);
    assert_eq!(list[0].get("id").unwrap().as_i64(), Some(1));
    assert_eq!(list[0].get("user_id").unwrap().as_i64(), Some(2));
    assert_eq!(list[0].get("body").unwrap().as_str(), Some("a\n\"b\""));
    assert_eq!(list[1].get("id").unwrap().as_i64(), Some(-3));
    assert_eq!(list[1].get("body").unwrap().as_str(), Some("\u{e9}"));

    let m = FrontendMessage::InsertComment((user(5, "eve"), "t\tt".to_string()));
    let value: serde_json::Value = serde_json::from_slice(&m.encode_text()).unwrap();
    let pair = value.get("InsertComment").unwrap().as_array().unwrap();
    assert_eq!(pair[0].get("id").unwrap().as_i64(), Some(5));
    assert_eq!(pair[0].get("username").unwrap().as_str(), Some("eve"));
    assert_eq!(pair[1].as_str(), Some("t\tt"));
}

fn rejected(text: &str) {
    assert_eq!(
        FrontendMessage::decode_text(text.as_bytes()),
        Err(ProtocolError::Malformed),
        "{}",
        text
    );
}

#[test]
fn only_the_one_text_of_a_request_is_accepted() {
    rejected("");
    rejected("{}");
    rejected("{\"Login\":\"alice\"} ");
    rejected(" {\"Login\":\"alice\"}");
    rejected("{\"Login\": \"alice\"}");
    rejected("{\"Login\":\"alice\"}{\"Login\":\"alice\"}");
    rejected("{\"Login\":\"alice\"");
    rejected("{\"Login\":alice}");
    rejected("{\"login\":\"alice\"}");
    rejected("{\"Logout\":\"alice\"}");
    rejected("{\"Login\":\"ali\u{1}ce\"}");
    rejected("{\"Login\":\"\\u0041\"}");
    rejected("{\"Login\":\"\\u000a\"}");
    rejected("{\"Login\":\"\\u001F\"}");
    rejected("{\"Login\":\"\\x\"}");
    rejected("{\"Login\":\"\\\"}");
    rejected("{\"Close\":nul}");
    rejected("{\"Close\":{\"code\":65536,\"reason\":null}}");
    rejected("{\"Close\":{\"code\":-1,\"reason\":null}}");
    rejected("{\"Close\":{\"code\":01,\"reason\":null}}");
    rejected("{\"Close\":{\"reason\":null,\"code\":1}}");
    rejected("{\"DeleteComment\":{\"id\":2147483648,\"user_id\":0,\"body\":\"\"}}");
    rejected("{\"DeleteComment\":{\"id\":-2147483649,\"user_id\":0,\"body\":\"\"}}");
    rejected("{\"DeleteComment\":{\"id\":-0,\"user_id\":0,\"body\":\"\"}}");
    rejected("{\"DeleteComment\":{\"id\":+1,\"user_id\":0,\"body\":\"\"}}");
    rejected("{\"DeleteComment\":{\"id\":1.0,\"user_id\":0,\"body\":\"\"}}");
    rejected("{\"DeleteComment\":{\"id\":,\"user_id\":0,\"body\":\"\"}}");
    rejected("{\"DeleteComment\":{\"id\":99999999999999999999999,\"user_id\":0,\"body\":\"\"}}");
    rejected("{\"InsertComment\":[{\"id\":1,\"username\":\"a\"},\"b\",\"c\"]}");
    rejected("{\"InsertComment\":[{\"id\":1,\"username\":\"a\"}]}");
}

#[test]
fn text_that_is_not_utf8_between_the_quotes_is_malformed() {
    let mut bytes = b"{\"Login\":\"".to_vec();
    bytes.extend_from_slice(&[0xc3, 0x28]);
    bytes.extend_from_slice(b"\"}");
    assert_eq!(FrontendMessage::decode_text(&bytes), Err(ProtocolError::Malformed));
}

#[test]
fn only_the_one_text_of_an_event_is_accepted() {
    for text in [
        "{\"Comments\":[,]}",
        "{\"Comments\":[{\"id\":1,\"user_id\":2,\"body\":\"a\"},]}",
        "{\"Comments\":[{\"id\":1,\"user_id\":2,\"body\":\"a\"}{\"id\":1,\"user_id\":2,\"body\":\"a\"}]}",
        "{\"Comments\":[{\"id\":1,\"user_id\":2,\"body\":\"a\"}",
        "{\"Comments\":[ ]}",
        "{\"Comments\":null}",
        "{\"NewComment\":{\"id\":1,\"user_id\":2,\"body\":\"a\",\"extra\":1}}",
        "{\"NewComment\":{\"id\":1,\"body\":\"a\",\"user_id\":2}}",
        "{\"LoggedIn\":{\"id\":1,\"username\":null}}",
        "{\"Login\":\"alice\"}",
    ] {
        assert_eq!(
            BackendMessage::decode_text(text.as_bytes()),
            Err(ProtocolError::Malformed),
            "{}",
            text
        );
    }
}

#[test]
fn text_as_a_string_is_the_text() {
    let m = FrontendMessage::Login("gr\u{fc}\u{df}e \"\u{1f600}\"\n".to_string());
    assert_eq!(m.to_text().into_bytes(), m.encode_text());
    assert_eq!(m.to_text(), "{\"Login\":\"gr\u{fc}\u{df}e \\\"\u{1f600}\\\"\\n\"}");
    let e = BackendMessage::Comments(vec![comment(1, 2, "\u{e9}"), comment(3, 4, "\u{0}")]);
    assert_eq!(e.to_text().into_bytes(), e.encode_text());
    assert_eq!(BackendMessage::decode_text(e.to_text().as_bytes()), Ok(e));
}
