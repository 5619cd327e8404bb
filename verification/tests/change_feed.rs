use comment_relay::channel_listeners::forward;
use comment_relay::channel_listeners::start_listening;
use comment_relay::channel_listeners::ActionType;
use comment_relay::channel_listeners::Channel;
use comment_relay::channel_listeners::CommentsPayload;
use comment_relay::channel_listeners::Listener;
use comment_relay::channel_listeners::ListenerAction;
use comment_relay::channel_listeners::ListenerEvent;
use comment_relay::channel_listeners::ListenerState;
use comment_relay::comments::Comment;
use comment_relay::errors::ListenerStartError;
use comment_relay::errors::NotificationParseError;
use comment_relay::messages::BackendMessage;
use comment_relay::users::User;

fn change(action_type: ActionType, id: i32, user_id: i32, body: &str) -> CommentsPayload {
    CommentsPayload { action_type, id, user_id, body: body.to_string() }
}

fn notification(text: &str) -> ListenerEvent {
    ListenerEvent::Notification(text.to_string())
}

#[test]
fn change_has_this_text() {
    let text = change(ActionType::INSERT, 10, 1, "hello").to_json();
    assert_eq!(
        text,
        "{\"action_type\":\"INSERT\",\"id\":10,\"user_id\":1,\"body\":\"hello\"}"
    );
    let text = change(ActionType::UPDATE, -1, 0, "a\"b").to_json();
    assert_eq!(
        text,
        "{\"action_type\":\"UPDATE\",\"id\":-1,\"user_id\":0,\"body\":\"a\\\"b\"}"
    );
    let text = change(ActionType::DELETE, 0, 7, "").to_json();
    assert_eq!(
        text,
        "{\"action_type\":\"DELETE\",\"id\":0,\"user_id\":7,\"body\":\"\"}"
    );
}

#[test]
fn text_of_a_change_is_parsed_back() {
    for action in [ActionType::INSERT, ActionType::UPDATE, ActionType::DELETE] {
        for body in ["", "hello", "a\"b\\c\n\u{1}\u{e9}\u{1f600}", "}", "\"INSERT\""] {
            let original = change(action, -5, i32::MAX, body);
            let text = original.to_json();
            assert_eq!(CommentsPayload::parse(&text), Ok(original));
        }
    }
}

#[test]
fn serde_json_reads_the_text_of_a_change_as_the_same_value() {
    let text = change(ActionType::UPDATE, 3, 4, "x\ty").to_json();
    let value: serde_json::Value = serde_json::from_str(&text).unwrap();
    assert_eq!(value.get("action_type").unwrap().as_str(), Some("UPDATE"));
    assert_eq!(value.get("id").unwrap().as_i64(), Some(3));
    assert_eq!(value.get("user_id").unwrap().as_i64(), Some(4));
    assert_eq!(value.get("body").unwrap().as_str(), Some("x\ty"));
}

#[test]
fn anything_else_is_a_parse_error() {
    for text in [
        "",
        "{}",
        "null",
        "hello",
        "{\"action_type\":\"INSERT\"}",
        "{\"action_type\":\"insert\",\"id\":1,\"user_id\":2,\"body\":\"x\"}",
        "{\"action_type\":\"TRUNCATE\",\"id\":1,\"user_id\":2,\"body\":\"x\"}",
        "{\"action_type\":\"INSERT\",\"id\":1,\"user_id\":2,\"body\":\"x\"} ",
        "{\"action_type\":\"INSERT\",\"id\":1,\"user_id\":2,\"body\":\"x\"}x",
        "{\"action_type\":\"INSERT\", \"id\":1,\"user_id\":2,\"body\":\"x\"}",
        "{\"action_type\":\"INSERT\",\"id\":1,\"user_id\":2,\"body\":\"x\"",
        "{\"action_type\":\"INSERT\",\"id\":1,\"user_id\":2,\"body\":x}",
        "{\"action_type\":\"INSERT\",\"id\":\"1\",\"user_id\":2,\"body\":\"x\"}",
        "{\"action_type\":\"INSERT\",\"id\":1,\"user_id\":2}",
        "{\"action_type\":\"INSERT\",\"id\":4294967296,\"user_id\":2,\"body\":\"x\"}",
        "{\"id\":1,\"user_id\":2,\"body\":\"x\",\"action_type\":\"INSERT\"}",
    ] {
        assert_eq!(CommentsPayload::parse(text), Err(NotificationParseError), "{}", text);
    }
}

#[test]
fn change_turns_into_its_comment() {
    assert_eq!(
        change(ActionType::INSERT, 10, 1, "hello").into_comment(),
        Comment { id: 10, user_id: 1, body: "hello".to_string() }
    );
}

#[test]
fn channels_forward_by_action() {
    let c = Comment { id: 10, user_id: 1, body: "hello".to_string() };
    let global = Channel::CommentsChannel;
    let own = Channel::CommentsUserChannel(1);
    assert_eq!(
        forward(global, change(ActionType::INSERT, 10, 1, "hello")),
        Some(BackendMessage::NewComment(c.clone()))
    );
    assert_eq!(
        forward(global, change(ActionType::UPDATE, 10, 1, "hello")),
        Some(BackendMessage::UpdatedComment(c.clone()))
    );
    assert_eq!(
        forward(global, change(ActionType::DELETE, 10, 1, "hello")),
        Some(BackendMessage::DeletedComment(c.clone()))
    );
    assert_eq!(
        forward(own, change(ActionType::INSERT, 10, 1, "hello")),
        Some(BackendMessage::InsertedComment(c))
    );
    assert_eq!(forward(own, change(ActionType::UPDATE, 10, 1, "hello")), None);
    assert_eq!(forward(own, change(ActionType::DELETE, 10, 1, "hello")), None);
}

#[test]
fn channels_have_these_names() {
    assert_eq!(Channel::CommentsChannel.name(), "comments");
    assert_eq!(Channel::CommentsUserChannel(1).name(), "comments_user_1");
    assert_eq!(Channel::CommentsUserChannel(0).name(), "comments_user_0");
    assert_eq!(Channel::CommentsUserChannel(1234567890).name(), "comments_user_1234567890");
    assert_eq!(Channel::CommentsUserChannel(-7).name(), "comments_user_-7");
    assert_eq!(Channel::CommentsUserChannel(i32::MIN).name(), "comments_user_-2147483648");
    assert_eq!(Channel::CommentsUserChannel(i32::MAX).name(), "comments_user_2147483647");
}

#[test]
fn channel_of_an_identity_is_its_own() {
    let user = User { id: 42, username: "alice".to_string() };
    assert_eq!(Channel::new(&user), Channel::CommentsUserChannel(42));
}

#[test]
fn listener_subscribes_once_connected() {
    let mut listener = start_listening(Channel::CommentsUserChannel(3));
    assert_eq!(listener.state, ListenerState::Connecting);
    assert_eq!(
        listener.step(ListenerEvent::Connected),
        ListenerAction::Subscribe(Channel::CommentsUserChannel(3))
    );
    assert_eq!(listener.state, ListenerState::Listening);
    assert_eq!(listener.channel, Channel::CommentsUserChannel(3));
}

#[test]
fn listener_hands_on_each_well_formed_notification() {
    let mut listener = start_listening(Channel::CommentsChannel);
    listener.step(ListenerEvent::Connected);
    let text = change(ActionType::INSERT, 1, 2, "a").to_json();
    assert_eq!(
        listener.step(notification(&text)),
        ListenerAction::Deliver(change(ActionType::INSERT, 1, 2, "a"))
    );
    let text = change(ActionType::DELETE, 1, 2, "a").to_json();
    assert_eq!(
        listener.step(notification(&text)),
        ListenerAction::Deliver(change(ActionType::DELETE, 1, 2, "a"))
    );
    assert_eq!(listener.state, ListenerState::Listening);
}

#[test]
fn one_bad_notification_does_not_end_the_subscription() {
    let mut listener = start_listening(Channel::CommentsChannel);
    listener.step(ListenerEvent::Connected);
    assert_eq!(
        listener.step(notification("not a change")),
        ListenerAction::Skip(NotificationParseError)
    );
    assert_eq!(listener.state, ListenerState::Listening);
    let text = change(ActionType::UPDATE, 1, 2, "a").to_json();
    assert_eq!(
        listener.step(notification(&text)),
        ListenerAction::Deliver(change(ActionType::UPDATE, 1, 2, "a"))
    );
}

#[test]
fn failure_to_connect_is_reported_once_and_ends_the_listener() {
    let mut listener = start_listening(Channel::CommentsChannel);
    assert_eq!(
        listener.step(ListenerEvent::ConnectFailed),
        ListenerAction::Report(ListenerStartError)
    );
    assert_eq!(listener.state, ListenerState::Ended);
    assert_eq!(listener.step(ListenerEvent::ConnectFailed), ListenerAction::Nothing);
    assert_eq!(listener.step(ListenerEvent::Connected), ListenerAction::Nothing);
    assert_eq!(listener.state, ListenerState::Ended);
}

#[test]
fn cancelled_listener_releases_its_connection_and_is_silent() {
    let mut listener = start_listening(Channel::CommentsChannel);
    listener.step(ListenerEvent::Connected);
    assert_eq!(listener.step(ListenerEvent::Cancelled), ListenerAction::Release);
    assert_eq!(listener.state, ListenerState::Ended);
    let text = change(ActionType::INSERT, 1, 2, "a").to_json();
    assert_eq!(listener.step(notification(&text)), ListenerAction::Nothing);
    assert_eq!(listener.step(ListenerEvent::Cancelled), ListenerAction::Nothing);
    assert_eq!(listener.step(ListenerEvent::ConnectionLost), ListenerAction::Nothing);
    assert_eq!(listener.state, ListenerState::Ended);
}

#[test]
fn listener_cancelled_before_it_connected_holds_nothing() {
    let mut listener = start_listening(Channel::CommentsChannel);
    assert_eq!(listener.step(ListenerEvent::Cancelled), ListenerAction::Nothing);
    assert_eq!(listener.state, ListenerState::Ended);
}

#[test]
fn lost_connection_ends_the_listener_without_retry() {
    let mut listener = start_listening(Channel::CommentsChannel);
    listener.step(ListenerEvent::Connected);
    assert_eq!(listener.step(ListenerEvent::ConnectionLost), ListenerAction::Release);
    assert_eq!(listener.state, ListenerState::Ended);
    assert_eq!(listener.step(ListenerEvent::Connected), ListenerAction::Nothing);
}

#[test]
fn connecting_listener_ignores_notifications() {
    let mut listener = start_listening(Channel::CommentsChannel);
    let text = change(ActionType::INSERT, 1, 2, "a").to_json();
    assert_eq!(listener.step(notification(&text)), ListenerAction::Nothing);
    assert_eq!(listener.step(ListenerEvent::ConnectionLost), ListenerAction::Nothing);
    assert_eq!(listener.state, ListenerState::Connecting);
}

#[test]
fn cancelling_one_listener_leaves_another_on_the_same_channel() {
    let mut first = start_listening(Channel::CommentsChannel);
    let mut second: Listener = start_listening(Channel::CommentsChannel);
    first.step(ListenerEvent::Connected);
    second.step(ListenerEvent::Connected);
    first.step(ListenerEvent::Cancelled);
    let text = change(ActionType::INSERT, 1, 2, "a").to_json();
    assert_eq!(
        second.step(notification(&text)),
        ListenerAction::Deliver(change(ActionType::INSERT, 1, 2, "a"))
    );
}
