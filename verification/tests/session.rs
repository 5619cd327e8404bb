use comment_relay::channel_listeners::ActionType;
use comment_relay::channel_listeners::Channel;
use comment_relay::channel_listeners::CommentsPayload;
use comment_relay::comments::Comment;
use comment_relay::errors::ListenerStartError;
use comment_relay::errors::PersistenceError;
use comment_relay::errors::TransportError;
use comment_relay::frames::Frame;
use comment_relay::messages::BackendMessage;
use comment_relay::messages::CloseReason;
use comment_relay::messages::FrontendMessage;
use comment_relay::models::NewComment;
use comment_relay::models::NewUser;
use comment_relay::users::User;
use comment_relay::ws::Action;
use comment_relay::ws::Subscription;
use comment_relay::ws::WebSocket;

fn alice() -> User {
    User { id: 1, username: "alice".to_string() }
}

fn bob() -> User {
    User { id: 2, username: "bob".to_string() }
}

fn global() -> Subscription {
    Subscription { channel: Channel::CommentsChannel, handle: 0 }
}

fn own(user: &User) -> Subscription {
    Subscription { channel: Channel::CommentsUserChannel(user.id), handle: 1 }
}

fn change(action_type: ActionType, id: i32, user_id: i32, body: &str) -> CommentsPayload {
    CommentsPayload { action_type, id, user_id, body: body.to_string() }
}

fn comment(id: i32, user_id: i32, body: &str) -> Comment {
    Comment { id, user_id, body: body.to_string() }
}

fn logged_in(user: &User) -> WebSocket {
    let mut session = WebSocket::new();
    session.request(FrontendMessage::Login(user.username.clone()));
    session.login_result(Ok(user.clone()));
    session
}

#[test]
fn new_session_is_anonymous() {
    let session = WebSocket::new();
    assert!(!session.is_closed());
    assert_eq!(session.user(), None);
    assert_eq!(session.subscriptions(), vec![]);
}

#[test]
fn anonymous_session_takes_up_login() {
    let mut session = WebSocket::new();
    let actions = session.request(FrontendMessage::Login("alice".to_string()));
    assert_eq!(actions, vec![Action::InsertOrGetUser(NewUser { username: "alice".to_string() })]);
    assert_eq!(session.user(), None);
    assert!(!session.is_closed());
}

#[test]
fn anonymous_session_leaves_other_requests_alone() {
    let mut session = WebSocket::new();
    let actions = session.request(FrontendMessage::InsertComment((alice(), "hello".to_string())));
    assert_eq!(actions, vec![]);
    let actions = session.request(FrontendMessage::DeleteComment(comment(3, 1, "hello")));
    assert_eq!(actions, vec![]);
    assert_eq!(session.user(), None);
    assert!(!session.is_closed());
    assert_eq!(session.subscriptions(), vec![]);
}

#[test]
fn successful_login_confirms_and_subscribes_twice() {
    let mut session = WebSocket::new();
    session.request(FrontendMessage::Login("alice".to_string()));
    let actions = session.login_result(Ok(alice()));
    assert_eq!(
        actions,
        vec![
            Action::Send(BackendMessage::LoggedIn(alice())),
            Action::Listen(global()),
            Action::Listen(own(&alice())),
        ]
    );
    assert_eq!(session.user(), Some(alice()));
    assert_eq!(session.subscriptions(), vec![global(), own(&alice())]);
    assert!(session.subscribed(Channel::CommentsChannel));
    assert!(session.subscribed(Channel::CommentsUserChannel(1)));
    assert!(!session.subscribed(Channel::CommentsUserChannel(2)));
}

#[test]
fn failed_login_leaves_the_session_anonymous() {
    let mut session = WebSocket::new();
    session.request(FrontendMessage::Login("alice".to_string()));
    let actions = session.login_result(Err(PersistenceError));
    assert_eq!(actions, vec![]);
    assert_eq!(session.user(), None);
    assert_eq!(session.subscriptions(), vec![]);
    let actions = session.request(FrontendMessage::Login("alice".to_string()));
    assert_eq!(actions.len(), 1);
}

#[test]
fn authenticated_session_writes_through_to_the_store() {
    let mut session = logged_in(&alice());
    let actions = session.request(FrontendMessage::InsertComment((alice(), "hello".to_string())));
    assert_eq!(
        actions,
        vec![Action::InsertComment(NewComment { user_id: 1, body: "hello".to_string() })]
    );
    let actions = session.request(FrontendMessage::DeleteComment(comment(3, 1, "hello")));
    assert_eq!(actions, vec![Action::DeleteComment(comment(3, 1, "hello"))]);
    assert_eq!(session.user(), Some(alice()));
}

#[test]
fn second_login_is_not_taken_up() {
    let mut session = logged_in(&alice());
    let actions = session.request(FrontendMessage::Login("bob".to_string()));
    assert_eq!(actions, vec![]);
    let actions = session.login_result(Ok(bob()));
    assert_eq!(actions, vec![]);
    assert_eq!(session.user(), Some(alice()));
    assert_eq!(session.subscriptions().len(), 2);
}

#[test]
fn creation_by_another_identity_arrives_as_new_comment_only() {
    let session = logged_in(&alice());
    let created = change(ActionType::INSERT, 5, 2, "from bob");
    assert_eq!(
        session.notify(Channel::CommentsChannel, created),
        Some(BackendMessage::NewComment(comment(5, 2, "from bob")))
    );
    let created = change(ActionType::INSERT, 5, 2, "from bob");
    assert_eq!(session.notify(Channel::CommentsUserChannel(2), created), None);
}

#[test]
fn global_channel_forwards_updates_and_deletions() {
    let session = logged_in(&alice());
    assert_eq!(
        session.notify(Channel::CommentsChannel, change(ActionType::UPDATE, 5, 2, "new")),
        Some(BackendMessage::UpdatedComment(comment(5, 2, "new")))
    );
    assert_eq!(
        session.notify(Channel::CommentsChannel, change(ActionType::DELETE, 5, 2, "new")),
        Some(BackendMessage::DeletedComment(comment(5, 2, "new")))
    );
}

#[test]
fn own_channel_forwards_creations_only() {
    let session = logged_in(&alice());
    let channel = Channel::CommentsUserChannel(1);
    assert_eq!(
        session.notify(channel, change(ActionType::INSERT, 6, 1, "mine")),
        Some(BackendMessage::InsertedComment(comment(6, 1, "mine")))
    );
    assert_eq!(session.notify(channel, change(ActionType::UPDATE, 6, 1, "mine")), None);
    assert_eq!(session.notify(channel, change(ActionType::DELETE, 6, 1, "mine")), None);
}

#[test]
fn anonymous_session_receives_no_changes() {
    let session = WebSocket::new();
    assert_eq!(
        session.notify(Channel::CommentsChannel, change(ActionType::INSERT, 6, 1, "x")),
        None
    );
}

#[test]
fn close_cancels_both_subscriptions() {
    let mut session = logged_in(&alice());
    let actions = session.close();
    assert_eq!(
        actions,
        vec![Action::Cancel(global()), Action::Cancel(own(&alice())), Action::Stop]
    );
    assert!(session.is_closed());
    assert_eq!(session.subscriptions(), vec![]);
    assert_eq!(session.user(), None);
}

#[test]
fn closed_session_is_silent() {
    let mut session = logged_in(&alice());
    session.close();
    assert_eq!(
        session.notify(Channel::CommentsChannel, change(ActionType::INSERT, 6, 1, "x")),
        None
    );
    assert_eq!(
        session.notify(Channel::CommentsUserChannel(1), change(ActionType::INSERT, 6, 1, "x")),
        None
    );
    assert_eq!(session.request(FrontendMessage::Login("alice".to_string())), vec![]);
    assert_eq!(
        session.request(FrontendMessage::InsertComment((alice(), "hello".to_string()))),
        vec![]
    );
    assert_eq!(session.request(FrontendMessage::Close(None)), vec![]);
    assert_eq!(session.login_result(Ok(alice())), vec![]);
    assert_eq!(session.close(), vec![]);
    assert_eq!(session.handle(Err(TransportError)), vec![]);
    assert!(session.is_closed());
}

#[test]
fn close_request_ends_an_anonymous_session() {
    let mut session = WebSocket::new();
    let reason = CloseReason { code: 1000, reason: None };
    let actions = session.request(FrontendMessage::Close(Some(reason)));
    assert_eq!(actions, vec![Action::Stop]);
    assert!(session.is_closed());
}

#[test]
fn close_request_ends_an_authenticated_session() {
    let mut session = logged_in(&alice());
    let actions = session.request(FrontendMessage::Close(None));
    assert_eq!(
        actions,
        vec![Action::Cancel(global()), Action::Cancel(own(&alice())), Action::Stop]
    );
    assert!(session.is_closed());
}

#[test]
fn transport_failure_ends_the_session() {
    let mut session = logged_in(&alice());
    let actions = session.handle(Err(TransportError));
    assert_eq!(
        actions,
        vec![Action::Cancel(global()), Action::Cancel(own(&alice())), Action::Stop]
    );
    assert!(session.is_closed());
}

#[test]
fn protocol_error_ends_the_session() {
    let mut session = logged_in(&alice());
    let actions = session.handle(Ok(Frame::Binary(vec![0xff])));
    assert_eq!(
        actions,
        vec![Action::Cancel(global()), Action::Cancel(own(&alice())), Action::Stop]
    );
    assert!(session.is_closed());

    let mut session = WebSocket::new();
    assert_eq!(session.handle(Ok(Frame::Ping(vec![]))), vec![Action::Stop]);
    assert!(session.is_closed());
}

#[test]
fn frames_are_taken_up_as_the_requests_they_carry() {
    let mut session = WebSocket::new();
    let login = FrontendMessage::Login("alice".to_string());
    let actions = session.handle(Ok(login.into_frame()));
    assert_eq!(actions, vec![Action::InsertOrGetUser(NewUser { username: "alice".to_string() })]);
    session.login_result(Ok(alice()));
    let actions = session.handle(Ok(Frame::Text(
        "{\"InsertComment\":[{\"id\":1,\"username\":\"alice\"},\"hello\"]}".to_string(),
    )));
    assert_eq!(
        actions,
        vec![Action::InsertComment(NewComment { user_id: 1, body: "hello".to_string() })]
    );
    let actions = session.handle(Ok(Frame::Close(None)));
    assert_eq!(actions.last(), Some(&Action::Stop));
    assert!(session.is_closed());
}

#[test]
fn failed_listener_is_dropped_and_the_session_goes_on() {
    let mut session = logged_in(&alice());
    session.listener_failed(Channel::CommentsUserChannel(1), ListenerStartError);
    assert_eq!(session.subscriptions(), vec![global()]);
    assert_eq!(
        session.notify(Channel::CommentsUserChannel(1), change(ActionType::INSERT, 6, 1, "x")),
        None
    );
    assert_eq!(
        session.notify(Channel::CommentsChannel, change(ActionType::INSERT, 6, 1, "x")),
        Some(BackendMessage::NewComment(comment(6, 1, "x")))
    );
    assert_eq!(session.user(), Some(alice()));
    assert_eq!(session.close(), vec![Action::Cancel(global()), Action::Stop]);

    let mut session = logged_in(&alice());
    session.listener_failed(Channel::CommentsChannel, ListenerStartError);
    session.listener_failed(Channel::CommentsChannel, ListenerStartError);
    assert_eq!(session.subscriptions(), vec![own(&alice())]);
    session.listener_failed(Channel::CommentsUserChannel(9), ListenerStartError);
    assert_eq!(session.subscriptions(), vec![own(&alice())]);
}

#[test]
fn closing_one_session_leaves_another_subscribed() {
    let mut first = logged_in(&alice());
    let second = logged_in(&bob());
    first.close();
    assert_eq!(
        second.notify(Channel::CommentsChannel, change(ActionType::INSERT, 6, 1, "x")),
        Some(BackendMessage::NewComment(comment(6, 1, "x")))
    );
    assert_eq!(second.subscriptions().len(), 2);
}

#[test]
fn login_then_create_reaches_owner_and_everybody() {
    let mut alice_session = WebSocket::new();
    let mut bob_session = WebSocket::new();

    let asked = alice_session.handle(Ok(FrontendMessage::Login("alice".to_string()).into_frame()));
    assert_eq!(asked, vec![Action::InsertOrGetUser(NewUser::new("alice"))]);
    let answered = alice_session.login_result(Ok(alice()));
    assert_eq!(answered[0], Action::Send(BackendMessage::LoggedIn(alice())));
    bob_session.request(FrontendMessage::Login("bob".to_string()));
    bob_session.login_result(Ok(bob()));

    let create = FrontendMessage::InsertComment((alice(), "hello".to_string()));
    let written = alice_session.handle(Ok(create.into_frame()));
    assert_eq!(written, vec![Action::InsertComment(NewComment::new(1, "hello"))]);

    let published = change(ActionType::INSERT, 10, 1, "hello").to_json();
    let on_own = CommentsPayload::parse(&published).unwrap();
    let on_global_for_alice = CommentsPayload::parse(&published).unwrap();
    let on_global_for_bob = CommentsPayload::parse(&published).unwrap();
    let on_own_for_bob = CommentsPayload::parse(&published).unwrap();

    assert_eq!(
        alice_session.notify(Channel::CommentsUserChannel(1), on_own),
        Some(BackendMessage::InsertedComment(comment(10, 1, "hello")))
    );
    assert_eq!(
        alice_session.notify(Channel::CommentsChannel, on_global_for_alice),
        Some(BackendMessage::NewComment(comment(10, 1, "hello")))
    );
    assert_eq!(
        bob_session.notify(Channel::CommentsChannel, on_global_for_bob),
        Some(BackendMessage::NewComment(comment(10, 1, "hello")))
    );
    assert_eq!(bob_session.notify(Channel::CommentsUserChannel(1), on_own_for_bob), None);
}
