use comment_relay::comments::Comment as Record;
use comment_relay::components::comment;
use comment_relay::components::comment_popup;
use comment_relay::components::comments_dashboard;
use comment_relay::components::login_form;
use comment_relay::components::Effect;
use comment_relay::components::Timer;
use comment_relay::messages::BackendMessage;
use comment_relay::messages::FrontendMessage;
use comment_relay::stores::user::UserState;
use comment_relay::users::User;

fn alice() -> User {
    User { id: 1, username: "alice".to_string() }
}

fn record(id: i32, user_id: i32, body: &str) -> Record {
    Record { id, user_id, body: body.to_string() }
}

#[test]
fn comment_is_deleted_after_a_delay() {
    let mut c = comment::Comment::create();
    assert_eq!(c.classes(), "comment");
    let effects = c.update(comment::WebsocketMessages::StartDeleteComment(record(3, 1, "x")));
    assert_eq!(
        effects,
        vec![Effect::Start {
            timer: Timer::Deleting,
            millis: 1000,
            then: comment::WebsocketMessages::DeleteComment(record(3, 1, "x")),
        }]
    );
    assert!(c.deleting);
    assert_eq!(c.classes(), "comment deleting");
    let effects = c.update(comment::WebsocketMessages::DeleteComment(record(3, 1, "x")));
    assert_eq!(
        effects,
        vec![
            Effect::Cancel(Timer::Deleting),
            Effect::Send(FrontendMessage::DeleteComment(record(3, 1, "x"))),
        ]
    );
    assert!(!c.deleting);
}

#[test]
fn comment_deleted_at_once_cancels_no_timer() {
    let mut c = comment::Comment::create();
    let effects = c.update(comment::WebsocketMessages::DeleteComment(record(3, 1, "x")));
    assert_eq!(effects, vec![Effect::Send(FrontendMessage::DeleteComment(record(3, 1, "x")))]);
}

#[test]
fn comment_sends_requests_on_and_ignores_events() {
    let mut c = comment::Comment::create();
    let effects = c.update(comment::WebsocketMessages::Frontend(FrontendMessage::Close(None)));
    assert_eq!(effects, vec![Effect::Send(FrontendMessage::Close(None))]);
    let effects =
        c.update(comment::WebsocketMessages::Backend(BackendMessage::NewComment(record(1, 1, ""))));
    assert_eq!(effects, vec![]);
    assert!(!c.deleting);
}

#[test]
fn only_the_owner_may_delete_a_comment() {
    let own = comment::CommentProps { user: alice(), comment: record(3, 1, "x") };
    let other = comment::CommentProps { user: alice(), comment: record(4, 2, "y") };
    assert!(comment::Comment::can_delete(&own));
    assert!(!comment::Comment::can_delete(&other));
}

#[test]
fn notice_goes_up_fades_and_comes_down() {
    let mut popup = comment_popup::CommentPopup::create();
    assert!(!popup.is_visible());
    let effects = popup.update(comment_popup::WebsocketMessages::Backend(
        BackendMessage::InsertedComment(record(3, 1, "x")),
    ));
    assert_eq!(
        effects,
        vec![Effect::Start {
            timer: Timer::BeforeHiding,
            millis: 5000,
            then: comment_popup::WebsocketMessages::CloseCommentPopup,
        }]
    );
    assert!(popup.is_visible());
    assert_eq!(popup.classes(), "comment-popup");
    assert_eq!(popup.comment, Some(record(3, 1, "x")));

    let effects = popup.update(comment_popup::WebsocketMessages::CloseCommentPopup);
    assert_eq!(
        effects,
        vec![
            Effect::Cancel(Timer::BeforeHiding),
            Effect::Start {
                timer: Timer::Hiding,
                millis: 1000,
                then: comment_popup::WebsocketMessages::RemoveComment,
            },
        ]
    );
    assert!(popup.is_visible());
    assert_eq!(popup.classes(), "comment-popup hiding");

    let effects = popup.update(comment_popup::WebsocketMessages::RemoveComment);
    assert_eq!(effects, vec![Effect::Cancel(Timer::Hiding)]);
    assert!(!popup.is_visible());
    assert_eq!(popup, comment_popup::CommentPopup::create());
}

#[test]
fn new_notice_restarts_the_timers() {
    let mut popup = comment_popup::CommentPopup::create();
    popup.update(comment_popup::WebsocketMessages::Backend(BackendMessage::InsertedComment(
        record(3, 1, "x"),
    )));
    popup.update(comment_popup::WebsocketMessages::CloseCommentPopup);
    let effects = popup.update(comment_popup::WebsocketMessages::Backend(
        BackendMessage::InsertedComment(record(4, 1, "y")),
    ));
    assert_eq!(
        effects,
        vec![
            Effect::Cancel(Timer::Hiding),
            Effect::Start {
                timer: Timer::BeforeHiding,
                millis: 5000,
                then: comment_popup::WebsocketMessages::CloseCommentPopup,
            },
        ]
    );
    assert_eq!(popup.comment, Some(record(4, 1, "y")));
    assert!(!popup.hiding);
    assert!(popup.before_hiding);
}

#[test]
fn notice_ignores_other_events() {
    let mut popup = comment_popup::CommentPopup::create();
    let effects = popup.update(comment_popup::WebsocketMessages::Backend(
        BackendMessage::NewComment(record(3, 1, "x")),
    ));
    assert_eq!(effects, vec![]);
    assert!(!popup.is_visible());
    let effects =
        popup.update(comment_popup::WebsocketMessages::Frontend(FrontendMessage::Close(None)));
    assert_eq!(effects, vec![Effect::Send(FrontendMessage::Close(None))]);
}

#[test]
fn dashboard_follows_creations_and_deletions() {
    let mut dashboard = comments_dashboard::CommentsDashboard::create();
    for (id, body) in [(1, "a"), (2, "b"), (3, "c")] {
        let effects = dashboard.update(comments_dashboard::WebsocketMessages::Backend(
            BackendMessage::NewComment(record(id, 1, body)),
        ));
        assert_eq!(effects, vec![]);
    }
    assert_eq!(dashboard.comments, vec![record(1, 1, "a"), record(2, 1, "b"), record(3, 1, "c")]);
    dashboard.update(comments_dashboard::WebsocketMessages::Backend(
        BackendMessage::DeletedComment(record(2, 9, "whatever")),
    ));
    assert_eq!(dashboard.comments, vec![record(1, 1, "a"), record(3, 1, "c")]);
    dashboard.update(comments_dashboard::WebsocketMessages::Backend(
        BackendMessage::DeletedComment(record(7, 1, "")),
    ));
    assert_eq!(dashboard.comments, vec![record(1, 1, "a"), record(3, 1, "c")]);
    dashboard.update(comments_dashboard::WebsocketMessages::Backend(
        BackendMessage::InsertedComment(record(8, 1, "")),
    ));
    dashboard.update(comments_dashboard::WebsocketMessages::Backend(
        BackendMessage::UpdatedComment(record(1, 1, "changed")),
    ));
    assert_eq!(dashboard.comments, vec![record(1, 1, "a"), record(3, 1, "c")]);
}

#[test]
fn dashboard_submits_a_comment_for_its_identity() {
    let props = comments_dashboard::CommentsDashboardProps { user: alice() };
    let msg = comments_dashboard::CommentsDashboard::submit(&props, "hello".to_string());
    assert_eq!(
        msg,
        comments_dashboard::WebsocketMessages::Frontend(FrontendMessage::InsertComment((
            alice(),
            "hello".to_string()
        )))
    );
    let mut dashboard = comments_dashboard::CommentsDashboard::create();
    assert_eq!(
        dashboard.update(msg),
        vec![Effect::Send(FrontendMessage::InsertComment((alice(), "hello".to_string())))]
    );
}

#[test]
fn login_form_records_the_confirmed_identity() {
    let mut form = login_form::LoginForm::create(UserState::default());
    let msg = login_form::LoginForm::submit("alice".to_string());
    assert_eq!(
        form.update(msg),
        vec![Effect::Send(FrontendMessage::Login("alice".to_string()))]
    );
    assert_eq!(
        form.update(login_form::WebsocketMessages::Backend(BackendMessage::LoggedIn(alice()))),
        vec![Effect::Login(alice())]
    );
    assert_eq!(form.user_state, UserState::default());
    assert_eq!(
        form.update(login_form::WebsocketMessages::State(UserState { user: Some(alice()) })),
        vec![]
    );
    assert_eq!(form.user_state.get_user(), Some(alice()));
    assert_eq!(
        form.update(login_form::WebsocketMessages::Backend(BackendMessage::Comments(vec![]))),
        vec![]
    );
}
