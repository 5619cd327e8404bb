use comment_relay::errors::ErrorKind;
use comment_relay::errors::PersistenceError;
use comment_relay::models::InsertOrGet;
use comment_relay::models::NewComment;
use comment_relay::models::NewUser;
use comment_relay::pages::comments::comments;
use comment_relay::pages::comments::Comments;
use comment_relay::pages::login::login;
use comment_relay::router::switch;
use comment_relay::router::AppRoute;
use comment_relay::router::Page;
use comment_relay::stores::user::UserState;
use comment_relay::users::User;
use comment_relay::utils::is_https;

fn alice() -> User {
    User { id: 1, username: "alice".to_string() }
}

#[test]
fn nobody_is_logged_in_at_first() {
    let state = UserState::default();
    assert!(!state.is_logged_in());
    assert!(state.is_not_logged_in());
    assert_eq!(state.get_user(), None);
}

#[test]
fn logged_in_identity_is_known() {
    let state = UserState { user: Some(alice()) };
    assert!(state.is_logged_in());
    assert!(!state.is_not_logged_in());
    assert_eq!(state.get_user(), Some(alice()));
    assert_eq!(state.clone(), state);
}

#[test]
fn routes_lead_to_their_pages() {
    assert_eq!(switch(AppRoute::Login), Page::Login);
    assert_eq!(switch(AppRoute::Comments), Page::Comments);
    assert_eq!(switch(AppRoute::NotFound), Page::NotFound);
}

#[test]
fn routes_have_these_paths() {
    assert_eq!(AppRoute::Login.to_path(), "/");
    assert_eq!(AppRoute::Comments.to_path(), "/comments");
    assert_eq!(AppRoute::NotFound.to_path(), "/404");
}

#[test]
fn paths_lead_to_their_routes() {
    for route in [AppRoute::Login, AppRoute::Comments, AppRoute::NotFound] {
        assert_eq!(AppRoute::recognize(route.to_path()), route);
    }
    for path in ["", "/comment", "/comments/", "/Comments", "/nowhere", "//"] {
        assert_eq!(AppRoute::recognize(path), AppRoute::NotFound);
    }
}

#[test]
fn page_of_comments_needs_a_login() {
    assert_eq!(comments(&UserState::default()), Comments::Redirect(AppRoute::Login));
    assert_eq!(comments(&UserState { user: Some(alice()) }), Comments::Dashboard(alice()));
}

#[test]
fn login_page_leads_on_once_logged_in() {
    assert_eq!(login(&UserState::default()).redirect, None);
    assert_eq!(login(&UserState { user: Some(alice()) }).redirect, Some(AppRoute::Comments));
}

#[test]
fn https_is_told_by_the_protocol() {
    assert!(is_https("https:"));
    assert!(is_https("https"));
    assert!(!is_https("http:"));
    assert!(!is_https("http"));
    assert!(!is_https(""));
    assert!(!is_https("HTTPS:"));
    assert!(!is_https(" https:"));
}

#[test]
fn rows_to_insert_hold_what_they_were_made_of() {
    assert_eq!(NewUser::new("alice"), NewUser { username: "alice".to_string() });
    assert_eq!(NewComment::new(1, "hello"), NewComment { user_id: 1, body: "hello".to_string() });
}

#[test]
fn identity_is_inserted_only_where_it_was_not_found() {
    assert_eq!(NewUser::new("alice").insert_or_get(Ok(alice())), InsertOrGet::Found(alice()));
    assert_eq!(
        NewUser::new("alice").insert_or_get(Err(PersistenceError)),
        InsertOrGet::Insert(NewUser::new("alice"))
    );
}

#[test]
fn only_transport_and_protocol_failures_are_fatal() {
    assert!(ErrorKind::Transport.is_fatal());
    assert!(ErrorKind::Protocol.is_fatal());
    assert!(!ErrorKind::Persistence.is_fatal());
    assert!(!ErrorKind::ListenerStart.is_fatal());
    assert!(!ErrorKind::NotificationParse.is_fatal());
    assert!(!ErrorKind::Backpressure.is_fatal());
}
