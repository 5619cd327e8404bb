//! The login page.

use crate::router::AppRoute;
use crate::stores::user::UserState;
use vstd::prelude::*;

verus! {

/// What the login page comes to: the login form, and the route to go to
/// where somebody is logged in already.
#[derive(Debug, Clone, Copy, PartialEq, Eq, Structural)]
pub struct Login {
    pub redirect: Option<AppRoute>,
}

/// The login page: the form, and the way to the comments where somebody is
/// logged in.
pub fn login(user: &UserState) -> (page: Login)
    ensures
        page.redirect == (if user.user is Some {
            Some(AppRoute::Comments)
        } else {
            None
        }),
{
    if user.is_logged_in() {
        Login { redirect: Some(AppRoute::Comments) }
    } else {
        Login { redirect: None }
    }
}

} // verus!
