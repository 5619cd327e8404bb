//! The page of comments.

use crate::router::AppRoute;
use crate::stores::user::UserState;
use crate::users::User;
use vstd::prelude::*;

verus! {

/// What the page of comments comes to.
#[derive(Debug, PartialEq, Eq)]
pub enum Comments {
    /// Nobody is logged in: go to this route.
    Redirect(AppRoute),
    /// Show the comments to this identity.
    Dashboard(User),
}

/// The page of comments: the comments for the identity that is logged in,
/// and the way to the login page where nobody is.
pub fn comments(user: &UserState) -> (page: Comments)
    ensures
        page == (match user.user {
            Some(u) => Comments::Dashboard(u),
            None => Comments::Redirect(AppRoute::Login),
        }),
{
    match user.get_user() {
        Some(u) => Comments::Dashboard(u),
        None => Comments::Redirect(AppRoute::Login),
    }
}

} // verus!
