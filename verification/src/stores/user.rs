//! The identity that is logged in on this client, if one is.

use crate::users::User;
use vstd::prelude::*;

verus! {

/// Who is logged in.
#[derive(Debug, PartialEq, Eq)]
pub struct UserState {
    pub user: Option<User>,
}

impl Default for UserState {
    fn default() -> (r: Self)
        ensures
            r.user is None,
    {
        UserState { user: None }
    }
}

impl Clone for UserState {
    fn clone(&self) -> (r: Self)
        ensures
            r == *self,
    {
        UserState { user: self.get_user() }
    }
}

impl UserState {
    /// Whether somebody is logged in.
    pub fn is_logged_in(&self) -> (r: bool)
        ensures
            r == self.user is Some,
    {
        self.user.is_some()
    }

    /// Whether nobody is logged in.
    pub fn is_not_logged_in(&self) -> (r: bool)
        ensures
            r == self.user is None,
    {
        self.user.is_none()
    }

    /// The identity that is logged in, if one is.
    pub fn get_user(&self) -> (r: Option<User>)
        ensures
            r == self.user,
    {
        match &self.user {
            Some(user) => Some(user.clone()),
            None => None,
        }
    }
}

} // verus!
