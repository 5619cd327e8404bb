//! Identities known to the relay.

use vstd::prelude::*;

verus! {

/// An identity: the numeric id the store assigned and the display name.
#[derive(Debug, PartialEq, Eq)]
pub struct User {
    pub id: i32,
    pub username: String,
}

/// The mathematical value of a [`User`].
pub struct UserView {
    pub id: i32,
    pub username: Seq<char>,
}

impl View for User {
    type V = UserView;

    open spec fn view(&self) -> UserView {
        UserView { id: self.id, username: self.username@ }
    }
}

impl Clone for User {
    fn clone(&self) -> (r: Self)
        ensures
            r == *self,
    {
        User { id: self.id, username: self.username.clone() }
    }
}

} // verus!
