//! What the relay hands to the store: rows to insert, and the decision
//! between finding an identity and creating it.

use crate::errors::PersistenceError;
use crate::users::User;
use vstd::prelude::*;

verus! {

/// A comment that does not exist yet: the owner's id and the text.
#[derive(Debug, PartialEq, Eq)]
pub struct NewComment {
    pub user_id: i32,
    pub body: String,
}

impl NewComment {
    /// A comment to insert for this owner with this text.
    pub fn new(user_id: i32, body: &str) -> (r: Self)
        ensures
            r.user_id == user_id,
            r.body@ == body@,
    {
        NewComment { user_id, body: body.to_owned() }
    }
}

/// An identity that does not exist yet: its name.
#[derive(Debug, PartialEq, Eq)]
pub struct NewUser {
    pub username: String,
}

/// What remains to be done for a login once the store was asked for the
/// name.
#[derive(Debug, PartialEq, Eq)]
pub enum InsertOrGet {
    /// The identity exists: this is it.
    Found(User),
    /// No identity was found: insert this one.
    Insert(NewUser),
}

impl NewUser {
    /// An identity to insert under this name.
    pub fn new(username: &str) -> (r: Self)
        ensures
            r.username@ == username@,
    {
        NewUser { username: username.to_owned() }
    }

    /// Decides, from what the lookup by name came to, whether the identity
    /// is there or has to be inserted. A lookup that failed counts as an
    /// identity that is not there.
    pub fn insert_or_get(self, found: Result<User, PersistenceError>) -> (r: InsertOrGet)
        ensures
            r == (match found {
                Ok(user) => InsertOrGet::Found(user),
                Err(_) => InsertOrGet::Insert(self),
            }),
    {
        match found {
            Ok(user) => InsertOrGet::Found(user),
            Err(_) => InsertOrGet::Insert(self),
        }
    }
}

} // verus!
