//! What each page of the client shows, given who is logged in.

pub mod comments;
pub mod login;
