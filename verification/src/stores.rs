//! What the client keeps between its pages.

pub mod user;
