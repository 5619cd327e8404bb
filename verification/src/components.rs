//! The consumers on the client: what each of them keeps, and what each
//! message makes it do.

pub mod comment;
pub mod comment_popup;
pub mod comments_dashboard;
pub mod login_form;

use crate::messages::FrontendMessage;
use crate::users::User;
use vstd::prelude::*;

verus! {

/// The timers that consumers run.
#[derive(Debug, Clone, Copy, PartialEq, Eq, Structural)]
pub enum Timer {
    /// Runs while a comment is shown as being deleted.
    Deleting,
    /// Runs while a notice is shown in full.
    BeforeHiding,
    /// Runs while a notice fades.
    Hiding,
}

/// What a consumer asks its surroundings to do. `M` is the consumer's own
/// kind of message.
#[derive(Debug, PartialEq, Eq)]
pub enum Effect<M> {
    /// Send this request through the multiplexer.
    Send(FrontendMessage),
    /// Start the timer; when it has run for so many milliseconds, hand the
    /// message to the consumer.
    Start { timer: Timer, millis: u32, then: M },
    /// Stop the timer.
    Cancel(Timer),
    /// Record that this identity is logged in.
    Login(User),
}

} // verus!
