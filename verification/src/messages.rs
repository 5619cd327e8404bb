//! The messages that travel between a client and the relay.

use crate::comments::clone_comments;
use crate::comments::comments_view;
use crate::comments::Comment;
use crate::comments::CommentView;
use crate::users::User;
use crate::users::UserView;
use crate::wire::opt_str_view;
use vstd::prelude::*;

verus! {

/// Why a connection was closed: the status code and an optional text.
#[derive(Debug, PartialEq, Eq)]
pub struct CloseReason {
    pub code: u16,
    pub reason: Option<String>,
}

/// The mathematical value of a [`CloseReason`].
pub struct CloseReasonView {
    pub code: u16,
    pub reason: Option<Seq<char>>,
}

impl View for CloseReason {
    type V = CloseReasonView;

    open spec fn view(&self) -> CloseReasonView {
        CloseReasonView { code: self.code, reason: opt_str_view(self.reason) }
    }
}

impl Clone for CloseReason {
    fn clone(&self) -> (r: Self)
        ensures
            r == *self,
    {
        let reason = match &self.reason {
            Some(s) => Some(s.clone()),
            None => None,
        };
        CloseReason { code: self.code, reason }
    }
}

/// The value of an optional close reason.
pub open spec fn opt_close_view(o: Option<CloseReason>) -> Option<CloseReasonView> {
    match o {
        Some(r) => Some(r@),
        None => None,
    }
}

/// A request that a client sends to the relay.
#[derive(Debug, PartialEq, Eq)]
pub enum FrontendMessage {
    /// The connection ends, with the reason if one was given.
    Close(Option<CloseReason>),
    /// Log in under a name.
    Login(String),
    /// Create a comment with this text, owned by this identity.
    InsertComment((User, String)),
    /// Delete this comment.
    DeleteComment(Comment),
}

/// The mathematical value of a [`FrontendMessage`].
pub enum FrontendMessageView {
    Close(Option<CloseReasonView>),
    Login(Seq<char>),
    InsertComment(UserView, Seq<char>),
    DeleteComment(CommentView),
}

impl View for FrontendMessage {
    type V = FrontendMessageView;

    open spec fn view(&self) -> FrontendMessageView {
        match *self {
            FrontendMessage::Close(o) => FrontendMessageView::Close(opt_close_view(o)),
            FrontendMessage::Login(name) => FrontendMessageView::Login(name@),
            FrontendMessage::InsertComment((user, body)) => FrontendMessageView::InsertComment(
                user@,
                body@,
            ),
            FrontendMessage::DeleteComment(c) => FrontendMessageView::DeleteComment(c@),
        }
    }
}

impl Clone for FrontendMessage {
    fn clone(&self) -> (r: Self)
        ensures
            r == *self,
    {
        match self {
            FrontendMessage::Close(o) => {
                let reason = match o {
                    Some(r) => Some(r.clone()),
                    None => None,
                };
                FrontendMessage::Close(reason)
            },
            FrontendMessage::Login(name) => FrontendMessage::Login(name.clone()),
            FrontendMessage::InsertComment((user, body)) => FrontendMessage::InsertComment(
                (user.clone(), body.clone()),
            ),
            FrontendMessage::DeleteComment(c) => FrontendMessage::DeleteComment(c.clone()),
        }
    }
}

/// An event that the relay sends to a client.
#[derive(Debug, PartialEq, Eq)]
pub enum BackendMessage {
    /// The login succeeded, for this identity.
    LoggedIn(User),
    /// Somebody created this comment.
    NewComment(Comment),
    /// The receiving identity's own comment was created.
    InsertedComment(Comment),
    /// The comments that exist, as a list.
    Comments(Vec<Comment>),
    /// Somebody deleted this comment.
    DeletedComment(Comment),
    /// Somebody changed this comment.
    UpdatedComment(Comment),
}

/// The mathematical value of a [`BackendMessage`].
pub enum BackendMessageView {
    LoggedIn(UserView),
    NewComment(CommentView),
    InsertedComment(CommentView),
    Comments(Seq<CommentView>),
    DeletedComment(CommentView),
    UpdatedComment(CommentView),
}

impl View for BackendMessage {
    type V = BackendMessageView;

    open spec fn view(&self) -> BackendMessageView {
        match *self {
            BackendMessage::LoggedIn(u) => BackendMessageView::LoggedIn(u@),
            BackendMessage::NewComment(c) => BackendMessageView::NewComment(c@),
            BackendMessage::InsertedComment(c) => BackendMessageView::InsertedComment(c@),
            BackendMessage::Comments(list) => BackendMessageView::Comments(comments_view(list@)),
            BackendMessage::DeletedComment(c) => BackendMessageView::DeletedComment(c@),
            BackendMessage::UpdatedComment(c) => BackendMessageView::UpdatedComment(c@),
        }
    }
}

impl Clone for BackendMessage {
    fn clone(&self) -> (r: Self)
        ensures
            r@ == self@,
    {
        match self {
            BackendMessage::LoggedIn(u) => BackendMessage::LoggedIn(u.clone()),
            BackendMessage::NewComment(c) => BackendMessage::NewComment(c.clone()),
            BackendMessage::InsertedComment(c) => BackendMessage::InsertedComment(c.clone()),
            BackendMessage::Comments(list) => BackendMessage::Comments(clone_comments(list)),
            BackendMessage::DeletedComment(c) => BackendMessage::DeletedComment(c.clone()),
            BackendMessage::UpdatedComment(c) => BackendMessage::UpdatedComment(c.clone()),
        }
    }
}

/// A message of either direction.
#[derive(Debug, PartialEq, Eq)]
pub enum Envelope {
    /// From a client to the relay.
    ClientRequest(FrontendMessage),
    /// From the relay to a client.
    ServerEvent(BackendMessage),
}

/// The mathematical value of an [`Envelope`].
pub enum EnvelopeView {
    ClientRequest(FrontendMessageView),
    ServerEvent(BackendMessageView),
}

impl View for Envelope {
    type V = EnvelopeView;

    open spec fn view(&self) -> EnvelopeView {
        match *self {
            Envelope::ClientRequest(m) => EnvelopeView::ClientRequest(m@),
            Envelope::ServerEvent(m) => EnvelopeView::ServerEvent(m@),
        }
    }
}

/// The direction in which a message travels.
#[derive(Debug, Clone, Copy, PartialEq, Eq, Structural)]
pub enum Direction {
    /// From a client to the relay.
    ToServer,
    /// From the relay to a client.
    ToClient,
}

impl Envelope {
    /// The direction in which this message travels.
    pub open spec fn spec_direction(&self) -> Direction {
        match *self {
            Envelope::ClientRequest(_) => Direction::ToServer,
            Envelope::ServerEvent(_) => Direction::ToClient,
        }
    }

    /// The direction in which this message travels.
    #[verifier::when_used_as_spec(spec_direction)]
    pub fn direction(&self) -> (d: Direction)
        ensures
            d == self.spec_direction(),
    {
        match self {
            Envelope::ClientRequest(_) => Direction::ToServer,
            Envelope::ServerEvent(_) => Direction::ToClient,
        }
    }
}

} // verus!
