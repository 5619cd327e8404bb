//! One comment in the list, which its owner can delete.

use crate::components::Effect;
use crate::components::Timer;
use crate::messages::BackendMessage;
use crate::messages::FrontendMessage;
use crate::users::User;
use vstd::prelude::*;

verus! {

/// How long a comment is shown as being deleted before the request goes
/// out, in milliseconds.
pub const DELETE_DELAY: u32 = 1000;

/// The consumer's state: whether the comment is being deleted.
#[derive(Debug, Clone, Copy, PartialEq, Eq, Structural)]
pub struct Comment {
    pub deleting: bool,
}

/// What the consumer is told.
#[derive(Debug, PartialEq, Eq)]
pub enum WebsocketMessages {
    /// Send this request.
    Frontend(FrontendMessage),
    /// This event has arrived.
    Backend(BackendMessage),
    /// The owner asked to delete the comment.
    StartDeleteComment(crate::comments::Comment),
    /// The time as being deleted is over: delete the comment.
    DeleteComment(crate::comments::Comment),
}

/// What the consumer is made for: the identity that looks at the comment,
/// and the comment.
#[derive(Debug, PartialEq, Eq)]
pub struct CommentProps {
    pub user: User,
    pub comment: crate::comments::Comment,
}

impl Comment {
    /// The state after a message.
    pub open spec fn updated(self, msg: WebsocketMessages) -> Comment {
        match msg {
            WebsocketMessages::StartDeleteComment(_) => Comment { deleting: true },
            WebsocketMessages::DeleteComment(_) => Comment { deleting: false },
            _ => self,
        }
    }

    /// What a message asks for. A request is sent on. A wish to delete
    /// starts the timer, and the end of the timer sends the request to
    /// delete.
    pub open spec fn effects(self, msg: WebsocketMessages) -> Seq<Effect<WebsocketMessages>> {
        match msg {
            WebsocketMessages::Frontend(fm) => seq![Effect::Send(fm)],
            WebsocketMessages::Backend(_) => Seq::empty(),
            WebsocketMessages::StartDeleteComment(comment) => seq![
                Effect::Start {
                    timer: Timer::Deleting,
                    millis: DELETE_DELAY,
                    then: WebsocketMessages::DeleteComment(comment),
                },
            ],
            WebsocketMessages::DeleteComment(comment) => if self.deleting {
                seq![
                    Effect::Cancel(Timer::Deleting),
                    Effect::Send(FrontendMessage::DeleteComment(comment)),
                ]
            } else {
                seq![Effect::Send(FrontendMessage::DeleteComment(comment))]
            },
        }
    }

    /// A comment that is not being deleted.
    pub fn create() -> (r: Self)
        ensures
            !r.deleting,
    {
        Comment { deleting: false }
    }

    /// Takes up a message.
    pub fn update(&mut self, msg: WebsocketMessages) -> (effects: Vec<Effect<WebsocketMessages>>)
        ensures
            *final(self) == old(self).updated(msg),
            effects@ == old(self).effects(msg),
    {
        let mut effects: Vec<Effect<WebsocketMessages>> = Vec::new();
        match msg {
            WebsocketMessages::Frontend(fm) => {
                effects.push(Effect::Send(fm));
            },
            WebsocketMessages::Backend(_) => {},
            WebsocketMessages::StartDeleteComment(comment) => {
                self.deleting = true;
                effects.push(
                    Effect::Start {
                        timer: Timer::Deleting,
                        millis: DELETE_DELAY,
                        then: WebsocketMessages::DeleteComment(comment),
                    },
                );
            },
            WebsocketMessages::DeleteComment(comment) => {
                if self.deleting {
                    effects.push(Effect::Cancel(Timer::Deleting));
                }
                self.deleting = false;
                effects.push(Effect::Send(FrontendMessage::DeleteComment(comment)));
            },
        }
        assert(effects@ =~= old(self).effects(msg));
        effects
    }

    /// Whether the one who looks at the comment may delete it: only its
    /// owner may.
    pub fn can_delete(props: &CommentProps) -> (r: bool)
        ensures
            r == (props.comment.user_id == props.user.id),
    {
        props.comment.user_id == props.user.id
    }

    /// The style classes of the comment.
    pub fn classes(&self) -> (r: &'static str)
        ensures
            r@ == (if self.deleting {
                "comment deleting"@
            } else {
                "comment"@
            }),
    {
        if self.deleting {
            "comment deleting"
        } else {
            "comment"
        }
    }
}

} // verus!
