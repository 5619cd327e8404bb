//! The notice that tells an identity that its own comment was created.

use crate::components::Effect;
use crate::components::Timer;
use crate::messages::BackendMessage;
use crate::messages::FrontendMessage;
use vstd::prelude::*;

verus! {

/// How long the notice is shown in full, in milliseconds.
pub const SHOW_TIME: u32 = 5000;

/// How long the notice fades, in milliseconds.
pub const FADE_TIME: u32 = 1000;

/// The consumer's state: the comment that the notice is about, if the
/// notice is up, and which of its timers run.
#[derive(Debug, PartialEq, Eq)]
pub struct CommentPopup {
    pub comment: Option<crate::comments::Comment>,
    pub hiding: bool,
    pub before_hiding: bool,
}

/// What the consumer is told.
#[derive(Debug, PartialEq, Eq)]
pub enum WebsocketMessages {
    /// Send this request.
    Frontend(FrontendMessage),
    /// This event has arrived.
    Backend(BackendMessage),
    /// Let the notice fade.
    CloseCommentPopup,
    /// Take the notice down.
    RemoveComment,
}

/// The cancellation of a timer, where the timer runs.
pub open spec fn cancel_if(runs: bool, timer: Timer) -> Seq<Effect<WebsocketMessages>> {
    if runs {
        seq![Effect::Cancel(timer)]
    } else {
        Seq::empty()
    }
}

impl CommentPopup {
    /// The state after a message. The event that the identity's own
    /// comment was created puts the notice up; the wish to close lets it
    /// fade; the end of the fading takes it down.
    pub open spec fn updated(self, msg: WebsocketMessages) -> CommentPopup {
        match msg {
            WebsocketMessages::Backend(BackendMessage::InsertedComment(comment)) => CommentPopup {
                comment: Some(comment),
                hiding: false,
                before_hiding: true,
            },
            WebsocketMessages::CloseCommentPopup => CommentPopup {
                comment: self.comment,
                hiding: true,
                before_hiding: false,
            },
            WebsocketMessages::RemoveComment => CommentPopup {
                comment: None,
                hiding: false,
                before_hiding: self.before_hiding,
            },
            _ => self,
        }
    }

    /// What a message asks for.
    pub open spec fn effects(self, msg: WebsocketMessages) -> Seq<Effect<WebsocketMessages>> {
        match msg {
            WebsocketMessages::Frontend(fm) => seq![Effect::Send(fm)],
            WebsocketMessages::Backend(BackendMessage::InsertedComment(_)) => cancel_if(
                self.before_hiding,
                Timer::BeforeHiding,
            ) + cancel_if(self.hiding, Timer::Hiding) + seq![
                Effect::Start {
                    timer: Timer::BeforeHiding,
                    millis: SHOW_TIME,
                    then: WebsocketMessages::CloseCommentPopup,
                },
            ],
            WebsocketMessages::Backend(_) => Seq::empty(),
            WebsocketMessages::CloseCommentPopup => cancel_if(
                self.before_hiding,
                Timer::BeforeHiding,
            ) + seq![
                Effect::Start {
                    timer: Timer::Hiding,
                    millis: FADE_TIME,
                    then: WebsocketMessages::RemoveComment,
                },
            ],
            WebsocketMessages::RemoveComment => cancel_if(self.hiding, Timer::Hiding),
        }
    }

    /// No notice.
    pub fn create() -> (r: Self)
        ensures
            r == (CommentPopup { comment: None, hiding: false, before_hiding: false }),
    {
        CommentPopup { comment: None, hiding: false, before_hiding: false }
    }

    /// Takes up a message.
    pub fn update(&mut self, msg: WebsocketMessages) -> (effects: Vec<Effect<WebsocketMessages>>)
        ensures
            *final(self) == old(self).updated(msg),
            effects@ == old(self).effects(msg),
    {
        let mut effects: Vec<Effect<WebsocketMessages>> = Vec::new();
        match msg {
            WebsocketMessages::Frontend(fm) => {
                effects.push(Effect::Send(fm));
            },
            WebsocketMessages::Backend(bm) => match bm {
                BackendMessage::InsertedComment(comment) => {
                    self.comment = Some(comment);
                    if self.before_hiding {
                        effects.push(Effect::Cancel(Timer::BeforeHiding));
                    }
                    if self.hiding {
                        effects.push(Effect::Cancel(Timer::Hiding));
                    }
                    self.hiding = false;
                    self.before_hiding = true;
                    effects.push(
                        Effect::Start {
                            timer: Timer::BeforeHiding,
                            millis: SHOW_TIME,
                            then: WebsocketMessages::CloseCommentPopup,
                        },
                    );
                },
                _ => {},
            },
            WebsocketMessages::CloseCommentPopup => {
                if self.before_hiding {
                    effects.push(Effect::Cancel(Timer::BeforeHiding));
                }
                self.before_hiding = false;
                self.hiding = true;
                effects.push(
                    Effect::Start {
                        timer: Timer::Hiding,
                        millis: FADE_TIME,
                        then: WebsocketMessages::RemoveComment,
                    },
                );
            },
            WebsocketMessages::RemoveComment => {
                self.comment = None;
                if self.hiding {
                    effects.push(Effect::Cancel(Timer::Hiding));
                }
                self.hiding = false;
            },
        }
        assert(effects@ =~= old(self).effects(msg));
        effects
    }

    /// Whether the notice is up.
    pub fn is_visible(&self) -> (r: bool)
        ensures
            r == self.comment is Some,
    {
        self.comment.is_some()
    }

    /// The style classes of the notice.
    pub fn classes(&self) -> (r: &'static str)
        ensures
            r@ == (if self.hiding {
                "comment-popup hiding"@
            } else {
                "comment-popup"@
            }),
    {
        if self.hiding {
            "comment-popup hiding"
        } else {
            "comment-popup"
        }
    }
}

} // verus!
