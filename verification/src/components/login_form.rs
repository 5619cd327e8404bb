//! The login form.

use crate::components::Effect;
use crate::messages::BackendMessage;
use crate::messages::FrontendMessage;
use crate::stores::user::UserState;
use vstd::prelude::*;

verus! {

/// The consumer's state: who is logged in, as far as the form knows.
#[derive(Debug, PartialEq, Eq)]
pub struct LoginForm {
    pub user_state: UserState,
}

/// What the consumer is told.
#[derive(Debug, PartialEq, Eq)]
pub enum WebsocketMessages {
    /// Send this request.
    Frontend(FrontendMessage),
    /// This event has arrived.
    Backend(BackendMessage),
    /// Who is logged in has changed.
    State(UserState),
}

impl LoginForm {
    /// The state after a message: the form keeps what it is told about who
    /// is logged in.
    pub open spec fn updated(self, msg: WebsocketMessages) -> LoginForm {
        match msg {
            WebsocketMessages::State(state) => LoginForm { user_state: state },
            _ => self,
        }
    }

    /// What a message asks for: a request is sent on, and the
    /// confirmation of a login records who is logged in.
    pub open spec fn effects(msg: WebsocketMessages) -> Seq<Effect<WebsocketMessages>> {
        match msg {
            WebsocketMessages::Frontend(fm) => seq![Effect::Send(fm)],
            WebsocketMessages::Backend(BackendMessage::LoggedIn(user)) => seq![
                Effect::Login(user),
            ],
            _ => Seq::empty(),
        }
    }

    /// A form that knows this about who is logged in.
    pub fn create(user_state: UserState) -> (r: Self)
        ensures
            r.user_state == user_state,
    {
        LoginForm { user_state }
    }

    /// Takes up a message.
    pub fn update(&mut self, msg: WebsocketMessages) -> (effects: Vec<Effect<WebsocketMessages>>)
        ensures
            *final(self) == old(self).updated(msg),
            effects@ == Self::effects(msg),
    {
        let mut effects: Vec<Effect<WebsocketMessages>> = Vec::new();
        match msg {
            WebsocketMessages::Frontend(fm) => {
                effects.push(Effect::Send(fm));
            },
            WebsocketMessages::Backend(bm) => match bm {
                BackendMessage::LoggedIn(user) => {
                    effects.push(Effect::Login(user));
                },
                _ => {},
            },
            WebsocketMessages::State(state) => {
                self.user_state = state;
            },
        }
        assert(effects@ =~= Self::effects(msg));
        effects
    }

    /// The message that submitting a name makes: the request to log in
    /// under it.
    pub fn submit(user_name: String) -> (msg: WebsocketMessages)
        ensures
            msg == WebsocketMessages::Frontend(FrontendMessage::Login(user_name)),
    {
        WebsocketMessages::Frontend(FrontendMessage::Login(user_name))
    }
}

} // verus!
