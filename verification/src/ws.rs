//! The relay session: what one client connection is allowed to ask for,
//! and what the relay does about each request, each answer of the store and
//! each change that the feed reports, from login to close.

use crate::channel_listeners::forward;
use crate::channel_listeners::forwarded;
use crate::channel_listeners::ActionType;
use crate::channel_listeners::Channel;
use crate::channel_listeners::CommentsPayload;
use crate::comments::Comment;
use crate::errors::ListenerStartError;
use crate::errors::PersistenceError;
use crate::errors::TransportError;
use crate::frames::frontend_of_frame;
use crate::frames::Frame;
use crate::messages::BackendMessage;
use crate::messages::FrontendMessage;
use crate::models::NewComment;
use crate::models::NewUser;
use crate::users::User;
use vstd::prelude::*;

verus! {

/// Where a session stands.
#[derive(Debug, PartialEq, Eq)]
pub enum SessionState {
    /// Nobody has logged in yet.
    Anonymous,
    /// This identity has logged in.
    Authenticated(User),
    /// The session is over.
    Closed,
}

/// A subscription of a session to a channel of the change feed. The handle
/// tells the session's subscriptions apart, and is what a cancellation
/// names.
#[derive(Debug, Clone, Copy, PartialEq, Eq, Structural)]
pub struct Subscription {
    pub channel: Channel,
    pub handle: usize,
}

/// What the session asks its surroundings to do.
#[derive(Debug, PartialEq, Eq)]
pub enum Action {
    /// Write this event to the client.
    Send(BackendMessage),
    /// Look the identity up by name, insert it if it is not there, and
    /// report the outcome with [`WebSocket::login_result`].
    InsertOrGetUser(NewUser),
    /// Insert this comment.
    InsertComment(NewComment),
    /// Delete this comment.
    DeleteComment(Comment),
    /// Start listening on the subscription's channel, and report each
    /// change with [`WebSocket::notify`].
    Listen(Subscription),
    /// Stop listening for this subscription and release its connection.
    Cancel(Subscription),
    /// Close the connection.
    Stop,
}

/// The subscription to the channel of all changes.
pub open spec fn global_subscription() -> Subscription {
    Subscription { channel: Channel::CommentsChannel, handle: 0 }
}

/// The subscription to the channel of `user`'s own comments.
pub open spec fn owner_subscription(user: User) -> Subscription {
    Subscription { channel: Channel::CommentsUserChannel(user.id), handle: 1 }
}

/// The mathematical value of a session: its state and the subscriptions
/// that it holds.
pub struct SessionView {
    pub state: SessionState,
    pub subscriptions: Seq<Subscription>,
}

/// The test that a subscription is to another channel than `channel`.
pub open spec fn not_on(channel: Channel) -> spec_fn(Subscription) -> bool {
    |s: Subscription| s.channel != channel
}

/// One cancellation for each subscription, in order.
pub open spec fn cancellations(subscriptions: Seq<Subscription>) -> Seq<Action> {
    subscriptions.map_values(|s: Subscription| Action::Cancel(s))
}

impl SessionView {
    /// The session before anything happened.
    pub open spec fn initial() -> SessionView {
        SessionView { state: SessionState::Anonymous, subscriptions: Seq::empty() }
    }

    /// The session holds subscriptions only while somebody is logged in,
    /// and then at most the two of that identity, each once.
    pub open spec fn wf(self) -> bool {
        match self.state {
            SessionState::Authenticated(user) => {
                ||| self.subscriptions == Seq::<Subscription>::empty()
                ||| self.subscriptions == seq![global_subscription()]
                ||| self.subscriptions == seq![owner_subscription(user)]
                ||| self.subscriptions == seq![global_subscription(), owner_subscription(user)]
            },
            _ => self.subscriptions == Seq::<Subscription>::empty(),
        }
    }

    /// The session holds a subscription to `channel`.
    pub open spec fn subscribed(self, channel: Channel) -> bool {
        exists|i: int|
            0 <= i < self.subscriptions.len() && (#[trigger] self.subscriptions[i]).channel
                == channel
    }

    /// The session once it is over.
    pub open spec fn closed(self) -> SessionView {
        SessionView { state: SessionState::Closed, subscriptions: Seq::empty() }
    }

    /// What ending the session asks for: the cancellation of each
    /// subscription, then the end of the connection. Nothing where the
    /// session is over already.
    pub open spec fn closing_actions(self) -> Seq<Action> {
        if self.state == SessionState::Closed {
            Seq::empty()
        } else {
            cancellations(self.subscriptions).push(Action::Stop)
        }
    }

    /// The session after a request.
    pub open spec fn after_request(self, request: FrontendMessage) -> SessionView {
        match (self.state, request) {
            (SessionState::Closed, _) => self,
            (_, FrontendMessage::Close(_)) => self.closed(),
            _ => self,
        }
    }

    /// What a request asks for. A closed session asks for nothing. A close
    /// request ends the session. Before login only a login is taken up,
    /// and goes to the store. After login a comment to insert or to delete
    /// goes to the store; another login is not taken up.
    pub open spec fn request_actions(self, request: FrontendMessage) -> Seq<Action> {
        match (self.state, request) {
            (SessionState::Closed, _) => Seq::empty(),
            (_, FrontendMessage::Close(_)) => self.closing_actions(),
            (SessionState::Anonymous, FrontendMessage::Login(username)) => seq![
                Action::InsertOrGetUser(NewUser { username }),
            ],
            (SessionState::Anonymous, _) => Seq::empty(),
            (SessionState::Authenticated(_), FrontendMessage::InsertComment((user, body))) => seq![
                Action::InsertComment(NewComment { user_id: user.id, body }),
            ],
            (SessionState::Authenticated(_), FrontendMessage::DeleteComment(comment)) => seq![
                Action::DeleteComment(comment),
            ],
            (SessionState::Authenticated(_), _) => Seq::empty(),
        }
    }

    /// The store's answer to a login is taken up: the session waits for
    /// one, and the answer is an identity.
    pub open spec fn login_succeeds(self, outcome: Result<User, PersistenceError>) -> bool {
        self.state == SessionState::Anonymous && outcome is Ok
    }

    /// The session after the store's answer to a login.
    pub open spec fn after_login_result(
        self,
        outcome: Result<User, PersistenceError>,
    ) -> SessionView {
        if self.login_succeeds(outcome) {
            let user = outcome->Ok_0;
            SessionView {
                state: SessionState::Authenticated(user),
                subscriptions: seq![global_subscription(), owner_subscription(user)],
            }
        } else {
            self
        }
    }

    /// What the store's answer to a login asks for: on success the
    /// confirmation for the client, then the two subscriptions; otherwise
    /// nothing.
    pub open spec fn login_actions(self, outcome: Result<User, PersistenceError>) -> Seq<Action> {
        if self.login_succeeds(outcome) {
            let user = outcome->Ok_0;
            seq![
                Action::Send(BackendMessage::LoggedIn(user)),
                Action::Listen(global_subscription()),
                Action::Listen(owner_subscription(user)),
            ]
        } else {
            Seq::empty()
        }
    }

    /// The session without its subscription to `channel`.
    pub open spec fn without(self, channel: Channel) -> SessionView {
        SessionView {
            state: self.state,
            subscriptions: self.subscriptions.filter(not_on(channel)),
        }
    }

    /// Whether `after` and `actions` are what the session comes to when the
    /// connection delivers `msg`. A frame that carries a request is taken
    /// up as that request. A frame that carries none is a protocol error,
    /// and ends the session as a failure of the connection does.
    pub open spec fn handled(
        self,
        msg: Result<Frame, TransportError>,
        after: SessionView,
        actions: Seq<Action>,
    ) -> bool {
        match msg {
            Ok(frame) => match frontend_of_frame(frame) {
                Ok(carried) => exists|request: FrontendMessage|
                    request@ == carried && after == #[trigger] self.after_request(request)
                        && actions == self.request_actions(request),
                Err(_) => after == self.closed() && actions == self.closing_actions(),
            },
            Err(_) => after == self.closed() && actions == self.closing_actions(),
        }
    }

    /// The event that a change reported on `channel` becomes for this
    /// session's client: what the channel forwards, as long as the session
    /// holds a subscription to the channel.
    pub open spec fn delivered(self, channel: Channel, payload: CommentsPayload) -> Option<
        BackendMessage,
    > {
        if self.subscribed(channel) {
            forwarded(channel, payload)
        } else {
            None
        }
    }
}

/// The relay's side of one client connection.
#[derive(Debug)]
pub struct WebSocket {
    state: SessionState,
    pg_handlers: Vec<Subscription>,
}

impl View for WebSocket {
    type V = SessionView;

    closed spec fn view(&self) -> SessionView {
        SessionView { state: self.state, subscriptions: self.pg_handlers@ }
    }
}

impl WebSocket {
    #[verifier::type_invariant]
    spec fn well_formed(self) -> bool {
        self@.wf()
    }

    /// A session on which nobody has logged in yet.
    pub fn new() -> (r: Self)
        ensures
            r@ == SessionView::initial(),
            r@.wf(),
    {
        WebSocket { state: SessionState::Anonymous, pg_handlers: Vec::new() }
    }

    /// Whether the session is over.
    pub fn is_closed(&self) -> (r: bool)
        ensures
            r == (self@.state == SessionState::Closed),
    {
        match self.state {
            SessionState::Closed => true,
            _ => false,
        }
    }

    /// The identity that has logged in, if one has.
    pub fn user(&self) -> (r: Option<User>)
        ensures
            r == (match self@.state {
                SessionState::Authenticated(user) => Some(user),
                _ => None,
            }),
    {
        match &self.state {
            SessionState::Authenticated(user) => Some(user.clone()),
            _ => None,
        }
    }

    /// The subscriptions that the session holds.
    pub fn subscriptions(&self) -> (r: Vec<Subscription>)
        ensures
            r@ == self@.subscriptions,
    {
        self.pg_handlers.clone()
    }

    /// Ends the session: every subscription is cancelled, the connection
    /// is closed, and nothing is taken up afterwards.
    pub fn close(&mut self) -> (actions: Vec<Action>)
        ensures
            final(self)@ == old(self)@.closed(),
            final(self)@.wf(),
            actions@ == old(self)@.closing_actions(),
    {
        proof {
            use_type_invariant(&*self);
        }
        let mut actions: Vec<Action> = Vec::new();
        if self.is_closed() {
            return actions;
        }
        let mut i: usize = 0;
        while i < self.pg_handlers.len()
            invariant
                i <= self.pg_handlers.len(),
                self.pg_handlers@ == old(self).pg_handlers@,
                self.state == old(self).state,
                actions@ == cancellations(self.pg_handlers@.take(i as int)),
            decreases self.pg_handlers.len() - i,
        {
            let subscription = self.pg_handlers[i];
            actions.push(Action::Cancel(subscription));
            assert(actions@ =~= cancellations(self.pg_handlers@.take(i + 1)));
            i += 1;
        }
        assert(self.pg_handlers@.take(i as int) =~= self.pg_handlers@);
        actions.push(Action::Stop);
        self.pg_handlers = Vec::new();
        self.state = SessionState::Closed;
        actions
    }

    /// Takes up one request of the client.
    pub fn request(&mut self, request: FrontendMessage) -> (actions: Vec<Action>)
        ensures
            final(self)@ == old(self)@.after_request(request),
            final(self)@.wf(),
            actions@ == old(self)@.request_actions(request),
    {
        proof {
            use_type_invariant(&*self);
        }
        match &self.state {
            SessionState::Closed => Vec::new(),
            SessionState::Anonymous => match request {
                FrontendMessage::Close(_) => self.close(),
                FrontendMessage::Login(username) => {
                    let mut actions: Vec<Action> = Vec::new();
                    actions.push(Action::InsertOrGetUser(NewUser { username }));
                    actions
                },
                _ => Vec::new(),
            },
            SessionState::Authenticated(_) => match request {
                FrontendMessage::Close(_) => self.close(),
                FrontendMessage::InsertComment((user, body)) => {
                    let mut actions: Vec<Action> = Vec::new();
                    actions.push(Action::InsertComment(NewComment { user_id: user.id, body }));
                    actions
                },
                FrontendMessage::DeleteComment(comment) => {
                    let mut actions: Vec<Action> = Vec::new();
                    actions.push(Action::DeleteComment(comment));
                    actions
                },
                _ => Vec::new(),
            },
        }
    }

    /// Takes up the store's answer to a login.
    pub fn login_result(&mut self, outcome: Result<User, PersistenceError>) -> (actions: Vec<
        Action,
    >)
        ensures
            final(self)@ == old(self)@.after_login_result(outcome),
            final(self)@.wf(),
            actions@ == old(self)@.login_actions(outcome),
    {
        proof {
            use_type_invariant(&*self);
        }
        let mut actions: Vec<Action> = Vec::new();
        match self.state {
            SessionState::Anonymous => {},
            _ => {
                return actions;
            },
        }
        match outcome {
            Ok(user) => {
                let global = Subscription { channel: Channel::CommentsChannel, handle: 0 };
                let owner = Subscription { channel: Channel::new(&user), handle: 1 };
                actions.push(Action::Send(BackendMessage::LoggedIn(user.clone())));
                actions.push(Action::Listen(global));
                actions.push(Action::Listen(owner));
                let mut handlers: Vec<Subscription> = Vec::new();
                handlers.push(global);
                handlers.push(owner);
                assert(handlers@ =~= seq![global_subscription(), owner_subscription(user)]);
                self.state = SessionState::Authenticated(user);
                self.pg_handlers = handlers;
                assert(actions@ =~= old(self)@.login_actions(outcome));
                actions
            },
            Err(_) => actions,
        }
    }

    /// Takes up the news that listening on `channel` could not start or
    /// has ended: the session no longer holds that subscription, and goes
    /// on without it.
    pub fn listener_failed(&mut self, channel: Channel, error: ListenerStartError)
        ensures
            final(self)@ == old(self)@.without(channel),
            final(self)@.wf(),
    {
        proof {
            use_type_invariant(&*self);
        }
        let mut kept: Vec<Subscription> = Vec::new();
        let mut i: usize = 0;
        while i < self.pg_handlers.len()
            invariant
                i <= self.pg_handlers.len(),
                self.pg_handlers@ == old(self).pg_handlers@,
                self.state == old(self).state,
                kept@ == self.pg_handlers@.take(i as int).filter(not_on(channel)),
            decreases self.pg_handlers.len() - i,
        {
            let subscription = self.pg_handlers[i];
            proof {
                let done = self.pg_handlers@.take(i as int);
                assert(self.pg_handlers@.take(i + 1) =~= done.push(subscription));
                lemma_filter_push(done, subscription, channel);
            }
            if !same_channel(subscription.channel, channel) {
                kept.push(subscription);
            }
            i += 1;
        }
        assert(self.pg_handlers@.take(i as int) =~= self.pg_handlers@);
        proof {
            lemma_without_wf(old(self)@, channel);
        }
        self.pg_handlers = kept;
    }

    /// Whether the session holds a subscription to `channel`.
    pub fn subscribed(&self, channel: Channel) -> (r: bool)
        ensures
            r == self@.subscribed(channel),
    {
        let mut i: usize = 0;
        while i < self.pg_handlers.len()
            invariant
                i <= self.pg_handlers.len(),
                forall|j: int| 0 <= j < i ==> (#[trigger] self.pg_handlers@[j]).channel != channel,
            decreases self.pg_handlers.len() - i,
        {
            if same_channel(self.pg_handlers[i].channel, channel) {
                return true;
            }
            i += 1;
        }
        false
    }

    /// Takes up a change that the feed reported on `channel`: the event to
    /// write to the client, if the session holds a subscription to the
    /// channel and the channel forwards such a change.
    pub fn notify(&self, channel: Channel, payload: CommentsPayload) -> (r: Option<BackendMessage>)
        ensures
            r == self@.delivered(channel, payload),
    {
        if self.subscribed(channel) {
            forward(channel, payload)
        } else {
            None
        }
    }

    /// Takes up what the connection delivered: a frame, or the failure to
    /// read one. The request that the frame carries is taken up; a frame
    /// that carries none, and a failure of the connection, end the
    /// session.
    pub fn handle(&mut self, msg: Result<Frame, TransportError>) -> (actions: Vec<Action>)
        ensures
            final(self)@.wf(),
            old(self)@.handled(msg, final(self)@, actions@),
    {
        proof {
            use_type_invariant(&*self);
        }
        match msg {
            Ok(frame) => match FrontendMessage::from_frame(frame) {
                Ok(request) => {
                    let actions = self.request(request);
                    proof {
                        assert(request@ == frontend_of_frame(frame)->Ok_0);
                    }
                    actions
                },
                Err(_) => self.close(),
            },
            Err(_) => self.close(),
        }
    }
}

/// Whether two channels are the same.
pub fn same_channel(a: Channel, b: Channel) -> (r: bool)
    ensures
        r == (a == b),
{
    match (a, b) {
        (Channel::CommentsChannel, Channel::CommentsChannel) => true,
        (Channel::CommentsUserChannel(x), Channel::CommentsUserChannel(y)) => x == y,
        _ => false,
    }
}

/// Before login a session takes up a login and nothing else: any other
/// request, a close request apart, leaves the session as it was and asks
/// for nothing, and no request at all makes it write to the client.
pub proof fn lemma_anonymous_takes_up_login_only(s: SessionView, request: FrontendMessage)
    requires
        s.wf(),
        s.state == SessionState::Anonymous,
    ensures
        request is Login ==> s.request_actions(request) == seq![
            Action::InsertOrGetUser(NewUser { username: request->Login_0 }),
        ],
        !(request is Close) ==> s.after_request(request) == s,
        !(request is Close) && !(request is Login) ==> s.request_actions(request)
            == Seq::<Action>::empty(),
        forall|i: int|
            0 <= i < s.request_actions(request).len() ==> !(
            #[trigger] s.request_actions(request)[i] is Send),
{
    assert(cancellations(s.subscriptions) =~= Seq::<Action>::empty());
}

/// Once an identity has logged in, its session holds the subscription to
/// the channel of all changes and the one to the identity's own channel,
/// none to the own channel of another identity, and the client has been
/// told.
pub proof fn lemma_login_subscribes(s: SessionView, user: User, other: i32)
    requires
        s.wf(),
        s.state == SessionState::Anonymous,
    ensures
        s.after_login_result(Ok(user)).wf(),
        s.after_login_result(Ok(user)).state == SessionState::Authenticated(user),
        s.after_login_result(Ok(user)).subscribed(Channel::CommentsChannel),
        s.after_login_result(Ok(user)).subscribed(Channel::CommentsUserChannel(user.id)),
        other != user.id ==> !s.after_login_result(Ok(user)).subscribed(
            Channel::CommentsUserChannel(other),
        ),
        s.login_actions(Ok(user))[0] == Action::Send(BackendMessage::LoggedIn(user)),
{
    let after = s.after_login_result(Ok(user));
    assert(after.subscriptions[0].channel == Channel::CommentsChannel);
    assert(after.subscriptions[1].channel == Channel::CommentsUserChannel(user.id));
}

/// A login that the store could not serve leaves the session as it was:
/// nobody is logged in, and nothing is asked for.
pub proof fn lemma_login_failure_changes_nothing(s: SessionView, error: PersistenceError)
    requires
        s.wf(),
    ensures
        s.after_login_result(Err(error)) == s,
        s.login_actions(Err(error)) == Seq::<Action>::empty(),
{
}

/// After the login of `user`, the creation of a comment that another
/// identity owns, reported on the channel of all changes, reaches the
/// client as a new comment. It reaches the client as the owner's event on
/// no channel on which the store reports it: not on the channel of all
/// changes, and not on the owner's own channel, to which this session
/// holds no subscription.
pub proof fn lemma_global_creation_reaches_client(
    s: SessionView,
    user: User,
    payload: CommentsPayload,
    channel: Channel,
)
    requires
        s.wf(),
        s.state == SessionState::Anonymous,
        payload.action_type == ActionType::INSERT,
        payload.user_id != user.id,
    ensures
        s.after_login_result(Ok(user)).delivered(Channel::CommentsChannel, payload) == Some(
            BackendMessage::NewComment(payload.comment()),
        ),
        s.after_login_result(Ok(user)).delivered(
            Channel::CommentsUserChannel(payload.user_id),
            payload,
        ) is None,
        channel != Channel::CommentsUserChannel(user.id) ==> !(s.after_login_result(
            Ok(user),
        ).delivered(channel, payload) is Some && s.after_login_result(Ok(user)).delivered(
            channel,
            payload,
        )->Some_0 is InsertedComment),
{
    lemma_login_subscribes(s, user, payload.user_id);
    match channel {
        Channel::CommentsChannel => {},
        Channel::CommentsUserChannel(other) => {
            lemma_login_subscribes(s, user, other);
        },
    }
}

/// After the login of `user`, a creation that the identity's own channel
/// reports reaches the client as the owner's event. An update or a
/// deletion that an identity's own channel reports reaches nobody,
/// whatever the session.
pub proof fn lemma_owner_channel_forwards_creations_only(
    s: SessionView,
    user: User,
    any: SessionView,
    owner: i32,
    payload: CommentsPayload,
)
    requires
        s.wf(),
        s.state == SessionState::Anonymous,
    ensures
        payload.action_type == ActionType::INSERT ==> s.after_login_result(Ok(user)).delivered(
            Channel::CommentsUserChannel(user.id),
            payload,
        ) == Some(BackendMessage::InsertedComment(payload.comment())),
        payload.action_type != ActionType::INSERT ==> any.delivered(
            Channel::CommentsUserChannel(owner),
            payload,
        ) is None,
{
    lemma_login_subscribes(s, user, owner);
}

/// Closing a session cancels each subscription that it holds, the two of
/// a login among them, and leaves it with none. After that no change on
/// any channel reaches the client, and no request or answer is taken up.
pub proof fn lemma_close_cancels_everything(
    s: SessionView,
    channel: Channel,
    payload: CommentsPayload,
    request: FrontendMessage,
    outcome: Result<User, PersistenceError>,
)
    requires
        s.wf(),
    ensures
        s.closed().wf(),
        s.closed().subscriptions.len() == 0,
        s.state != SessionState::Closed ==> s.closing_actions().len() == s.subscriptions.len() + 1,
        forall|i: int|
            0 <= i < s.subscriptions.len() && s.state != SessionState::Closed
                ==> #[trigger] s.closing_actions()[i] == Action::Cancel(s.subscriptions[i]),
        s.state is Authenticated && s.subscriptions.len() == 2 ==> s.closing_actions() == seq![
            Action::Cancel(global_subscription()),
            Action::Cancel(owner_subscription(s.state->Authenticated_0)),
            Action::Stop,
        ],
        s.closed().delivered(channel, payload) is None,
        s.closed().after_request(request) == s.closed(),
        s.closed().request_actions(request) == Seq::<Action>::empty(),
        s.closed().after_login_result(outcome) == s.closed(),
        s.closed().login_actions(outcome) == Seq::<Action>::empty(),
        s.closed().closing_actions() == Seq::<Action>::empty(),
{
    if s.state is Authenticated && s.subscriptions.len() == 2 {
        assert(s.closing_actions() =~= seq![
            Action::Cancel(global_subscription()),
            Action::Cancel(owner_subscription(s.state->Authenticated_0)),
            Action::Stop,
        ]);
    }
}

/// Only a failure of the connection and a frame that carries no request
/// end the session. A login that the store could not serve and a listener
/// that could not start leave the session in the state in which it was.
pub proof fn lemma_only_fatal_failures_end_the_session(
    s: SessionView,
    frame: Frame,
    after: SessionView,
    actions: Seq<Action>,
    transport: TransportError,
    store: PersistenceError,
    channel: Channel,
)
    requires
        s.wf(),
    ensures
        s.handled(Err(transport), after, actions) ==> after.state == SessionState::Closed,
        frontend_of_frame(frame) is Err && s.handled(Ok(frame), after, actions) ==> after.state
            == SessionState::Closed,
        s.after_login_result(Err(store)).state == s.state,
        s.without(channel).state == s.state,
{
}

/// Whatever happens to a session, it stays well-formed: it holds
/// subscriptions only while somebody is logged in, and never more than the
/// two of that identity.
pub proof fn lemma_session_stays_wf(
    s: SessionView,
    request: FrontendMessage,
    outcome: Result<User, PersistenceError>,
    channel: Channel,
)
    requires
        s.wf(),
    ensures
        SessionView::initial().wf(),
        s.after_request(request).wf(),
        s.after_login_result(outcome).wf(),
        s.without(channel).wf(),
        s.closed().wf(),
        s.subscriptions.len() <= 2,
{
    lemma_without_wf(s, channel);
}

proof fn lemma_filter_push(done: Seq<Subscription>, s: Subscription, channel: Channel)
    ensures
        done.push(s).filter(not_on(channel)) == if s.channel != channel {
            done.filter(not_on(channel)).push(s)
        } else {
            done.filter(not_on(channel))
        },
{
    done.lemma_filter_push(s, not_on(channel));
}

proof fn lemma_without_wf(v: SessionView, channel: Channel)
    requires
        v.wf(),
    ensures
        v.without(channel).wf(),
{
    let keep = not_on(channel);
    reveal(Seq::filter);
    let empty = Seq::<Subscription>::empty();
    assert(empty.filter(keep) =~= empty);
    match v.state {
        SessionState::Authenticated(user) => {
            let g = global_subscription();
            let o = owner_subscription(user);
            assert(seq![g] =~= empty.push(g));
            assert(seq![o] =~= empty.push(o));
            assert(seq![g, o] =~= empty.push(g).push(o));
            lemma_filter_push(empty, g, channel);
            lemma_filter_push(empty, o, channel);
            lemma_filter_push(empty.push(g), o, channel);
        },
        _ => {},
    }
}

} // verus!
