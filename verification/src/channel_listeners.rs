//! The change feed: the channels that the store publishes on, the events
//! it publishes, and what each event becomes for a client.

use crate::comments::Comment;
use crate::comments::CommentView;
use crate::errors::ListenerStartError;
use crate::errors::NotificationParseError;
use crate::json::int_json;
use crate::json::lemma_int_json_is_utf8;
use crate::json::lemma_words_differ;
use crate::json::put_int;
use crate::json::put_word;
use crate::json::read_word;
use crate::json::text_of;
use crate::messages::BackendMessage;
use crate::text::comment_fields_at;
use crate::text::comment_fields_json;
use crate::text::lemma_comment_fields_at;
use crate::text::lemma_comment_fields_json_is_utf8;
use crate::text::put_comment_fields;
use crate::text::read_comment_fields;
use crate::users::User;
use crate::wire::lemma_occurs_concat;
use crate::wire::occurs_at;
use vstd::prelude::*;
use vstd::string::is_ascii_spec_bytes;
use vstd::string::StringSliceAdditionalSpecFns;
use vstd::utf8::encode_utf8;
use vstd::utf8::encode_utf8_valid_utf8;
use vstd::utf8::valid_utf8_concat;

verus! {

/// What happened to a comment.
#[allow(clippy::upper_case_acronyms)]
#[derive(Debug, Clone, Copy, PartialEq, Eq, Structural)]
pub enum ActionType {
    /// The comment was created.
    INSERT,
    /// The comment was changed.
    UPDATE,
    /// The comment was deleted.
    DELETE,
}

/// One change as the store publishes it: what happened, and the comment it
/// happened to.
#[derive(Debug, PartialEq, Eq)]
pub struct CommentsPayload {
    pub action_type: ActionType,
    pub id: i32,
    pub user_id: i32,
    pub body: String,
}

impl CommentsPayload {
    /// The comment that the change is about.
    pub open spec fn comment(self) -> Comment {
        Comment { id: self.id, user_id: self.user_id, body: self.body }
    }

    /// The comment that the change is about.
    pub fn into_comment(self) -> (c: Comment)
        ensures
            c == self.comment(),
    {
        Comment { id: self.id, user_id: self.user_id, body: self.body }
    }
}

/// A channel of the change feed.
#[derive(Debug, Clone, Copy, PartialEq, Eq, Structural)]
pub enum Channel {
    /// Every change to every comment.
    CommentsChannel,
    /// The changes to the comments that one identity owns: the identity's
    /// id.
    CommentsUserChannel(i32),
}

/// The name under which the store knows a channel, in UTF-8 bytes:
/// `comments` for the channel of all changes, and `comments_user_` with the
/// identity's id in decimal for an identity's own channel.
pub open spec fn channel_name(channel: Channel) -> Seq<u8> {
    match channel {
        Channel::CommentsChannel => "comments".spec_bytes(),
        Channel::CommentsUserChannel(id) => "comments_user_".spec_bytes() + int_json(id as int),
    }
}

impl Channel {
    /// The channel of the changes to the comments that `user` owns.
    pub fn new(user: &User) -> (c: Channel)
        ensures
            c == Channel::CommentsUserChannel(user.id),
    {
        Channel::CommentsUserChannel(user.id)
    }

    /// The name under which the store knows the channel.
    pub fn name(&self) -> (r: String)
        ensures
            encode_utf8(r@) == channel_name(*self),
    {
        match self {
            Channel::CommentsChannel => "comments".to_owned(),
            Channel::CommentsUserChannel(id) => {
                let mut bytes: Vec<u8> = Vec::new();
                put_word(&mut bytes, "comments_user_");
                put_int(&mut bytes, *id);
                proof {
                    let head = "comments_user_".spec_bytes();
                    let tail = int_json(*id as int);
                    lemma_int_json_is_utf8(*id as int);
                    encode_utf8_valid_utf8("comments_user_"@);
                    valid_utf8_concat(head, tail);
                    assert(bytes@ =~= head + tail);
                }
                text_of(bytes)
            },
        }
    }
}

/// What a change that arrived on `channel` becomes for the client. The
/// channel of all changes forwards a creation, an update and a deletion,
/// each as its own event. An identity's own channel forwards a creation
/// only, as the owner's event: updates and deletions reach the client over
/// the channel of all changes already.
pub open spec fn forwarded(channel: Channel, payload: CommentsPayload) -> Option<BackendMessage> {
    match channel {
        Channel::CommentsChannel => match payload.action_type {
            ActionType::INSERT => Some(BackendMessage::NewComment(payload.comment())),
            ActionType::UPDATE => Some(BackendMessage::UpdatedComment(payload.comment())),
            ActionType::DELETE => Some(BackendMessage::DeletedComment(payload.comment())),
        },
        Channel::CommentsUserChannel(_) => match payload.action_type {
            ActionType::INSERT => Some(BackendMessage::InsertedComment(payload.comment())),
            _ => None,
        },
    }
}

/// Turns a change that arrived on `channel` into the event for the client,
/// if the channel forwards such a change.
pub fn forward(channel: Channel, payload: CommentsPayload) -> (r: Option<BackendMessage>)
    ensures
        r == forwarded(channel, payload),
{
    match channel {
        Channel::CommentsChannel => match payload.action_type {
            ActionType::INSERT => Some(BackendMessage::NewComment(payload.into_comment())),
            ActionType::UPDATE => Some(BackendMessage::UpdatedComment(payload.into_comment())),
            ActionType::DELETE => Some(BackendMessage::DeletedComment(payload.into_comment())),
        },
        Channel::CommentsUserChannel(_) => match payload.action_type {
            ActionType::INSERT => Some(BackendMessage::InsertedComment(payload.into_comment())),
            _ => None,
        },
    }
}

/// The mathematical value of a [`CommentsPayload`].
pub struct CommentsPayloadView {
    pub action_type: ActionType,
    pub comment: CommentView,
}

impl View for CommentsPayload {
    type V = CommentsPayloadView;

    open spec fn view(&self) -> CommentsPayloadView {
        CommentsPayloadView {
            action_type: self.action_type,
            comment: CommentView { id: self.id, user_id: self.user_id, body: self.body@ },
        }
    }
}

/// The text that stands for what happened: the action's name in quotes.
pub open spec fn action_json(action: ActionType) -> Seq<u8> {
    match action {
        ActionType::INSERT => "\"INSERT\"".spec_bytes(),
        ActionType::UPDATE => "\"UPDATE\"".spec_bytes(),
        ActionType::DELETE => "\"DELETE\"".spec_bytes(),
    }
}

impl CommentsPayloadView {
    /// The text of a change as the store publishes it:
    /// `{"action_type":"..","id":..,"user_id":..,"body":".."}`, without
    /// blanks.
    pub open spec fn json(self) -> Seq<u8> {
        "{\"action_type\":".spec_bytes() + (action_json(self.action_type) + (",\"id\":".spec_bytes()
            + comment_fields_json(self.comment)))
    }
}

/// The change whose text `s` is, if it is the text of one.
pub open spec fn payload_decoding(s: Seq<u8>) -> Option<CommentsPayloadView> {
    if exists|v: CommentsPayloadView| #[trigger] v.json() == s {
        Some(choose|v: CommentsPayloadView| #[trigger] v.json() == s)
    } else {
        None
    }
}

spec fn action_at(s: Seq<u8>, pos: int) -> Option<(ActionType, int)> {
    if occurs_at(action_json(ActionType::INSERT), s, pos) {
        Some((ActionType::INSERT, pos + action_json(ActionType::INSERT).len()))
    } else if occurs_at(action_json(ActionType::UPDATE), s, pos) {
        Some((ActionType::UPDATE, pos + action_json(ActionType::UPDATE).len()))
    } else if occurs_at(action_json(ActionType::DELETE), s, pos) {
        Some((ActionType::DELETE, pos + action_json(ActionType::DELETE).len()))
    } else {
        None
    }
}

#[verifier::opaque]
spec fn payload_at(s: Seq<u8>, pos: int) -> Option<(CommentsPayloadView, int)> {
    if occurs_at("{\"action_type\":".spec_bytes(), s, pos) {
        match action_at(s, pos + "{\"action_type\":".spec_bytes().len()) {
            Some((action_type, p)) => if occurs_at(",\"id\":".spec_bytes(), s, p) {
                match comment_fields_at(s, p + ",\"id\":".spec_bytes().len()) {
                    Some((comment, q)) => Some((CommentsPayloadView { action_type, comment }, q)),
                    None => None,
                }
            } else {
                None
            },
            None => None,
        }
    } else {
        None
    }
}

proof fn lemma_action_at(s: Seq<u8>, pos: int, action: ActionType)
    ensures
        action_at(s, pos) == Some((action, pos + action_json(action).len())) <==> occurs_at(
            action_json(action),
            s,
            pos,
        ),
        action_at(s, pos) matches Some((w, p)) ==> p == pos + action_json(w).len(),
{
    reveal_strlit("\"INSERT\"");
    reveal_strlit("\"UPDATE\"");
    reveal_strlit("\"DELETE\"");
    is_ascii_spec_bytes("\"INSERT\"");
    is_ascii_spec_bytes("\"UPDATE\"");
    is_ascii_spec_bytes("\"DELETE\"");
    let i = action_json(ActionType::INSERT);
    let u = action_json(ActionType::UPDATE);
    let d = action_json(ActionType::DELETE);
    assert(i.len() == 8 && i[1] == 0x49);
    assert(u.len() == 8 && u[1] == 0x55);
    assert(d.len() == 8 && d[1] == 0x44);
    lemma_words_differ(i, u, s, pos, 1);
    lemma_words_differ(i, d, s, pos, 1);
    lemma_words_differ(u, d, s, pos, 1);
}

proof fn lemma_payload_at(s: Seq<u8>, pos: int, v: CommentsPayloadView)
    ensures
        payload_at(s, pos) == Some((v, pos + v.json().len())) <==> occurs_at(v.json(), s, pos),
        payload_at(s, pos) matches Some((w, p)) ==> p == pos + w.json().len(),
{
    reveal(payload_at);
    let a = "{\"action_type\":".spec_bytes();
    let b = action_json(v.action_type);
    let c = ",\"id\":".spec_bytes();
    let d = comment_fields_json(v.comment);
    lemma_occurs_concat(a, b + (c + d), s, pos);
    lemma_occurs_concat(b, c + d, s, pos + a.len());
    lemma_occurs_concat(c, d, s, pos + a.len() + b.len());
    lemma_action_at(s, pos + a.len(), v.action_type);
    lemma_comment_fields_at(s, pos + a.len() + b.len() + c.len(), v.comment);
    if let Some((w, p)) = payload_at(s, pos) {
        let b2 = action_json(w.action_type);
        lemma_action_at(s, pos + a.len(), w.action_type);
        lemma_comment_fields_at(s, pos + a.len() + b2.len() + c.len(), w.comment);
    }
}

/// Parsing is determined by the text of changes: `v` is what `s` parses
/// to exactly when `s` is the text of `v`. In particular no two changes
/// have the same text.
pub proof fn lemma_payload_decoding(s: Seq<u8>, v: CommentsPayloadView)
    ensures
        payload_decoding(s) == Some(v) <==> v.json() == s,
        payload_decoding(v.json()) == Some(v),
{
    lemma_payload_at(s, 0, v);
    lemma_payload_at(v.json(), 0, v);
    assert(v.json().subrange(0, v.json().len() as int) =~= v.json());
    assert(s.subrange(0, s.len() as int) =~= s);
    if let Some(w) = payload_decoding(s) {
        lemma_payload_at(s, 0, w);
    }
    if let Some(w) = payload_decoding(v.json()) {
        lemma_payload_at(v.json(), 0, w);
    }
}

impl CommentsPayload {
    /// The text of the change, as the store publishes it.
    pub fn to_json(&self) -> (text: String)
        ensures
            encode_utf8(text@) == self@.json(),
    {
        let mut out: Vec<u8> = Vec::new();
        put_word(&mut out, "{\"action_type\":");
        match self.action_type {
            ActionType::INSERT => put_word(&mut out, "\"INSERT\""),
            ActionType::UPDATE => put_word(&mut out, "\"UPDATE\""),
            ActionType::DELETE => put_word(&mut out, "\"DELETE\""),
        }
        put_word(&mut out, ",\"id\":");
        let comment = Comment { id: self.id, user_id: self.user_id, body: self.body.clone() };
        put_comment_fields(&mut out, &comment);
        assert(out@ =~= self@.json());
        proof {
            let a = "{\"action_type\":".spec_bytes();
            let b = action_json(self.action_type);
            let c = ",\"id\":".spec_bytes();
            let d = comment_fields_json(self@.comment);
            encode_utf8_valid_utf8("{\"action_type\":"@);
            encode_utf8_valid_utf8("\"INSERT\""@);
            encode_utf8_valid_utf8("\"UPDATE\""@);
            encode_utf8_valid_utf8("\"DELETE\""@);
            encode_utf8_valid_utf8(",\"id\":"@);
            lemma_comment_fields_json_is_utf8(self@.comment);
            valid_utf8_concat(c, d);
            valid_utf8_concat(b, c + d);
            valid_utf8_concat(a, b + (c + d));
        }
        text_of(out)
    }

    /// Parses one notification of the change feed: the change whose text
    /// the payload is. Any other payload is a parse error.
    pub fn parse(payload: &str) -> (r: Result<CommentsPayload, NotificationParseError>)
        ensures
            match r {
                Ok(p) => payload_decoding(payload.spec_bytes()) == Some(p@),
                Err(_) => payload_decoding(payload.spec_bytes()) is None,
            },
    {
        let bytes = payload.as_bytes();
        let parsed = Self::read(bytes);
        proof {
            if let Some(w) = payload_decoding(bytes@) {
                lemma_payload_decoding(bytes@, w);
                lemma_payload_at(bytes@, 0, w);
                assert(bytes@.subrange(0, bytes@.len() as int) =~= bytes@);
            }
        }
        match parsed {
            Some((p, end)) => {
                proof {
                    lemma_payload_at(bytes@, 0, p@);
                    lemma_payload_decoding(bytes@, p@);
                    assert(bytes@.subrange(0, bytes@.len() as int) =~= bytes@);
                }
                if end == bytes.len() {
                    Ok(p)
                } else {
                    Err(NotificationParseError)
                }
            },
            None => Err(NotificationParseError),
        }
    }

    fn read(bytes: &[u8]) -> (r: Option<(CommentsPayload, usize)>)
        ensures
            match r {
                Some((p, end)) => payload_at(bytes@, 0) == Some((p@, end as int)),
                None => payload_at(bytes@, 0) is None,
            },
    {
        proof {
            reveal(payload_at);
        }
        let pa = match read_word(bytes, 0, "{\"action_type\":") {
            Some(p) => p,
            None => {
                return None;
            },
        };
        let (action_type, pb) = if let Some(p) = read_word(bytes, pa, "\"INSERT\"") {
            (ActionType::INSERT, p)
        } else if let Some(p) = read_word(bytes, pa, "\"UPDATE\"") {
            (ActionType::UPDATE, p)
        } else if let Some(p) = read_word(bytes, pa, "\"DELETE\"") {
            (ActionType::DELETE, p)
        } else {
            return None;
        };
        let pc = match read_word(bytes, pb, ",\"id\":") {
            Some(p) => p,
            None => {
                return None;
            },
        };
        match read_comment_fields(bytes, pc) {
            Some((c, end)) => Some(
                (CommentsPayload { action_type, id: c.id, user_id: c.user_id, body: c.body }, end),
            ),
            None => None,
        }
    }
}

/// Where a listener stands.
#[derive(Debug, Clone, Copy, PartialEq, Eq, Structural)]
pub enum ListenerState {
    /// The listener waits for its own connection to the store.
    Connecting,
    /// The listener is subscribed and waits for notifications.
    Listening,
    /// The listener is over.
    Ended,
}

/// What happens to a listener.
#[derive(Debug, PartialEq, Eq)]
pub enum ListenerEvent {
    /// The listener's own connection to the store was opened.
    Connected,
    /// The listener's own connection to the store could not be opened.
    ConnectFailed,
    /// A notification arrived: its payload.
    Notification(String),
    /// The connection to the store was lost.
    ConnectionLost,
    /// The listener's owner cancels it.
    Cancelled,
}

/// What a listener asks its surroundings to do.
#[derive(Debug, PartialEq, Eq)]
pub enum ListenerAction {
    /// Subscribe to this channel on the listener's connection.
    Subscribe(Channel),
    /// Hand this change to the listener's owner.
    Deliver(CommentsPayload),
    /// Record that a notification could not be parsed, and drop it.
    Skip(NotificationParseError),
    /// Tell the owner, once, that listening could not start.
    Report(ListenerStartError),
    /// Release the listener's connection.
    Release,
    /// Nothing.
    Nothing,
}

/// A listener on one channel of the change feed.
#[derive(Debug, Clone, Copy, PartialEq, Eq, Structural)]
pub struct Listener {
    pub channel: Channel,
    pub state: ListenerState,
}

/// What a notification with this payload makes a subscribed listener do:
/// hand the change on where the payload is the text of one, skip the
/// notification otherwise.
pub open spec fn notified(payload: Seq<u8>, action: ListenerAction) -> bool {
    match payload_decoding(payload) {
        Some(change) => action matches ListenerAction::Deliver(p) && p@ == change,
        None => action == ListenerAction::Skip(NotificationParseError),
    }
}

impl Listener {
    /// The state after an event. A listener that waits for its connection
    /// becomes subscribed when the connection is there, and is over when
    /// the connection cannot be had or the owner cancels. A subscribed
    /// listener stays subscribed through every notification, well-formed
    /// or not, and is over when the owner cancels or the connection is
    /// lost. A listener that is over stays so.
    pub open spec fn next_state(self, event: ListenerEvent) -> ListenerState {
        match (self.state, event) {
            (ListenerState::Connecting, ListenerEvent::Connected) => ListenerState::Listening,
            (ListenerState::Connecting, ListenerEvent::ConnectFailed) => ListenerState::Ended,
            (ListenerState::Connecting, ListenerEvent::Cancelled) => ListenerState::Ended,
            (ListenerState::Listening, ListenerEvent::Cancelled) => ListenerState::Ended,
            (ListenerState::Listening, ListenerEvent::ConnectionLost) => ListenerState::Ended,
            (state, _) => state,
        }
    }

    /// Whether `action` is what the event asks for.
    pub open spec fn asks(self, event: ListenerEvent, action: ListenerAction) -> bool {
        match (self.state, event) {
            (ListenerState::Connecting, ListenerEvent::Connected) => action
                == ListenerAction::Subscribe(self.channel),
            (ListenerState::Connecting, ListenerEvent::ConnectFailed) => action
                == ListenerAction::Report(ListenerStartError),
            (ListenerState::Listening, ListenerEvent::Notification(payload)) => notified(
                encode_utf8(payload@),
                action,
            ),
            (ListenerState::Listening, ListenerEvent::Cancelled) => action
                == ListenerAction::Release,
            (ListenerState::Listening, ListenerEvent::ConnectionLost) => action
                == ListenerAction::Release,
            _ => action == ListenerAction::Nothing,
        }
    }

    /// Takes up one event.
    pub fn step(&mut self, event: ListenerEvent) -> (action: ListenerAction)
        ensures
            final(self).channel == old(self).channel,
            final(self).state == old(self).next_state(event),
            old(self).asks(event, action),
    {
        match self.state {
            ListenerState::Connecting => match event {
                ListenerEvent::Connected => {
                    self.state = ListenerState::Listening;
                    ListenerAction::Subscribe(self.channel)
                },
                ListenerEvent::ConnectFailed => {
                    self.state = ListenerState::Ended;
                    ListenerAction::Report(ListenerStartError)
                },
                ListenerEvent::Cancelled => {
                    self.state = ListenerState::Ended;
                    ListenerAction::Nothing
                },
                _ => ListenerAction::Nothing,
            },
            ListenerState::Listening => match event {
                ListenerEvent::Notification(payload) => match CommentsPayload::parse(
                    payload.as_str(),
                ) {
                    Ok(change) => ListenerAction::Deliver(change),
                    Err(e) => ListenerAction::Skip(e),
                },
                ListenerEvent::Cancelled => {
                    self.state = ListenerState::Ended;
                    ListenerAction::Release
                },
                ListenerEvent::ConnectionLost => {
                    self.state = ListenerState::Ended;
                    ListenerAction::Release
                },
                _ => ListenerAction::Nothing,
            },
            ListenerState::Ended => ListenerAction::Nothing,
        }
    }
}

/// A listener on `channel` that waits for its own connection to the store.
pub fn start_listening(channel: Channel) -> (r: Listener)
    ensures
        r == (Listener { channel, state: ListenerState::Connecting }),
{
    Listener { channel, state: ListenerState::Connecting }
}

/// One notification that cannot be parsed does not end the subscription,
/// and neither does one that can: the listener stays subscribed, and a
/// change is handed on exactly where the payload is the text of one.
pub proof fn lemma_notification_keeps_listening(
    listener: Listener,
    payload: String,
    action: ListenerAction,
)
    requires
        listener.state == ListenerState::Listening,
        listener.asks(ListenerEvent::Notification(payload), action),
    ensures
        listener.next_state(ListenerEvent::Notification(payload)) == ListenerState::Listening,
        action is Deliver <==> payload_decoding(encode_utf8(payload@)) is Some,
        action is Skip <==> payload_decoding(encode_utf8(payload@)) is None,
{
}

/// A listener that is over stays over and asks for nothing: once
/// cancelled it hands no change on, and its connection is released exactly
/// when it ends while subscribed.
pub proof fn lemma_ended_listener_is_silent(
    listener: Listener,
    event: ListenerEvent,
    action: ListenerAction,
)
    requires
        listener.asks(event, action),
    ensures
        listener.state == ListenerState::Ended ==> action == ListenerAction::Nothing
            && listener.next_state(event) == ListenerState::Ended,
        action is Deliver ==> listener.state == ListenerState::Listening,
        listener.state == ListenerState::Listening && listener.next_state(event)
            == ListenerState::Ended ==> action == ListenerAction::Release,
        event is Cancelled ==> listener.next_state(event) == ListenerState::Ended,
        action is Report ==> listener.state == ListenerState::Connecting && listener.next_state(
            event,
        ) == ListenerState::Ended,
{
}

} // verus!
