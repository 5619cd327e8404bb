//! The binary framing of messages: a four-byte variant index, then the
//! variant's fields. Encoding gives each message its bytes; decoding finds
//! the one message whose bytes start the input, and rejects the input where
//! there is none.

use crate::layout::comment_at;
use crate::layout::comments_at;
use crate::layout::comments_encoding;
use crate::layout::comments_wf;
use crate::layout::lemma_comment_at;
use crate::layout::lemma_comments_at;
use crate::layout::lemma_opt_close_at;
use crate::layout::lemma_user_at;
use crate::layout::opt_close_at;
use crate::layout::opt_close_encoding;
use crate::layout::opt_close_wf;
use crate::layout::put_comment;
use crate::layout::put_comments;
use crate::layout::put_opt_close;
use crate::layout::put_user;
use crate::layout::read_comment;
use crate::layout::read_comments;
use crate::layout::read_opt_close;
use crate::layout::read_user;
use crate::layout::user_at;
use crate::messages::BackendMessage;
use crate::messages::BackendMessageView;
use crate::messages::Direction;
use crate::messages::Envelope;
use crate::messages::EnvelopeView;
use crate::messages::FrontendMessage;
use crate::messages::FrontendMessageView;
use crate::wire::lemma_le_bytes_len;
use crate::wire::lemma_occurs_concat;
use crate::wire::lemma_pow256_values;
use crate::wire::lemma_str_at;
use crate::wire::lemma_uint_at;
use crate::wire::occurs_at;
use crate::wire::put_le;
use crate::wire::put_str;
use crate::wire::read_str;
use crate::wire::read_uint;
use crate::wire::str_at;
use crate::wire::str_encoding;
use crate::wire::str_wf;
use crate::wire::u32_encoding;
use crate::wire::uint_at;
use vstd::prelude::*;

verus! {

/// Why an incoming frame could not be turned into a message.
#[derive(Debug, Clone, Copy, PartialEq, Eq, Structural)]
pub enum ProtocolError {
    /// The body is not the encoding of any message: the variant index is
    /// unknown, the body ends early, or a field is ill-formed.
    Malformed,
    /// The frame is of a kind that carries no message.
    UnexpectedFrame,
}

impl FrontendMessageView {
    /// The request can be encoded: its texts fit their length prefixes.
    pub open spec fn wf(self) -> bool {
        match self {
            FrontendMessageView::Close(o) => opt_close_wf(o),
            FrontendMessageView::Login(name) => str_wf(name),
            FrontendMessageView::InsertComment(user, body) => user.wf() && str_wf(body),
            FrontendMessageView::DeleteComment(c) => c.wf(),
        }
    }

    /// The index that stands for the request's variant.
    pub open spec fn tag(self) -> u32 {
        match self {
            FrontendMessageView::Close(_) => 0,
            FrontendMessageView::Login(_) => 1,
            FrontendMessageView::InsertComment(_, _) => 2,
            FrontendMessageView::DeleteComment(_) => 3,
        }
    }

    /// The layout of the request's fields.
    pub open spec fn payload(self) -> Seq<u8> {
        match self {
            FrontendMessageView::Close(o) => opt_close_encoding(o),
            FrontendMessageView::Login(name) => str_encoding(name),
            FrontendMessageView::InsertComment(user, body) => user.encoding() + str_encoding(body),
            FrontendMessageView::DeleteComment(c) => c.encoding(),
        }
    }

    /// The request's bytes: variant index, then fields.
    pub open spec fn encoding(self) -> Seq<u8> {
        u32_encoding(self.tag()) + self.payload()
    }
}

impl BackendMessageView {
    /// The event can be encoded: its texts and lists fit their length
    /// prefixes.
    pub open spec fn wf(self) -> bool {
        match self {
            BackendMessageView::LoggedIn(u) => u.wf(),
            BackendMessageView::NewComment(c) => c.wf(),
            BackendMessageView::InsertedComment(c) => c.wf(),
            BackendMessageView::Comments(list) => comments_wf(list),
            BackendMessageView::DeletedComment(c) => c.wf(),
            BackendMessageView::UpdatedComment(c) => c.wf(),
        }
    }

    /// The index that stands for the event's variant.
    pub open spec fn tag(self) -> u32 {
        match self {
            BackendMessageView::LoggedIn(_) => 0,
            BackendMessageView::NewComment(_) => 1,
            BackendMessageView::InsertedComment(_) => 2,
            BackendMessageView::Comments(_) => 3,
            BackendMessageView::DeletedComment(_) => 4,
            BackendMessageView::UpdatedComment(_) => 5,
        }
    }

    /// The layout of the event's fields.
    pub open spec fn payload(self) -> Seq<u8> {
        match self {
            BackendMessageView::LoggedIn(u) => u.encoding(),
            BackendMessageView::NewComment(c) => c.encoding(),
            BackendMessageView::InsertedComment(c) => c.encoding(),
            BackendMessageView::Comments(list) => comments_encoding(list),
            BackendMessageView::DeletedComment(c) => c.encoding(),
            BackendMessageView::UpdatedComment(c) => c.encoding(),
        }
    }

    /// The event's bytes: variant index, then fields.
    pub open spec fn encoding(self) -> Seq<u8> {
        u32_encoding(self.tag()) + self.payload()
    }
}

impl EnvelopeView {
    /// The message can be encoded.
    pub open spec fn wf(self) -> bool {
        match self {
            EnvelopeView::ClientRequest(m) => m.wf(),
            EnvelopeView::ServerEvent(m) => m.wf(),
        }
    }

    /// The message's bytes.
    pub open spec fn encoding(self) -> Seq<u8> {
        match self {
            EnvelopeView::ClientRequest(m) => m.encoding(),
            EnvelopeView::ServerEvent(m) => m.encoding(),
        }
    }

    /// The direction in which the message travels.
    pub open spec fn direction(self) -> Direction {
        match self {
            EnvelopeView::ClientRequest(_) => Direction::ToServer,
            EnvelopeView::ServerEvent(_) => Direction::ToClient,
        }
    }
}

/// The request whose encoding starts `s`, if there is one.
pub open spec fn frontend_decoding(s: Seq<u8>) -> Option<FrontendMessageView> {
    if exists|v: FrontendMessageView| v.wf() && (#[trigger] v.encoding()).is_prefix_of(s) {
        Some(choose|v: FrontendMessageView| v.wf() && (#[trigger] v.encoding()).is_prefix_of(s))
    } else {
        None
    }
}

/// The event whose encoding starts `s`, if there is one.
pub open spec fn backend_decoding(s: Seq<u8>) -> Option<BackendMessageView> {
    if exists|v: BackendMessageView| v.wf() && (#[trigger] v.encoding()).is_prefix_of(s) {
        Some(choose|v: BackendMessageView| v.wf() && (#[trigger] v.encoding()).is_prefix_of(s))
    } else {
        None
    }
}

/// The message of the given direction whose encoding starts `s`, if there
/// is one.
pub open spec fn envelope_decoding(direction: Direction, s: Seq<u8>) -> Option<EnvelopeView> {
    match direction {
        Direction::ToServer => match frontend_decoding(s) {
            Some(m) => Some(EnvelopeView::ClientRequest(m)),
            None => None,
        },
        Direction::ToClient => match backend_decoding(s) {
            Some(m) => Some(EnvelopeView::ServerEvent(m)),
            None => None,
        },
    }
}

/// What reading a request at `pos` yields.
spec fn frontend_at(s: Seq<u8>, pos: int) -> Option<(FrontendMessageView, int)> {
    match uint_at(s, pos, 4) {
        Some((tag, p)) => if tag == 0 {
            match opt_close_at(s, p) {
                Some((o, q)) => Some((FrontendMessageView::Close(o), q)),
                None => None,
            }
        } else if tag == 1 {
            match str_at(s, p) {
                Some((name, q)) => Some((FrontendMessageView::Login(name), q)),
                None => None,
            }
        } else if tag == 2 {
            match user_at(s, p) {
                Some((user, q)) => match str_at(s, q) {
                    Some((body, r)) => Some((FrontendMessageView::InsertComment(user, body), r)),
                    None => None,
                },
                None => None,
            }
        } else if tag == 3 {
            match comment_at(s, p) {
                Some((c, q)) => Some((FrontendMessageView::DeleteComment(c), q)),
                None => None,
            }
        } else {
            None
        },
        None => None,
    }
}

/// What reading an event at `pos` yields.
spec fn backend_at(s: Seq<u8>, pos: int) -> Option<(BackendMessageView, int)> {
    match uint_at(s, pos, 4) {
        Some((tag, p)) => if tag == 0 {
            match user_at(s, p) {
                Some((u, q)) => Some((BackendMessageView::LoggedIn(u), q)),
                None => None,
            }
        } else if tag == 1 {
            match comment_at(s, p) {
                Some((c, q)) => Some((BackendMessageView::NewComment(c), q)),
                None => None,
            }
        } else if tag == 2 {
            match comment_at(s, p) {
                Some((c, q)) => Some((BackendMessageView::InsertedComment(c), q)),
                None => None,
            }
        } else if tag == 3 {
            match comments_at(s, p) {
                Some((list, q)) => Some((BackendMessageView::Comments(list), q)),
                None => None,
            }
        } else if tag == 4 {
            match comment_at(s, p) {
                Some((c, q)) => Some((BackendMessageView::DeletedComment(c), q)),
                None => None,
            }
        } else if tag == 5 {
            match comment_at(s, p) {
                Some((c, q)) => Some((BackendMessageView::UpdatedComment(c), q)),
                None => None,
            }
        } else {
            None
        },
        None => None,
    }
}

proof fn lemma_frontend_payload_at(s: Seq<u8>, p: int, v: FrontendMessageView)
    ensures
        v.wf() && occurs_at(v.payload(), s, p) <==> (match v {
            FrontendMessageView::Close(o) => opt_close_at(s, p) == Some(
                (o, p + v.payload().len()),
            ),
            FrontendMessageView::Login(name) => str_at(s, p) == Some(
                (name, p + v.payload().len()),
            ),
            FrontendMessageView::InsertComment(user, body) => user_at(s, p) == Some(
                (user, p + user.encoding().len()),
            ) && str_at(s, p + user.encoding().len()) == Some((body, p + v.payload().len())),
            FrontendMessageView::DeleteComment(c) => comment_at(s, p) == Some(
                (c, p + v.payload().len()),
            ),
        }),
{
    match v {
        FrontendMessageView::Close(o) => {
            lemma_opt_close_at(s, p, o);
        },
        FrontendMessageView::Login(name) => {
            lemma_str_at(s, p, name);
        },
        FrontendMessageView::InsertComment(user, body) => {
            lemma_occurs_concat(user.encoding(), str_encoding(body), s, p);
            lemma_user_at(s, p, user);
            lemma_str_at(s, p + user.encoding().len(), body);
        },
        FrontendMessageView::DeleteComment(c) => {
            lemma_comment_at(s, p, c);
        },
    }
}

/// A request read at `pos` is the one whose encoding stands there.
proof fn lemma_frontend_at(s: Seq<u8>, pos: int, v: FrontendMessageView)
    ensures
        frontend_at(s, pos) == Some((v, pos + v.encoding().len())) <==> v.wf() && occurs_at(
            v.encoding(),
            s,
            pos,
        ),
        frontend_at(s, pos) matches Some((w, p)) ==> p == pos + w.encoding().len(),
{
    lemma_pow256_values();
    lemma_le_bytes_len(v.tag() as nat, 4);
    lemma_occurs_concat(u32_encoding(v.tag()), v.payload(), s, pos);
    lemma_uint_at(s, pos, 4, v.tag() as nat);
    lemma_frontend_payload_at(s, pos + 4, v);
    if let Some((tag, p)) = uint_at(s, pos, 4) {
        match v {
            FrontendMessageView::InsertComment(user, body) => {
                lemma_user_at(s, p, user);
            },
            _ => {},
        }
    }
    if let Some((w, p)) = frontend_at(s, pos) {
        lemma_le_bytes_len(w.tag() as nat, 4);
        match w {
            FrontendMessageView::Close(o) => {
                lemma_opt_close_at(s, pos + 4, o);
            },
            FrontendMessageView::Login(name) => {
                lemma_str_at(s, pos + 4, name);
            },
            FrontendMessageView::InsertComment(user, body) => {
                lemma_user_at(s, pos + 4, user);
                lemma_str_at(s, pos + 4 + user.encoding().len(), body);
            },
            FrontendMessageView::DeleteComment(c) => {
                lemma_comment_at(s, pos + 4, c);
            },
        }
    }
}

proof fn lemma_backend_payload_at(s: Seq<u8>, p: int, v: BackendMessageView)
    ensures
        v.wf() && occurs_at(v.payload(), s, p) <==> (match v {
            BackendMessageView::LoggedIn(u) => user_at(s, p) == Some((u, p + v.payload().len())),
            BackendMessageView::NewComment(c) => comment_at(s, p) == Some(
                (c, p + v.payload().len()),
            ),
            BackendMessageView::InsertedComment(c) => comment_at(s, p) == Some(
                (c, p + v.payload().len()),
            ),
            BackendMessageView::Comments(list) => comments_at(s, p) == Some(
                (list, p + v.payload().len()),
            ),
            BackendMessageView::DeletedComment(c) => comment_at(s, p) == Some(
                (c, p + v.payload().len()),
            ),
            BackendMessageView::UpdatedComment(c) => comment_at(s, p) == Some(
                (c, p + v.payload().len()),
            ),
        }),
{
    match v {
        BackendMessageView::LoggedIn(u) => {
            lemma_user_at(s, p, u);
        },
        BackendMessageView::NewComment(c) => {
            lemma_comment_at(s, p, c);
        },
        BackendMessageView::InsertedComment(c) => {
            lemma_comment_at(s, p, c);
        },
        BackendMessageView::Comments(list) => {
            lemma_comments_at(s, p, list);
        },
        BackendMessageView::DeletedComment(c) => {
            lemma_comment_at(s, p, c);
        },
        BackendMessageView::UpdatedComment(c) => {
            lemma_comment_at(s, p, c);
        },
    }
}

/// An event read at `pos` is the one whose encoding stands there.
proof fn lemma_backend_at(s: Seq<u8>, pos: int, v: BackendMessageView)
    ensures
        backend_at(s, pos) == Some((v, pos + v.encoding().len())) <==> v.wf() && occurs_at(
            v.encoding(),
            s,
            pos,
        ),
        backend_at(s, pos) matches Some((w, p)) ==> p == pos + w.encoding().len(),
{
    lemma_pow256_values();
    lemma_le_bytes_len(v.tag() as nat, 4);
    lemma_occurs_concat(u32_encoding(v.tag()), v.payload(), s, pos);
    lemma_uint_at(s, pos, 4, v.tag() as nat);
    lemma_backend_payload_at(s, pos + 4, v);
    if let Some((w, p)) = backend_at(s, pos) {
        lemma_le_bytes_len(w.tag() as nat, 4);
        match w {
            BackendMessageView::LoggedIn(u) => {
                lemma_user_at(s, pos + 4, u);
            },
            BackendMessageView::NewComment(c) => {
                lemma_comment_at(s, pos + 4, c);
            },
            BackendMessageView::InsertedComment(c) => {
                lemma_comment_at(s, pos + 4, c);
            },
            BackendMessageView::Comments(list) => {
                lemma_comments_at(s, pos + 4, list);
            },
            BackendMessageView::DeletedComment(c) => {
                lemma_comment_at(s, pos + 4, c);
            },
            BackendMessageView::UpdatedComment(c) => {
                lemma_comment_at(s, pos + 4, c);
            },
        }
    }
}

proof fn lemma_prefix_occurs(e: Seq<u8>, s: Seq<u8>)
    ensures
        e.is_prefix_of(s) <==> occurs_at(e, s, 0),
{
}

/// Decoding is determined by encoding: `v` is what `s` decodes to exactly
/// when `v` can be encoded and its encoding starts `s`. In particular no
/// two requests have encodings of which one starts the other.
pub proof fn lemma_frontend_decoding(s: Seq<u8>, v: FrontendMessageView)
    ensures
        frontend_decoding(s) == Some(v) <==> v.wf() && v.encoding().is_prefix_of(s),
{
    lemma_frontend_at(s, 0, v);
    lemma_prefix_occurs(v.encoding(), s);
    if let Some(w) = frontend_decoding(s) {
        lemma_frontend_at(s, 0, w);
        lemma_prefix_occurs(w.encoding(), s);
    }
}

/// Decoding is determined by encoding: `v` is what `s` decodes to exactly
/// when `v` can be encoded and its encoding starts `s`. In particular no
/// two events have encodings of which one starts the other.
pub proof fn lemma_backend_decoding(s: Seq<u8>, v: BackendMessageView)
    ensures
        backend_decoding(s) == Some(v) <==> v.wf() && v.encoding().is_prefix_of(s),
{
    lemma_backend_at(s, 0, v);
    lemma_prefix_occurs(v.encoding(), s);
    if let Some(w) = backend_decoding(s) {
        lemma_backend_at(s, 0, w);
        lemma_prefix_occurs(w.encoding(), s);
    }
}

/// Decoding a request's encoding gives the request back, whatever bytes
/// follow the encoding.
pub proof fn lemma_frontend_round_trip(v: FrontendMessageView, rest: Seq<u8>)
    requires
        v.wf(),
    ensures
        frontend_decoding(v.encoding()) == Some(v),
        frontend_decoding(v.encoding() + rest) == Some(v),
{
    lemma_frontend_decoding(v.encoding(), v);
    lemma_frontend_decoding(v.encoding() + rest, v);
    assert((v.encoding() + rest).subrange(0, v.encoding().len() as int) =~= v.encoding());
}

/// Decoding an event's encoding gives the event back, whatever bytes
/// follow the encoding.
pub proof fn lemma_backend_round_trip(v: BackendMessageView, rest: Seq<u8>)
    requires
        v.wf(),
    ensures
        backend_decoding(v.encoding()) == Some(v),
        backend_decoding(v.encoding() + rest) == Some(v),
{
    lemma_backend_decoding(v.encoding(), v);
    lemma_backend_decoding(v.encoding() + rest, v);
    assert((v.encoding() + rest).subrange(0, v.encoding().len() as int) =~= v.encoding());
}

/// Decoding a message's encoding, in the message's direction, gives the
/// message back.
pub proof fn lemma_envelope_round_trip(v: EnvelopeView)
    requires
        v.wf(),
    ensures
        envelope_decoding(v.direction(), v.encoding()) == Some(v),
{
    match v {
        EnvelopeView::ClientRequest(m) => {
            lemma_frontend_round_trip(m, Seq::empty());
        },
        EnvelopeView::ServerEvent(m) => {
            lemma_backend_round_trip(m, Seq::empty());
        },
    }
}

fn read_frontend(bytes: &[u8], pos: usize) -> (r: Option<(FrontendMessage, usize)>)
    requires
        pos <= bytes@.len(),
    ensures
        match r {
            Some((m, p)) => frontend_at(bytes@, pos as int) == Some((m@, p as int)),
            None => frontend_at(bytes@, pos as int) is None,
        },
{
    let (tag, p) = match read_uint(bytes, pos, 4) {
        Some(pair) => pair,
        None => {
            return None;
        },
    };
    if tag == 0 {
        match read_opt_close(bytes, p) {
            Some((o, q)) => Some((FrontendMessage::Close(o), q)),
            None => None,
        }
    } else if tag == 1 {
        match read_str(bytes, p) {
            Some((name, q)) => Some((FrontendMessage::Login(name), q)),
            None => None,
        }
    } else if tag == 2 {
        match read_user(bytes, p) {
            Some((user, q)) => match read_str(bytes, q) {
                Some((body, r)) => Some((FrontendMessage::InsertComment((user, body)), r)),
                None => None,
            },
            None => None,
        }
    } else if tag == 3 {
        match read_comment(bytes, p) {
            Some((c, q)) => Some((FrontendMessage::DeleteComment(c), q)),
            None => None,
        }
    } else {
        None
    }
}

fn read_backend(bytes: &[u8], pos: usize) -> (r: Option<(BackendMessage, usize)>)
    requires
        pos <= bytes@.len(),
    ensures
        match r {
            Some((m, p)) => backend_at(bytes@, pos as int) == Some((m@, p as int)),
            None => backend_at(bytes@, pos as int) is None,
        },
{
    let (tag, p) = match read_uint(bytes, pos, 4) {
        Some(pair) => pair,
        None => {
            return None;
        },
    };
    if tag == 0 {
        match read_user(bytes, p) {
            Some((u, q)) => Some((BackendMessage::LoggedIn(u), q)),
            None => None,
        }
    } else if tag == 1 {
        match read_comment(bytes, p) {
            Some((c, q)) => Some((BackendMessage::NewComment(c), q)),
            None => None,
        }
    } else if tag == 2 {
        match read_comment(bytes, p) {
            Some((c, q)) => Some((BackendMessage::InsertedComment(c), q)),
            None => None,
        }
    } else if tag == 3 {
        match read_comments(bytes, p) {
            Some((list, q)) => Some((BackendMessage::Comments(list), q)),
            None => None,
        }
    } else if tag == 4 {
        match read_comment(bytes, p) {
            Some((c, q)) => Some((BackendMessage::DeletedComment(c), q)),
            None => None,
        }
    } else if tag == 5 {
        match read_comment(bytes, p) {
            Some((c, q)) => Some((BackendMessage::UpdatedComment(c), q)),
            None => None,
        }
    } else {
        None
    }
}

impl FrontendMessage {
    /// The request's bytes in the binary framing.
    pub fn encode(&self) -> (out: Vec<u8>)
        ensures
            out@ == self@.encoding(),
            self@.wf(),
    {
        let mut out: Vec<u8> = Vec::new();
        match self {
            FrontendMessage::Close(o) => {
                put_le(&mut out, 0, 4);
                put_opt_close(&mut out, o);
            },
            FrontendMessage::Login(name) => {
                put_le(&mut out, 1, 4);
                put_str(&mut out, name.as_str());
            },
            FrontendMessage::InsertComment((user, body)) => {
                put_le(&mut out, 2, 4);
                put_user(&mut out, user);
                put_str(&mut out, body.as_str());
            },
            FrontendMessage::DeleteComment(c) => {
                put_le(&mut out, 3, 4);
                put_comment(&mut out, c);
            },
        }
        assert(out@ =~= self@.encoding());
        out
    }

    /// The request that the bytes hold in the binary framing: the one
    /// whose encoding starts them. Bytes behind the encoding are not looked
    /// at. Where no request's encoding starts the bytes, they are rejected.
    pub fn decode(bytes: &[u8]) -> (r: Result<FrontendMessage, ProtocolError>)
        ensures
            match r {
                Ok(m) => frontend_decoding(bytes@) == Some(m@),
                Err(e) => e == ProtocolError::Malformed && frontend_decoding(bytes@) is None,
            },
    {
        match read_frontend(bytes, 0) {
            Some((m, p)) => {
                proof {
                    lemma_frontend_at(bytes@, 0, m@);
                    lemma_frontend_decoding(bytes@, m@);
                }
                Ok(m)
            },
            None => {
                proof {
                    if let Some(w) = frontend_decoding(bytes@) {
                        lemma_frontend_decoding(bytes@, w);
                        lemma_frontend_at(bytes@, 0, w);
                    }
                }
                Err(ProtocolError::Malformed)
            },
        }
    }
}

impl BackendMessage {
    /// The event's bytes in the binary framing.
    pub fn encode(&self) -> (out: Vec<u8>)
        ensures
            out@ == self@.encoding(),
            self@.wf(),
    {
        let mut out: Vec<u8> = Vec::new();
        match self {
            BackendMessage::LoggedIn(u) => {
                put_le(&mut out, 0, 4);
                put_user(&mut out, u);
            },
            BackendMessage::NewComment(c) => {
                put_le(&mut out, 1, 4);
                put_comment(&mut out, c);
            },
            BackendMessage::InsertedComment(c) => {
                put_le(&mut out, 2, 4);
                put_comment(&mut out, c);
            },
            BackendMessage::Comments(list) => {
                put_le(&mut out, 3, 4);
                put_comments(&mut out, list);
            },
            BackendMessage::DeletedComment(c) => {
                put_le(&mut out, 4, 4);
                put_comment(&mut out, c);
            },
            BackendMessage::UpdatedComment(c) => {
                put_le(&mut out, 5, 4);
                put_comment(&mut out, c);
            },
        }
        assert(out@ =~= self@.encoding());
        out
    }

    /// The event that the bytes hold in the binary framing: the one whose
    /// encoding starts them. Bytes behind the encoding are not looked at.
    /// Where no event's encoding starts the bytes, they are rejected.
    pub fn decode(bytes: &[u8]) -> (r: Result<BackendMessage, ProtocolError>)
        ensures
            match r {
                Ok(m) => backend_decoding(bytes@) == Some(m@),
                Err(e) => e == ProtocolError::Malformed && backend_decoding(bytes@) is None,
            },
    {
        match read_backend(bytes, 0) {
            Some((m, p)) => {
                proof {
                    lemma_backend_at(bytes@, 0, m@);
                    lemma_backend_decoding(bytes@, m@);
                }
                Ok(m)
            },
            None => {
                proof {
                    if let Some(w) = backend_decoding(bytes@) {
                        lemma_backend_decoding(bytes@, w);
                        lemma_backend_at(bytes@, 0, w);
                    }
                }
                Err(ProtocolError::Malformed)
            },
        }
    }
}

/// The message's bytes in the binary framing.
pub fn encode(envelope: &Envelope) -> (out: Vec<u8>)
    ensures
        out@ == envelope@.encoding(),
        envelope@.wf(),
{
    match envelope {
        Envelope::ClientRequest(m) => m.encode(),
        Envelope::ServerEvent(m) => m.encode(),
    }
}

/// The message of the given direction that the bytes hold in the binary
/// framing, or a protocol error where they hold none.
pub fn decode(direction: Direction, bytes: &[u8]) -> (r: Result<Envelope, ProtocolError>)
    ensures
        match r {
            Ok(e) => envelope_decoding(direction, bytes@) == Some(e@),
            Err(e) => e == ProtocolError::Malformed && envelope_decoding(direction, bytes@)
                is None,
        },
{
    match direction {
        Direction::ToServer => match FrontendMessage::decode(bytes) {
            Ok(m) => Ok(Envelope::ClientRequest(m)),
            Err(e) => Err(e),
        },
        Direction::ToClient => match BackendMessage::decode(bytes) {
            Ok(m) => Ok(Envelope::ServerEvent(m)),
            Err(e) => Err(e),
        },
    }
}

} // verus!
