//! The text framing of messages: a JSON object with one member, named
//! after the message's variant, that holds the variant's fields. A message
//! has exactly one text, and only that text decodes to it.

use crate::codec::ProtocolError;
use crate::json::lemma_str_json_at;
use crate::json::lemma_str_json_is_utf8;
use crate::json::lemma_words_differ;
use crate::json::put_str_json;
use crate::json::put_word;
use crate::json::read_str_json;
use crate::json::read_word;
use crate::json::str_json;
use crate::json::str_json_at;
use crate::json::text_of;
use crate::messages::BackendMessage;
use crate::messages::BackendMessageView;
use crate::messages::Direction;
use crate::messages::Envelope;
use crate::messages::EnvelopeView;
use crate::messages::FrontendMessage;
use crate::messages::FrontendMessageView;
use crate::text::comment_json_at;
use crate::text::comments_json;
use crate::text::comments_json_at;
use crate::text::lemma_comment_json_at;
use crate::text::lemma_comment_json_is_utf8;
use crate::text::lemma_comments_json_at;
use crate::text::lemma_comments_json_is_utf8;
use crate::text::lemma_opt_close_json_is_utf8;
use crate::text::lemma_user_json_is_utf8;
use crate::text::lemma_opt_close_json_at;
use crate::text::lemma_user_json_at;
use crate::text::opt_close_json;
use crate::text::opt_close_json_at;
use crate::text::put_comment_json;
use crate::text::put_comments_json;
use crate::text::put_opt_close_json;
use crate::text::put_user_json;
use crate::text::read_comment_json;
use crate::text::read_comments_json;
use crate::text::read_opt_close_json;
use crate::text::read_user_json;
use crate::text::user_json_at;
use crate::text::word_at;
use crate::wire::lemma_occurs_concat;
use crate::wire::occurs_at;
use vstd::prelude::*;
use vstd::string::is_ascii_spec_bytes;
use vstd::string::StringSliceAdditionalSpecFns;
use vstd::utf8::encode_utf8;
use vstd::utf8::encode_utf8_valid_utf8;
use vstd::utf8::valid_utf8;
use vstd::utf8::valid_utf8_concat;

verus! {

/// The word that opens the text of a request of the variant with this
/// index.
pub open spec fn frontend_opening(tag: u32) -> Seq<u8> {
    if tag == 0 {
        "{\"Close\":".spec_bytes()
    } else if tag == 1 {
        "{\"Login\":".spec_bytes()
    } else if tag == 2 {
        "{\"InsertComment\":[".spec_bytes()
    } else {
        "{\"DeleteComment\":".spec_bytes()
    }
}

/// The word that opens the text of an event of the variant with this
/// index.
pub open spec fn backend_opening(tag: u32) -> Seq<u8> {
    if tag == 0 {
        "{\"LoggedIn\":".spec_bytes()
    } else if tag == 1 {
        "{\"NewComment\":".spec_bytes()
    } else if tag == 2 {
        "{\"InsertedComment\":".spec_bytes()
    } else if tag == 3 {
        "{\"Comments\":".spec_bytes()
    } else if tag == 4 {
        "{\"DeletedComment\":".spec_bytes()
    } else {
        "{\"UpdatedComment\":".spec_bytes()
    }
}

impl FrontendMessageView {
    /// The word that opens the request's text: the brace, the variant's
    /// name and what leads to its fields.
    pub open spec fn text_opening(self) -> Seq<u8> {
        frontend_opening(self.tag())
    }

    /// The text of the request's fields, up to the end of the request's
    /// text.
    pub open spec fn text_fields(self) -> Seq<u8> {
        match self {
            FrontendMessageView::Close(o) => opt_close_json(o) + "}".spec_bytes(),
            FrontendMessageView::Login(name) => str_json(name) + "}".spec_bytes(),
            FrontendMessageView::InsertComment(user, body) => user.json() + (",".spec_bytes() + (
            str_json(body) + "]}".spec_bytes())),
            FrontendMessageView::DeleteComment(c) => c.json() + "}".spec_bytes(),
        }
    }

    /// The request's text, as UTF-8 bytes.
    pub open spec fn text(self) -> Seq<u8> {
        self.text_opening() + self.text_fields()
    }
}

impl BackendMessageView {
    /// The word that opens the event's text: the brace, the variant's name
    /// and the colon.
    pub open spec fn text_opening(self) -> Seq<u8> {
        backend_opening(self.tag())
    }

    /// The text of the event's fields, up to the end of the event's text.
    pub open spec fn text_fields(self) -> Seq<u8> {
        match self {
            BackendMessageView::LoggedIn(u) => u.json() + "}".spec_bytes(),
            BackendMessageView::NewComment(c) => c.json() + "}".spec_bytes(),
            BackendMessageView::InsertedComment(c) => c.json() + "}".spec_bytes(),
            BackendMessageView::Comments(list) => comments_json(list) + "}".spec_bytes(),
            BackendMessageView::DeletedComment(c) => c.json() + "}".spec_bytes(),
            BackendMessageView::UpdatedComment(c) => c.json() + "}".spec_bytes(),
        }
    }

    /// The event's text, as UTF-8 bytes.
    pub open spec fn text(self) -> Seq<u8> {
        self.text_opening() + self.text_fields()
    }
}

impl EnvelopeView {
    /// The message's text, as UTF-8 bytes.
    pub open spec fn text(self) -> Seq<u8> {
        match self {
            EnvelopeView::ClientRequest(m) => m.text(),
            EnvelopeView::ServerEvent(m) => m.text(),
        }
    }
}

/// The request whose text `s` is, if it is the text of one.
pub open spec fn frontend_text_decoding(s: Seq<u8>) -> Option<FrontendMessageView> {
    if exists|v: FrontendMessageView| #[trigger] v.text() == s {
        Some(choose|v: FrontendMessageView| #[trigger] v.text() == s)
    } else {
        None
    }
}

/// The event whose text `s` is, if it is the text of one.
pub open spec fn backend_text_decoding(s: Seq<u8>) -> Option<BackendMessageView> {
    if exists|v: BackendMessageView| #[trigger] v.text() == s {
        Some(choose|v: BackendMessageView| #[trigger] v.text() == s)
    } else {
        None
    }
}

/// The message of the given direction whose text `s` is, if it is the
/// text of one.
pub open spec fn envelope_text_decoding(direction: Direction, s: Seq<u8>) -> Option<EnvelopeView> {
    match direction {
        Direction::ToServer => match frontend_text_decoding(s) {
            Some(m) => Some(EnvelopeView::ClientRequest(m)),
            None => None,
        },
        Direction::ToClient => match backend_text_decoding(s) {
            Some(m) => Some(EnvelopeView::ServerEvent(m)),
            None => None,
        },
    }
}

/// What reading the fields of a request of the variant with this index
/// yields.
#[verifier::opaque]
spec fn frontend_fields_at(s: Seq<u8>, p: int, tag: u32) -> Option<
    (FrontendMessageView, int),
> {
    if tag == 0 {
        match opt_close_json_at(s, p) {
            Some((o, q)) => match word_at(s, q, "}".spec_bytes()) {
                Some(r) => Some((FrontendMessageView::Close(o), r)),
                None => None,
            },
            None => None,
        }
    } else if tag == 1 {
        match str_json_at(s, p) {
            Some((name, q)) => match word_at(s, q, "}".spec_bytes()) {
                Some(r) => Some((FrontendMessageView::Login(name), r)),
                None => None,
            },
            None => None,
        }
    } else if tag == 2 {
        match user_json_at(s, p) {
            Some((user, q)) => match word_at(s, q, ",".spec_bytes()) {
                Some(r) => match str_json_at(s, r) {
                    Some((body, t)) => match word_at(s, t, "]}".spec_bytes()) {
                        Some(u) => Some((FrontendMessageView::InsertComment(user, body), u)),
                        None => None,
                    },
                    None => None,
                },
                None => None,
            },
            None => None,
        }
    } else {
        match comment_json_at(s, p) {
            Some((c, q)) => match word_at(s, q, "}".spec_bytes()) {
                Some(r) => Some((FrontendMessageView::DeleteComment(c), r)),
                None => None,
            },
            None => None,
        }
    }
}

/// What reading a request of the variant with this index at `pos`
/// yields, where the variant's opening stands there.
spec fn frontend_variant_at(s: Seq<u8>, pos: int, tag: u32) -> Option<
    (FrontendMessageView, int),
> {
    if occurs_at(frontend_opening(tag), s, pos) {
        frontend_fields_at(s, pos + frontend_opening(tag).len(), tag)
    } else {
        None
    }
}

/// What reading a request at `pos` yields.
#[verifier::opaque]
spec fn frontend_text_at(s: Seq<u8>, pos: int) -> Option<(FrontendMessageView, int)> {
    if occurs_at(frontend_opening(0), s, pos) {
        frontend_variant_at(s, pos, 0)
    } else if occurs_at(frontend_opening(1), s, pos) {
        frontend_variant_at(s, pos, 1)
    } else if occurs_at(frontend_opening(2), s, pos) {
        frontend_variant_at(s, pos, 2)
    } else {
        frontend_variant_at(s, pos, 3)
    }
}

/// What reading the fields of an event of the variant with this index
/// yields.
#[verifier::opaque]
spec fn backend_fields_at(s: Seq<u8>, p: int, tag: u32) -> Option<
    (BackendMessageView, int),
> {
    if tag == 0 {
        match user_json_at(s, p) {
            Some((u, q)) => match word_at(s, q, "}".spec_bytes()) {
                Some(r) => Some((BackendMessageView::LoggedIn(u), r)),
                None => None,
            },
            None => None,
        }
    } else if tag == 3 {
        match comments_json_at(s, p) {
            Some((list, q)) => match word_at(s, q, "}".spec_bytes()) {
                Some(r) => Some((BackendMessageView::Comments(list), r)),
                None => None,
            },
            None => None,
        }
    } else {
        match comment_json_at(s, p) {
            Some((c, q)) => match word_at(s, q, "}".spec_bytes()) {
                Some(r) => Some(
                    (
                        if tag == 1 {
                            BackendMessageView::NewComment(c)
                        } else if tag == 2 {
                            BackendMessageView::InsertedComment(c)
                        } else if tag == 4 {
                            BackendMessageView::DeletedComment(c)
                        } else {
                            BackendMessageView::UpdatedComment(c)
                        },
                        r,
                    ),
                ),
                None => None,
            },
            None => None,
        }
    }
}

/// What reading an event of the variant with this index at `pos` yields,
/// where the variant's opening stands there.
spec fn backend_variant_at(s: Seq<u8>, pos: int, tag: u32) -> Option<
    (BackendMessageView, int),
> {
    if occurs_at(backend_opening(tag), s, pos) {
        backend_fields_at(s, pos + backend_opening(tag).len(), tag)
    } else {
        None
    }
}

/// What reading an event at `pos` yields.
#[verifier::opaque]
spec fn backend_text_at(s: Seq<u8>, pos: int) -> Option<(BackendMessageView, int)> {
    if occurs_at(backend_opening(0), s, pos) {
        backend_variant_at(s, pos, 0)
    } else if occurs_at(backend_opening(1), s, pos) {
        backend_variant_at(s, pos, 1)
    } else if occurs_at(backend_opening(2), s, pos) {
        backend_variant_at(s, pos, 2)
    } else if occurs_at(backend_opening(3), s, pos) {
        backend_variant_at(s, pos, 3)
    } else if occurs_at(backend_opening(4), s, pos) {
        backend_variant_at(s, pos, 4)
    } else {
        backend_variant_at(s, pos, 5)
    }
}

/// The third byte of the opening of each variant of a request.
proof fn lemma_frontend_openings()
    ensures
        frontend_opening(0).len() > 2 && frontend_opening(0)[2] == 0x43,
        frontend_opening(1).len() > 2 && frontend_opening(1)[2] == 0x4c,
        frontend_opening(2).len() > 2 && frontend_opening(2)[2] == 0x49,
        frontend_opening(3).len() > 2 && frontend_opening(3)[2] == 0x44,
{
    reveal_strlit("{\"Close\":");
    reveal_strlit("{\"Login\":");
    reveal_strlit("{\"InsertComment\":[");
    reveal_strlit("{\"DeleteComment\":");
    is_ascii_spec_bytes("{\"Close\":");
    is_ascii_spec_bytes("{\"Login\":");
    is_ascii_spec_bytes("{\"InsertComment\":[");
    is_ascii_spec_bytes("{\"DeleteComment\":");
}

/// The third byte of the opening of each variant of an event.
proof fn lemma_backend_openings()
    ensures
        backend_opening(0).len() > 2 && backend_opening(0)[2] == 0x4c,
        backend_opening(1).len() > 2 && backend_opening(1)[2] == 0x4e,
        backend_opening(2).len() > 2 && backend_opening(2)[2] == 0x49,
        backend_opening(3).len() > 2 && backend_opening(3)[2] == 0x43,
        backend_opening(4).len() > 2 && backend_opening(4)[2] == 0x44,
        backend_opening(5).len() > 2 && backend_opening(5)[2] == 0x55,
{
    reveal_strlit("{\"LoggedIn\":");
    reveal_strlit("{\"NewComment\":");
    reveal_strlit("{\"InsertedComment\":");
    reveal_strlit("{\"Comments\":");
    reveal_strlit("{\"DeletedComment\":");
    reveal_strlit("{\"UpdatedComment\":");
    is_ascii_spec_bytes("{\"LoggedIn\":");
    is_ascii_spec_bytes("{\"NewComment\":");
    is_ascii_spec_bytes("{\"InsertedComment\":");
    is_ascii_spec_bytes("{\"Comments\":");
    is_ascii_spec_bytes("{\"DeletedComment\":");
    is_ascii_spec_bytes("{\"UpdatedComment\":");
}

/// At most one variant's opening stands at a place.
proof fn lemma_frontend_one_opening(s: Seq<u8>, pos: int, a: u32, b: u32)
    requires
        a < 4,
        b < 4,
        a != b,
    ensures
        !(occurs_at(frontend_opening(a), s, pos) && occurs_at(frontend_opening(b), s, pos)),
{
    lemma_frontend_openings();
    lemma_words_differ(frontend_opening(a), frontend_opening(b), s, pos, 2);
}

/// At most one variant's opening stands at a place.
proof fn lemma_backend_one_opening(s: Seq<u8>, pos: int, a: u32, b: u32)
    requires
        a < 6,
        b < 6,
        a != b,
    ensures
        !(occurs_at(backend_opening(a), s, pos) && occurs_at(backend_opening(b), s, pos)),
{
    lemma_backend_openings();
    lemma_words_differ(backend_opening(a), backend_opening(b), s, pos, 2);
}

proof fn lemma_frontend_fields_at(s: Seq<u8>, p: int, v: FrontendMessageView)
    ensures
        frontend_fields_at(s, p, v.tag()) == Some((v, p + v.text_fields().len())) <==> occurs_at(
            v.text_fields(),
            s,
            p,
        ),
{
    reveal(frontend_fields_at);
    let close = "}".spec_bytes();
    match v {
        FrontendMessageView::Close(o) => {
            lemma_occurs_concat(opt_close_json(o), close, s, p);
            lemma_opt_close_json_at(s, p, o);
        },
        FrontendMessageView::Login(name) => {
            lemma_occurs_concat(str_json(name), close, s, p);
            lemma_str_json_at(s, p, name);
        },
        FrontendMessageView::InsertComment(user, body) => {
            let a = user.json();
            let b = ",".spec_bytes();
            let c = str_json(body);
            let d = "]}".spec_bytes();
            lemma_occurs_concat(a, b + (c + d), s, p);
            lemma_occurs_concat(b, c + d, s, p + a.len());
            lemma_occurs_concat(c, d, s, p + a.len() + b.len());
            lemma_user_json_at(s, p, user);
            lemma_str_json_at(s, p + a.len() + b.len(), body);
        },
        FrontendMessageView::DeleteComment(c) => {
            lemma_occurs_concat(c.json(), close, s, p);
            lemma_comment_json_at(s, p, c);
        },
    }
}

proof fn lemma_frontend_fields_end(s: Seq<u8>, p: int, tag: u32)
    requires
        tag < 4,
    ensures
        frontend_fields_at(s, p, tag) matches Some((w, q)) ==> q == p + w.text_fields().len()
            && w.tag() == tag,
{
    reveal(frontend_fields_at);
    if let Some((w, q)) = frontend_fields_at(s, p, tag) {
        match w {
            FrontendMessageView::Close(o) => {
                lemma_opt_close_json_at(s, p, o);
            },
            FrontendMessageView::Login(name) => {
                lemma_str_json_at(s, p, name);
            },
            FrontendMessageView::InsertComment(user, body) => {
                lemma_user_json_at(s, p, user);
                lemma_str_json_at(s, p + user.json().len() + ",".spec_bytes().len(), body);
            },
            FrontendMessageView::DeleteComment(c) => {
                lemma_comment_json_at(s, p, c);
            },
        }
    }
}

/// A request read at `pos` is the one whose text stands there.
proof fn lemma_frontend_text_at(s: Seq<u8>, pos: int, v: FrontendMessageView)
    ensures
        frontend_text_at(s, pos) == Some((v, pos + v.text().len())) <==> occurs_at(
            v.text(),
            s,
            pos,
        ),
        frontend_text_at(s, pos) matches Some((w, p)) ==> p == pos + w.text().len(),
{
    reveal(frontend_text_at);
    let t = v.tag();
    lemma_occurs_concat(v.text_opening(), v.text_fields(), s, pos);
    lemma_frontend_fields_at(s, pos + v.text_opening().len(), v);
    lemma_frontend_one_opening(s, pos, 0, 1);
    lemma_frontend_one_opening(s, pos, 0, 2);
    lemma_frontend_one_opening(s, pos, 0, 3);
    lemma_frontend_one_opening(s, pos, 1, 2);
    lemma_frontend_one_opening(s, pos, 1, 3);
    lemma_frontend_one_opening(s, pos, 2, 3);
    lemma_frontend_fields_end(s, pos + frontend_opening(0).len(), 0);
    lemma_frontend_fields_end(s, pos + frontend_opening(1).len(), 1);
    lemma_frontend_fields_end(s, pos + frontend_opening(2).len(), 2);
    lemma_frontend_fields_end(s, pos + frontend_opening(3).len(), 3);
    if occurs_at(v.text_opening(), s, pos) {
        assert(frontend_text_at(s, pos) == frontend_variant_at(s, pos, t));
    }
}

proof fn lemma_backend_fields_at(s: Seq<u8>, p: int, v: BackendMessageView)
    ensures
        backend_fields_at(s, p, v.tag()) == Some((v, p + v.text_fields().len())) <==> occurs_at(
            v.text_fields(),
            s,
            p,
        ),
{
    reveal(backend_fields_at);
    let close = "}".spec_bytes();
    match v {
        BackendMessageView::LoggedIn(u) => {
            lemma_occurs_concat(u.json(), close, s, p);
            lemma_user_json_at(s, p, u);
        },
        BackendMessageView::Comments(list) => {
            lemma_occurs_concat(comments_json(list), close, s, p);
            lemma_comments_json_at(s, p, list);
        },
        BackendMessageView::NewComment(c) => {
            lemma_occurs_concat(c.json(), close, s, p);
            lemma_comment_json_at(s, p, c);
        },
        BackendMessageView::InsertedComment(c) => {
            lemma_occurs_concat(c.json(), close, s, p);
            lemma_comment_json_at(s, p, c);
        },
        BackendMessageView::DeletedComment(c) => {
            lemma_occurs_concat(c.json(), close, s, p);
            lemma_comment_json_at(s, p, c);
        },
        BackendMessageView::UpdatedComment(c) => {
            lemma_occurs_concat(c.json(), close, s, p);
            lemma_comment_json_at(s, p, c);
        },
    }
}

proof fn lemma_backend_fields_end(s: Seq<u8>, p: int, tag: u32)
    requires
        tag < 6,
    ensures
        backend_fields_at(s, p, tag) matches Some((w, q)) ==> q == p + w.text_fields().len()
            && w.tag() == tag,
{
    reveal(backend_fields_at);
    if let Some((w, q)) = backend_fields_at(s, p, tag) {
        match w {
            BackendMessageView::LoggedIn(u) => {
                lemma_user_json_at(s, p, u);
            },
            BackendMessageView::Comments(list) => {
                lemma_comments_json_at(s, p, list);
            },
            BackendMessageView::NewComment(c) => {
                lemma_comment_json_at(s, p, c);
            },
            BackendMessageView::InsertedComment(c) => {
                lemma_comment_json_at(s, p, c);
            },
            BackendMessageView::DeletedComment(c) => {
                lemma_comment_json_at(s, p, c);
            },
            BackendMessageView::UpdatedComment(c) => {
                lemma_comment_json_at(s, p, c);
            },
        }
    }
}

/// An event read at `pos` is the one whose text stands there.
proof fn lemma_backend_text_at(s: Seq<u8>, pos: int, v: BackendMessageView)
    ensures
        backend_text_at(s, pos) == Some((v, pos + v.text().len())) <==> occurs_at(
            v.text(),
            s,
            pos,
        ),
        backend_text_at(s, pos) matches Some((w, p)) ==> p == pos + w.text().len(),
{
    reveal(backend_text_at);
    let t = v.tag();
    lemma_occurs_concat(v.text_opening(), v.text_fields(), s, pos);
    lemma_backend_fields_at(s, pos + v.text_opening().len(), v);
    assert forall|a: u32, b: u32| a < 6 && b < 6 && a != b implies !(occurs_at(
        #[trigger] backend_opening(a),
        s,
        pos,
    ) && occurs_at(#[trigger] backend_opening(b), s, pos)) by {
        lemma_backend_one_opening(s, pos, a, b);
    }
    lemma_backend_fields_end(s, pos + backend_opening(0).len(), 0);
    lemma_backend_fields_end(s, pos + backend_opening(1).len(), 1);
    lemma_backend_fields_end(s, pos + backend_opening(2).len(), 2);
    lemma_backend_fields_end(s, pos + backend_opening(3).len(), 3);
    lemma_backend_fields_end(s, pos + backend_opening(4).len(), 4);
    lemma_backend_fields_end(s, pos + backend_opening(5).len(), 5);
    if occurs_at(v.text_opening(), s, pos) {
        assert(backend_text_at(s, pos) == backend_variant_at(s, pos, t));
    }
}

/// The text of a request is well-formed UTF-8.
pub proof fn lemma_frontend_text_is_utf8(v: FrontendMessageView)
    ensures
        valid_utf8(v.text()),
{
    let close = "}".spec_bytes();
    encode_utf8_valid_utf8("}"@);
    encode_utf8_valid_utf8("{\"Close\":"@);
    encode_utf8_valid_utf8("{\"Login\":"@);
    encode_utf8_valid_utf8("{\"InsertComment\":["@);
    encode_utf8_valid_utf8("{\"DeleteComment\":"@);
    match v {
        FrontendMessageView::Close(o) => {
            lemma_opt_close_json_is_utf8(o);
            valid_utf8_concat(opt_close_json(o), close);
        },
        FrontendMessageView::Login(name) => {
            lemma_str_json_is_utf8(name);
            valid_utf8_concat(str_json(name), close);
        },
        FrontendMessageView::InsertComment(user, body) => {
            let b = ",".spec_bytes();
            let c = str_json(body);
            let d = "]}".spec_bytes();
            lemma_user_json_is_utf8(user);
            lemma_str_json_is_utf8(body);
            encode_utf8_valid_utf8(","@);
            encode_utf8_valid_utf8("]}"@);
            valid_utf8_concat(c, d);
            valid_utf8_concat(b, c + d);
            valid_utf8_concat(user.json(), b + (c + d));
        },
        FrontendMessageView::DeleteComment(c) => {
            lemma_comment_json_is_utf8(c);
            valid_utf8_concat(c.json(), close);
        },
    }
    valid_utf8_concat(v.text_opening(), v.text_fields());
}

/// The text of an event is well-formed UTF-8.
pub proof fn lemma_backend_text_is_utf8(v: BackendMessageView)
    ensures
        valid_utf8(v.text()),
{
    let close = "}".spec_bytes();
    encode_utf8_valid_utf8("}"@);
    encode_utf8_valid_utf8("{\"LoggedIn\":"@);
    encode_utf8_valid_utf8("{\"NewComment\":"@);
    encode_utf8_valid_utf8("{\"InsertedComment\":"@);
    encode_utf8_valid_utf8("{\"Comments\":"@);
    encode_utf8_valid_utf8("{\"DeletedComment\":"@);
    encode_utf8_valid_utf8("{\"UpdatedComment\":"@);
    match v {
        BackendMessageView::LoggedIn(u) => {
            lemma_user_json_is_utf8(u);
            valid_utf8_concat(u.json(), close);
        },
        BackendMessageView::Comments(list) => {
            lemma_comments_json_is_utf8(list);
            valid_utf8_concat(comments_json(list), close);
        },
        BackendMessageView::NewComment(c) => {
            lemma_comment_json_is_utf8(c);
            valid_utf8_concat(c.json(), close);
        },
        BackendMessageView::InsertedComment(c) => {
            lemma_comment_json_is_utf8(c);
            valid_utf8_concat(c.json(), close);
        },
        BackendMessageView::DeletedComment(c) => {
            lemma_comment_json_is_utf8(c);
            valid_utf8_concat(c.json(), close);
        },
        BackendMessageView::UpdatedComment(c) => {
            lemma_comment_json_is_utf8(c);
            valid_utf8_concat(c.json(), close);
        },
    }
    valid_utf8_concat(v.text_opening(), v.text_fields());
}

proof fn lemma_whole(e: Seq<u8>, s: Seq<u8>)
    ensures
        e == s <==> occurs_at(e, s, 0) && e.len() == s.len(),
{
    if occurs_at(e, s, 0) && e.len() == s.len() {
        assert(s.subrange(0, s.len() as int) =~= s);
    }
    if e == s {
        assert(s.subrange(0, s.len() as int) =~= s);
    }
}

/// Decoding is determined by encoding: `v` is what `s` decodes to exactly
/// when `s` is the text of `v`. In particular no two requests have the
/// same text.
pub proof fn lemma_frontend_text_decoding(s: Seq<u8>, v: FrontendMessageView)
    ensures
        frontend_text_decoding(s) == Some(v) <==> v.text() == s,
{
    lemma_frontend_text_at(s, 0, v);
    lemma_whole(v.text(), s);
    if let Some(w) = frontend_text_decoding(s) {
        lemma_frontend_text_at(s, 0, w);
        lemma_whole(w.text(), s);
    }
}

/// Decoding is determined by encoding: `v` is what `s` decodes to exactly
/// when `s` is the text of `v`. In particular no two events have the same
/// text.
pub proof fn lemma_backend_text_decoding(s: Seq<u8>, v: BackendMessageView)
    ensures
        backend_text_decoding(s) == Some(v) <==> v.text() == s,
{
    lemma_backend_text_at(s, 0, v);
    lemma_whole(v.text(), s);
    if let Some(w) = backend_text_decoding(s) {
        lemma_backend_text_at(s, 0, w);
        lemma_whole(w.text(), s);
    }
}

/// Decoding a message's text, in the message's direction, gives the
/// message back.
pub proof fn lemma_envelope_text_round_trip(v: EnvelopeView)
    ensures
        envelope_text_decoding(v.direction(), v.text()) == Some(v),
{
    match v {
        EnvelopeView::ClientRequest(m) => {
            lemma_frontend_text_decoding(m.text(), m);
        },
        EnvelopeView::ServerEvent(m) => {
            lemma_backend_text_decoding(m.text(), m);
        },
    }
}

fn read_frontend_text(bytes: &[u8], pos: usize) -> (r: Option<(FrontendMessage, usize)>)
    requires
        pos <= bytes@.len(),
    ensures
        match r {
            Some((m, p)) => frontend_text_at(bytes@, pos as int) == Some((m@, p as int)),
            None => frontend_text_at(bytes@, pos as int) is None,
        },
{
    proof {
        reveal(frontend_text_at);
        reveal(frontend_fields_at);
    }
    if let Some(p) = read_word(bytes, pos, "{\"Close\":") {
        let (o, q) = match read_opt_close_json(bytes, p) {
            Some(pair) => pair,
            None => {
                return None;
            },
        };
        match read_word(bytes, q, "}") {
            Some(r) => Some((FrontendMessage::Close(o), r)),
            None => None,
        }
    } else if let Some(p) = read_word(bytes, pos, "{\"Login\":") {
        let (name, q) = match read_str_json(bytes, p) {
            Some(pair) => pair,
            None => {
                return None;
            },
        };
        match read_word(bytes, q, "}") {
            Some(r) => Some((FrontendMessage::Login(name), r)),
            None => None,
        }
    } else if let Some(p) = read_word(bytes, pos, "{\"InsertComment\":[") {
        let (user, q) = match read_user_json(bytes, p) {
            Some(pair) => pair,
            None => {
                return None;
            },
        };
        let r = match read_word(bytes, q, ",") {
            Some(r) => r,
            None => {
                return None;
            },
        };
        let (body, t) = match read_str_json(bytes, r) {
            Some(pair) => pair,
            None => {
                return None;
            },
        };
        match read_word(bytes, t, "]}") {
            Some(u) => Some((FrontendMessage::InsertComment((user, body)), u)),
            None => None,
        }
    } else if let Some(p) = read_word(bytes, pos, "{\"DeleteComment\":") {
        let (c, q) = match read_comment_json(bytes, p) {
            Some(pair) => pair,
            None => {
                return None;
            },
        };
        match read_word(bytes, q, "}") {
            Some(r) => Some((FrontendMessage::DeleteComment(c), r)),
            None => None,
        }
    } else {
        None
    }
}

fn read_backend_text(bytes: &[u8], pos: usize) -> (r: Option<(BackendMessage, usize)>)
    requires
        pos <= bytes@.len(),
    ensures
        match r {
            Some((m, p)) => backend_text_at(bytes@, pos as int) == Some((m@, p as int)),
            None => backend_text_at(bytes@, pos as int) is None,
        },
{
    proof {
        reveal(backend_text_at);
        reveal(backend_fields_at);
    }
    if let Some(p) = read_word(bytes, pos, "{\"LoggedIn\":") {
        let (u, q) = match read_user_json(bytes, p) {
            Some(pair) => pair,
            None => {
                return None;
            },
        };
        match read_word(bytes, q, "}") {
            Some(r) => Some((BackendMessage::LoggedIn(u), r)),
            None => None,
        }
    } else if let Some(p) = read_word(bytes, pos, "{\"NewComment\":") {
        let (c, q) = match read_comment_json(bytes, p) {
            Some(pair) => pair,
            None => {
                return None;
            },
        };
        match read_word(bytes, q, "}") {
            Some(r) => Some((BackendMessage::NewComment(c), r)),
            None => None,
        }
    } else if let Some(p) = read_word(bytes, pos, "{\"InsertedComment\":") {
        let (c, q) = match read_comment_json(bytes, p) {
            Some(pair) => pair,
            None => {
                return None;
            },
        };
        match read_word(bytes, q, "}") {
            Some(r) => Some((BackendMessage::InsertedComment(c), r)),
            None => None,
        }
    } else if let Some(p) = read_word(bytes, pos, "{\"Comments\":") {
        let (list, q) = match read_comments_json(bytes, p) {
            Some(pair) => pair,
            None => {
                return None;
            },
        };
        match read_word(bytes, q, "}") {
            Some(r) => Some((BackendMessage::Comments(list), r)),
            None => None,
        }
    } else if let Some(p) = read_word(bytes, pos, "{\"DeletedComment\":") {
        let (c, q) = match read_comment_json(bytes, p) {
            Some(pair) => pair,
            None => {
                return None;
            },
        };
        match read_word(bytes, q, "}") {
            Some(r) => Some((BackendMessage::DeletedComment(c), r)),
            None => None,
        }
    } else if let Some(p) = read_word(bytes, pos, "{\"UpdatedComment\":") {
        let (c, q) = match read_comment_json(bytes, p) {
            Some(pair) => pair,
            None => {
                return None;
            },
        };
        match read_word(bytes, q, "}") {
            Some(r) => Some((BackendMessage::UpdatedComment(c), r)),
            None => None,
        }
    } else {
        None
    }
}

impl FrontendMessage {
    /// The request's text in the text framing, as UTF-8 bytes.
    pub fn encode_text(&self) -> (out: Vec<u8>)
        ensures
            out@ == self@.text(),
    {
        let mut out: Vec<u8> = Vec::new();
        match self {
            FrontendMessage::Close(o) => {
                put_word(&mut out, "{\"Close\":");
                put_opt_close_json(&mut out, o);
                put_word(&mut out, "}");
            },
            FrontendMessage::Login(name) => {
                put_word(&mut out, "{\"Login\":");
                put_str_json(&mut out, name.as_str());
                put_word(&mut out, "}");
            },
            FrontendMessage::InsertComment((user, body)) => {
                put_word(&mut out, "{\"InsertComment\":[");
                put_user_json(&mut out, user);
                put_word(&mut out, ",");
                put_str_json(&mut out, body.as_str());
                put_word(&mut out, "]}");
            },
            FrontendMessage::DeleteComment(c) => {
                put_word(&mut out, "{\"DeleteComment\":");
                put_comment_json(&mut out, c);
                put_word(&mut out, "}");
            },
        }
        assert(out@ =~= self@.text());
        out
    }

    /// The request's text in the text framing.
    pub fn to_text(&self) -> (text: String)
        ensures
            encode_utf8(text@) == self@.text(),
    {
        proof {
            lemma_frontend_text_is_utf8(self@);
        }
        text_of(self.encode_text())
    }

    /// The request that a text holds in the text framing, or a protocol
    /// error where the bytes are not the text of a request.
    pub fn decode_text(bytes: &[u8]) -> (r: Result<FrontendMessage, ProtocolError>)
        ensures
            match r {
                Ok(m) => frontend_text_decoding(bytes@) == Some(m@),
                Err(e) => e == ProtocolError::Malformed && frontend_text_decoding(bytes@) is None,
            },
    {
        let parsed = read_frontend_text(bytes, 0);
        proof {
            if let Some(w) = frontend_text_decoding(bytes@) {
                lemma_frontend_text_decoding(bytes@, w);
                lemma_frontend_text_at(bytes@, 0, w);
                lemma_whole(w.text(), bytes@);
            }
        }
        match parsed {
            Some((m, p)) => {
                proof {
                    lemma_frontend_text_at(bytes@, 0, m@);
                    lemma_frontend_text_decoding(bytes@, m@);
                    lemma_whole(m@.text(), bytes@);
                }
                if p == bytes.len() {
                    Ok(m)
                } else {
                    Err(ProtocolError::Malformed)
                }
            },
            None => Err(ProtocolError::Malformed),
        }
    }
}

impl BackendMessage {
    /// The event's text in the text framing, as UTF-8 bytes.
    pub fn encode_text(&self) -> (out: Vec<u8>)
        ensures
            out@ == self@.text(),
    {
        let mut out: Vec<u8> = Vec::new();
        match self {
            BackendMessage::LoggedIn(u) => {
                put_word(&mut out, "{\"LoggedIn\":");
                put_user_json(&mut out, u);
            },
            BackendMessage::NewComment(c) => {
                put_word(&mut out, "{\"NewComment\":");
                put_comment_json(&mut out, c);
            },
            BackendMessage::InsertedComment(c) => {
                put_word(&mut out, "{\"InsertedComment\":");
                put_comment_json(&mut out, c);
            },
            BackendMessage::Comments(list) => {
                put_word(&mut out, "{\"Comments\":");
                put_comments_json(&mut out, list);
            },
            BackendMessage::DeletedComment(c) => {
                put_word(&mut out, "{\"DeletedComment\":");
                put_comment_json(&mut out, c);
            },
            BackendMessage::UpdatedComment(c) => {
                put_word(&mut out, "{\"UpdatedComment\":");
                put_comment_json(&mut out, c);
            },
        }
        put_word(&mut out, "}");
        assert(out@ =~= self@.text());
        out
    }

    /// The event's text in the text framing.
    pub fn to_text(&self) -> (text: String)
        ensures
            encode_utf8(text@) == self@.text(),
    {
        proof {
            lemma_backend_text_is_utf8(self@);
        }
        text_of(self.encode_text())
    }

    /// The event that a text holds in the text framing, or a protocol
    /// error where the bytes are not the text of an event.
    pub fn decode_text(bytes: &[u8]) -> (r: Result<BackendMessage, ProtocolError>)
        ensures
            match r {
                Ok(m) => backend_text_decoding(bytes@) == Some(m@),
                Err(e) => e == ProtocolError::Malformed && backend_text_decoding(bytes@) is None,
            },
    {
        let parsed = read_backend_text(bytes, 0);
        proof {
            if let Some(w) = backend_text_decoding(bytes@) {
                lemma_backend_text_decoding(bytes@, w);
                lemma_backend_text_at(bytes@, 0, w);
                lemma_whole(w.text(), bytes@);
            }
        }
        match parsed {
            Some((m, p)) => {
                proof {
                    lemma_backend_text_at(bytes@, 0, m@);
                    lemma_backend_text_decoding(bytes@, m@);
                    lemma_whole(m@.text(), bytes@);
                }
                if p == bytes.len() {
                    Ok(m)
                } else {
                    Err(ProtocolError::Malformed)
                }
            },
            None => Err(ProtocolError::Malformed),
        }
    }
}

/// The message's text in the text framing, as UTF-8 bytes.
pub fn encode_text(envelope: &Envelope) -> (out: Vec<u8>)
    ensures
        out@ == envelope@.text(),
{
    match envelope {
        Envelope::ClientRequest(m) => m.encode_text(),
        Envelope::ServerEvent(m) => m.encode_text(),
    }
}

/// The message of the given direction that a text holds in the text
/// framing, or a protocol error where the bytes are not the text of one.
pub fn decode_text(direction: Direction, bytes: &[u8]) -> (r: Result<Envelope, ProtocolError>)
    ensures
        match r {
            Ok(e) => envelope_text_decoding(direction, bytes@) == Some(e@),
            Err(e) => e == ProtocolError::Malformed && envelope_text_decoding(direction, bytes@)
                is None,
        },
{
    match direction {
        Direction::ToServer => match FrontendMessage::decode_text(bytes) {
            Ok(m) => Ok(Envelope::ClientRequest(m)),
            Err(e) => Err(e),
        },
        Direction::ToClient => match BackendMessage::decode_text(bytes) {
            Ok(m) => Ok(Envelope::ServerEvent(m)),
            Err(e) => Err(e),
        },
    }
}

} // verus!
