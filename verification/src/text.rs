//! The text of identities, comments, lists of comments and close reasons
//! in the text framing: JSON objects with the fields in declaration order
//! and no blanks.

use crate::comments::comments_view;
use crate::comments::Comment;
use crate::comments::CommentView;
use crate::json::int_comma_at;
use crate::json::int_comma_json;
use crate::json::lemma_int_comma_at;
use crate::json::lemma_int_json_is_utf8;
use crate::json::lemma_str_json_is_utf8;
use crate::json::lemma_str_json_at;
use crate::json::lemma_words_differ;
use crate::json::put_int_comma;
use crate::json::put_str_json;
use crate::json::put_word;
use crate::json::read_int_comma;
use crate::json::read_str_json;
use crate::json::read_word;
use crate::json::str_json;
use crate::json::str_json_at;
use crate::messages::opt_close_view;
use crate::messages::CloseReason;
use crate::messages::CloseReasonView;
use crate::users::User;
use crate::users::UserView;
use crate::wire::lemma_occurs_concat;
use crate::wire::occurs_at;
use crate::wire::opt_str_view;
use vstd::prelude::*;
use vstd::string::is_ascii_spec_bytes;
use vstd::string::StringSliceAdditionalSpecFns;
use vstd::utf8::encode_utf8_valid_utf8;
use vstd::utf8::valid_utf8;
use vstd::utf8::valid_utf8_concat;

verus! {

/// What reading a fixed word at `pos` yields: the index behind it.
pub open spec fn word_at(s: Seq<u8>, pos: int, word: Seq<u8>) -> Option<int> {
    if occurs_at(word, s, pos) {
        Some(pos + word.len())
    } else {
        None
    }
}

/// The text of a comment's fields, behind the opening of its id: id,
/// owner's id and text, and the closing brace.
pub open spec fn comment_fields_json(c: CommentView) -> Seq<u8> {
    int_comma_json(c.id as int) + ("\"user_id\":".spec_bytes() + (int_comma_json(c.user_id as int)
        + ("\"body\":".spec_bytes() + (str_json(c.body) + "}".spec_bytes()))))
}

impl UserView {
    /// The identity's text: `{"id":..,"username":".."}`.
    pub open spec fn json(self) -> Seq<u8> {
        "{\"id\":".spec_bytes() + (int_comma_json(self.id as int) + ("\"username\":".spec_bytes()
            + (str_json(self.username) + "}".spec_bytes())))
    }
}

impl CommentView {
    /// The comment's text: `{"id":..,"user_id":..,"body":".."}`.
    pub open spec fn json(self) -> Seq<u8> {
        "{\"id\":".spec_bytes() + comment_fields_json(self)
    }
}

/// The text of an optional text: `null` for none, the quoted text for
/// some.
pub open spec fn opt_str_json(o: Option<Seq<char>>) -> Seq<u8> {
    match o {
        Some(t) => str_json(t),
        None => "null".spec_bytes(),
    }
}

impl CloseReasonView {
    /// The close reason's text: `{"code":..,"reason":..}`.
    pub open spec fn json(self) -> Seq<u8> {
        "{\"code\":".spec_bytes() + (int_comma_json(self.code as int) + ("\"reason\":".spec_bytes()
            + (opt_str_json(self.reason) + "}".spec_bytes())))
    }
}

/// The text of an optional close reason: `null` for none, the reason's
/// text for some.
pub open spec fn opt_close_json(o: Option<CloseReasonView>) -> Seq<u8> {
    match o {
        Some(r) => r.json(),
        None => "null".spec_bytes(),
    }
}

/// The texts of the list's comments with a comma between each two.
pub open spec fn items_json(list: Seq<CommentView>) -> Seq<u8>
    decreases list.len(),
{
    if list.len() == 0 {
        Seq::empty()
    } else if list.len() == 1 {
        list[0].json()
    } else {
        list[0].json() + (",".spec_bytes() + items_json(list.drop_first()))
    }
}

/// The text of a list of comments: `[..,..]`.
pub open spec fn comments_json(list: Seq<CommentView>) -> Seq<u8> {
    "[".spec_bytes() + (items_json(list) + "]".spec_bytes())
}

/// What reading a comment's fields at `pos` yields.
#[verifier::opaque]
pub open spec fn comment_fields_at(s: Seq<u8>, pos: int) -> Option<(CommentView, int)> {
    match int_comma_at(s, pos, i32::MIN as int, i32::MAX as int) {
        Some((id, pa)) => match word_at(s, pa, "\"user_id\":".spec_bytes()) {
            Some(pb) => match int_comma_at(s, pb, i32::MIN as int, i32::MAX as int) {
                Some((user_id, pc)) => match word_at(s, pc, "\"body\":".spec_bytes()) {
                    Some(pd) => match str_json_at(s, pd) {
                        Some((body, pe)) => match word_at(s, pe, "}".spec_bytes()) {
                            Some(pf) => Some(
                                (
                                    CommentView {
                                        id: id as i32,
                                        user_id: user_id as i32,
                                        body,
                                    },
                                    pf,
                                ),
                            ),
                            None => None,
                        },
                        None => None,
                    },
                    None => None,
                },
                None => None,
            },
            None => None,
        },
        None => None,
    }
}

/// What reading a comment at `pos` yields.
#[verifier::opaque]
pub open spec fn comment_json_at(s: Seq<u8>, pos: int) -> Option<(CommentView, int)> {
    match word_at(s, pos, "{\"id\":".spec_bytes()) {
        Some(p) => comment_fields_at(s, p),
        None => None,
    }
}

/// What reading an identity at `pos` yields.
#[verifier::opaque]
pub open spec fn user_json_at(s: Seq<u8>, pos: int) -> Option<(UserView, int)> {
    match word_at(s, pos, "{\"id\":".spec_bytes()) {
        Some(pa) => match int_comma_at(s, pa, i32::MIN as int, i32::MAX as int) {
            Some((id, pb)) => match word_at(s, pb, "\"username\":".spec_bytes()) {
                Some(pc) => match str_json_at(s, pc) {
                    Some((username, pd)) => match word_at(s, pd, "}".spec_bytes()) {
                        Some(pe) => Some((UserView { id: id as i32, username }, pe)),
                        None => None,
                    },
                    None => None,
                },
                None => None,
            },
            None => None,
        },
        None => None,
    }
}

/// What reading an optional text at `pos` yields.
pub open spec fn opt_str_json_at(s: Seq<u8>, pos: int) -> Option<(Option<Seq<char>>, int)> {
    match word_at(s, pos, "null".spec_bytes()) {
        Some(p) => Some((None, p)),
        None => match str_json_at(s, pos) {
            Some((t, p)) => Some((Some(t), p)),
            None => None,
        },
    }
}

/// What reading a close reason at `pos` yields.
#[verifier::opaque]
pub open spec fn close_reason_json_at(s: Seq<u8>, pos: int) -> Option<(CloseReasonView, int)> {
    match word_at(s, pos, "{\"code\":".spec_bytes()) {
        Some(pa) => match int_comma_at(s, pa, 0, u16::MAX as int) {
            Some((code, pb)) => match word_at(s, pb, "\"reason\":".spec_bytes()) {
                Some(pc) => match opt_str_json_at(s, pc) {
                    Some((reason, pd)) => match word_at(s, pd, "}".spec_bytes()) {
                        Some(pe) => Some((CloseReasonView { code: code as u16, reason }, pe)),
                        None => None,
                    },
                    None => None,
                },
                None => None,
            },
            None => None,
        },
        None => None,
    }
}

/// What reading an optional close reason at `pos` yields.
pub open spec fn opt_close_json_at(s: Seq<u8>, pos: int) -> Option<(Option<CloseReasonView>, int)> {
    match word_at(s, pos, "null".spec_bytes()) {
        Some(p) => Some((None, p)),
        None => match close_reason_json_at(s, pos) {
            Some((r, p)) => Some((Some(r), p)),
            None => None,
        },
    }
}

/// What reading one comment or more, and the closing bracket, at `pos`
/// yields.
pub open spec fn items_json_at(s: Seq<u8>, pos: int) -> Option<(Seq<CommentView>, int)>
    decreases s.len() - pos,
{
    match comment_json_at(s, pos) {
        Some((c, q)) => if q <= pos {
            None
        } else if q < s.len() && occurs_at(",".spec_bytes(), s, q) {
            match items_json_at(s, q + 1) {
                Some((rest, r)) => Some((seq![c] + rest, r)),
                None => None,
            }
        } else if occurs_at("]".spec_bytes(), s, q) {
            Some((seq![c], q + 1))
        } else {
            None
        },
        None => None,
    }
}

/// What reading a list of comments at `pos` yields.
pub open spec fn comments_json_at(s: Seq<u8>, pos: int) -> Option<(Seq<CommentView>, int)> {
    match word_at(s, pos, "[".spec_bytes()) {
        Some(p) => if occurs_at("]".spec_bytes(), s, p) {
            Some((Seq::empty(), p + 1))
        } else {
            items_json_at(s, p)
        },
        None => None,
    }
}

/// What the fixed words of the framing are, as far as telling them apart
/// needs it.
proof fn lemma_words()
    ensures
        "[".spec_bytes() == seq![0x5bu8],
        "]".spec_bytes() == seq![0x5du8],
        ",".spec_bytes() == seq![0x2cu8],
        "}".spec_bytes() == seq![0x7du8],
        "null".spec_bytes().len() == 4,
        "null".spec_bytes()[0] == 0x6e,
        "{\"id\":".spec_bytes().len() == 6,
        "{\"id\":".spec_bytes()[0] == 0x7b,
        "{\"code\":".spec_bytes().len() == 8,
        "{\"code\":".spec_bytes()[0] == 0x7b,
{
    reveal_strlit("[");
    reveal_strlit("]");
    reveal_strlit(",");
    reveal_strlit("}");
    reveal_strlit("null");
    reveal_strlit("{\"id\":");
    reveal_strlit("{\"code\":");
    is_ascii_spec_bytes("[");
    is_ascii_spec_bytes("]");
    is_ascii_spec_bytes(",");
    is_ascii_spec_bytes("}");
    is_ascii_spec_bytes("null");
    is_ascii_spec_bytes("{\"id\":");
    is_ascii_spec_bytes("{\"code\":");
    assert("[".spec_bytes() =~= seq![0x5bu8]);
    assert("]".spec_bytes() =~= seq![0x5du8]);
    assert(",".spec_bytes() =~= seq![0x2cu8]);
    assert("}".spec_bytes() =~= seq![0x7du8]);
}

/// A comment's fields read at `pos` are those whose text stands there.
pub proof fn lemma_comment_fields_at(s: Seq<u8>, pos: int, v: CommentView)
    ensures
        comment_fields_at(s, pos) == Some((v, pos + comment_fields_json(v).len())) <==> occurs_at(
            comment_fields_json(v),
            s,
            pos,
        ),
        comment_fields_at(s, pos) matches Some((w, p)) ==> p == pos + comment_fields_json(w).len()
            && p > pos,
{
    reveal(comment_fields_at);
    let low = i32::MIN as int;
    let high = i32::MAX as int;
    let a = int_comma_json(v.id as int);
    let b = "\"user_id\":".spec_bytes();
    let c = int_comma_json(v.user_id as int);
    let d = "\"body\":".spec_bytes();
    let e = str_json(v.body);
    let f = "}".spec_bytes();
    lemma_occurs_concat(a, b + (c + (d + (e + f))), s, pos);
    lemma_occurs_concat(b, c + (d + (e + f)), s, pos + a.len());
    lemma_occurs_concat(c, d + (e + f), s, pos + a.len() + b.len());
    lemma_occurs_concat(d, e + f, s, pos + a.len() + b.len() + c.len());
    lemma_occurs_concat(e, f, s, pos + a.len() + b.len() + c.len() + d.len());
    lemma_int_comma_at(s, pos, low, high, v.id as int);
    lemma_int_comma_at(s, pos + a.len() + b.len(), low, high, v.user_id as int);
    lemma_str_json_at(s, pos + a.len() + b.len() + c.len() + d.len(), v.body);
    if let Some((w, p)) = comment_fields_at(s, pos) {
        let a2 = int_comma_json(w.id as int);
        let c2 = int_comma_json(w.user_id as int);
        lemma_int_comma_at(s, pos, low, high, w.id as int);
        lemma_int_comma_at(s, pos + a2.len() + b.len(), low, high, w.user_id as int);
        lemma_str_json_at(s, pos + a2.len() + b.len() + c2.len() + d.len(), w.body);
    }
}

/// A comment read at `pos` is the one whose text stands there.
pub proof fn lemma_comment_json_at(s: Seq<u8>, pos: int, v: CommentView)
    ensures
        comment_json_at(s, pos) == Some((v, pos + v.json().len())) <==> occurs_at(
            v.json(),
            s,
            pos,
        ),
        comment_json_at(s, pos) matches Some((w, p)) ==> p == pos + w.json().len() && p > pos,
        v.json().len() >= 1,
        v.json()[0] == 0x7b,
{
    reveal(comment_json_at);
    lemma_words();
    let a = "{\"id\":".spec_bytes();
    lemma_occurs_concat(a, comment_fields_json(v), s, pos);
    lemma_comment_fields_at(s, pos + a.len(), v);
}

/// An identity read at `pos` is the one whose text stands there.
pub proof fn lemma_user_json_at(s: Seq<u8>, pos: int, v: UserView)
    ensures
        user_json_at(s, pos) == Some((v, pos + v.json().len())) <==> occurs_at(v.json(), s, pos),
        user_json_at(s, pos) matches Some((w, p)) ==> p == pos + w.json().len(),
{
    reveal(user_json_at);
    let low = i32::MIN as int;
    let high = i32::MAX as int;
    let a = "{\"id\":".spec_bytes();
    let b = int_comma_json(v.id as int);
    let c = "\"username\":".spec_bytes();
    let d = str_json(v.username);
    let e = "}".spec_bytes();
    lemma_occurs_concat(a, b + (c + (d + e)), s, pos);
    lemma_occurs_concat(b, c + (d + e), s, pos + a.len());
    lemma_occurs_concat(c, d + e, s, pos + a.len() + b.len());
    lemma_occurs_concat(d, e, s, pos + a.len() + b.len() + c.len());
    lemma_int_comma_at(s, pos + a.len(), low, high, v.id as int);
    lemma_str_json_at(s, pos + a.len() + b.len() + c.len(), v.username);
    if let Some((w, p)) = user_json_at(s, pos) {
        let b2 = int_comma_json(w.id as int);
        lemma_int_comma_at(s, pos + a.len(), low, high, w.id as int);
        lemma_str_json_at(s, pos + a.len() + b2.len() + c.len(), w.username);
    }
}

/// An optional text read at `pos` is the one whose text stands there.
pub proof fn lemma_opt_str_json_at(s: Seq<u8>, pos: int, o: Option<Seq<char>>)
    ensures
        opt_str_json_at(s, pos) == Some((o, pos + opt_str_json(o).len())) <==> occurs_at(
            opt_str_json(o),
            s,
            pos,
        ),
        opt_str_json_at(s, pos) matches Some((w, p)) ==> p == pos + opt_str_json(w).len(),
{
    lemma_words();
    let null = "null".spec_bytes();
    match o {
        Some(t) => {
            lemma_str_json_at(s, pos, t);
            lemma_words_differ(null, str_json(t), s, pos, 0);
        },
        None => {},
    }
    if let Some((w, p)) = opt_str_json_at(s, pos) {
        if let Some(t) = w {
            lemma_str_json_at(s, pos, t);
        }
    }
}

/// A close reason read at `pos` is the one whose text stands there.
pub proof fn lemma_close_reason_json_at(s: Seq<u8>, pos: int, v: CloseReasonView)
    ensures
        close_reason_json_at(s, pos) == Some((v, pos + v.json().len())) <==> occurs_at(
            v.json(),
            s,
            pos,
        ),
        close_reason_json_at(s, pos) matches Some((w, p)) ==> p == pos + w.json().len(),
        v.json().len() >= 1,
        v.json()[0] == 0x7b,
{
    reveal(close_reason_json_at);
    lemma_words();
    let high = u16::MAX as int;
    let a = "{\"code\":".spec_bytes();
    let b = int_comma_json(v.code as int);
    let c = "\"reason\":".spec_bytes();
    let d = opt_str_json(v.reason);
    let e = "}".spec_bytes();
    lemma_occurs_concat(a, b + (c + (d + e)), s, pos);
    lemma_occurs_concat(b, c + (d + e), s, pos + a.len());
    lemma_occurs_concat(c, d + e, s, pos + a.len() + b.len());
    lemma_occurs_concat(d, e, s, pos + a.len() + b.len() + c.len());
    lemma_int_comma_at(s, pos + a.len(), 0, high, v.code as int);
    lemma_opt_str_json_at(s, pos + a.len() + b.len() + c.len(), v.reason);
    if let Some((w, p)) = close_reason_json_at(s, pos) {
        let b2 = int_comma_json(w.code as int);
        lemma_int_comma_at(s, pos + a.len(), 0, high, w.code as int);
        lemma_opt_str_json_at(s, pos + a.len() + b2.len() + c.len(), w.reason);
    }
}

/// An optional close reason read at `pos` is the one whose text stands
/// there.
pub proof fn lemma_opt_close_json_at(s: Seq<u8>, pos: int, o: Option<CloseReasonView>)
    ensures
        opt_close_json_at(s, pos) == Some((o, pos + opt_close_json(o).len())) <==> occurs_at(
            opt_close_json(o),
            s,
            pos,
        ),
        opt_close_json_at(s, pos) matches Some((w, p)) ==> p == pos + opt_close_json(w).len(),
{
    lemma_words();
    let null = "null".spec_bytes();
    match o {
        Some(r) => {
            lemma_close_reason_json_at(s, pos, r);
            lemma_words_differ(null, r.json(), s, pos, 0);
        },
        None => {},
    }
    if let Some((w, p)) = opt_close_json_at(s, pos) {
        if let Some(r) = w {
            lemma_close_reason_json_at(s, pos, r);
        }
    }
}

proof fn lemma_items_json_at_complete(s: Seq<u8>, pos: int, list: Seq<CommentView>)
    requires
        list.len() >= 1,
        occurs_at(items_json(list) + "]".spec_bytes(), s, pos),
    ensures
        items_json_at(s, pos) == Some((list, pos + items_json(list).len() + 1)),
    decreases list.len(),
{
    lemma_words();
    let close = "]".spec_bytes();
    let comma = ",".spec_bytes();
    let first = list[0];
    lemma_comment_json_at(s, pos, first);
    let q = pos + first.json().len();
    if list.len() == 1 {
        lemma_occurs_concat(first.json(), close, s, pos);
        lemma_words_differ(comma, close, s, q, 0);
        assert(seq![first] =~= list);
    } else {
        let rest = list.drop_first();
        assert(items_json(list) + close =~= first.json() + (comma + (items_json(rest) + close)));
        lemma_occurs_concat(first.json(), comma + (items_json(rest) + close), s, pos);
        lemma_occurs_concat(comma, items_json(rest) + close, s, q);
        lemma_items_json_at_complete(s, q + 1, rest);
        assert(seq![first] + rest =~= list);
    }
}

proof fn lemma_items_json_at_sound(s: Seq<u8>, pos: int)
    ensures
        items_json_at(s, pos) matches Some((list, r)) ==> list.len() >= 1 && r == pos + items_json(
            list,
        ).len() + 1 && occurs_at(items_json(list) + "]".spec_bytes(), s, pos),
    decreases s.len() - pos,
{
    lemma_words();
    let close = "]".spec_bytes();
    let comma = ",".spec_bytes();
    if let Some((list, r)) = items_json_at(s, pos) {
        let (c, q) = comment_json_at(s, pos)->Some_0;
        lemma_comment_json_at(s, pos, c);
        if occurs_at(comma, s, q) {
            lemma_items_json_at_sound(s, q + 1);
            let (rest, r2) = items_json_at(s, q + 1)->Some_0;
            assert(list == seq![c] + rest);
            assert(list[0] == c);
            assert(list.drop_first() =~= rest);
            assert(items_json(list) + close =~= c.json() + (comma + (items_json(rest) + close)));
            lemma_occurs_concat(c.json(), comma + (items_json(rest) + close), s, pos);
            lemma_occurs_concat(comma, items_json(rest) + close, s, q);
        } else {
            assert(list == seq![c]);
            assert(list[0] == c);
            lemma_occurs_concat(c.json(), close, s, pos);
        }
    }
}

/// A list of comments read at `pos` is the one whose text stands there.
pub proof fn lemma_comments_json_at(s: Seq<u8>, pos: int, list: Seq<CommentView>)
    ensures
        comments_json_at(s, pos) == Some((list, pos + comments_json(list).len())) <==> occurs_at(
            comments_json(list),
            s,
            pos,
        ),
        comments_json_at(s, pos) matches Some((w, p)) ==> p == pos + comments_json(w).len(),
{
    lemma_words();
    let open = "[".spec_bytes();
    let close = "]".spec_bytes();
    let items = items_json(list);
    let p = pos + 1;
    lemma_occurs_concat(open, items + close, s, pos);
    lemma_items_json_at_sound(s, p);
    if occurs_at(open, s, pos) {
        if occurs_at(close, s, p) {
            assert(s.subrange(p, p + 1)[0] == 0x5du8);
            assert(items_json(Seq::<CommentView>::empty()) + close =~= close);
            if list.len() == 0 {
                assert(list =~= Seq::<CommentView>::empty());
            } else {
                lemma_first_of_items(list);
                if occurs_at(items + close, s, p) {
                    assert(s.subrange(p, p + (items + close).len())[0] == (items + close)[0]);
                }
            }
        } else {
            if list.len() == 0 {
                assert(items + close =~= close);
            } else if occurs_at(items + close, s, p) {
                lemma_items_json_at_complete(s, p, list);
            }
        }
    }
}

proof fn lemma_first_of_items(list: Seq<CommentView>)
    requires
        list.len() >= 1,
    ensures
        items_json(list).len() >= 1,
        items_json(list)[0] == 0x7b,
{
    lemma_comment_json_first(list[0]);
}

proof fn lemma_comment_json_first(v: CommentView)
    ensures
        v.json().len() >= 1,
        v.json()[0] == 0x7b,
{
    lemma_words();
}

/// The text of a comment's fields is well-formed UTF-8.
pub proof fn lemma_comment_fields_json_is_utf8(v: CommentView)
    ensures
        valid_utf8(comment_fields_json(v)),
{
    let a = int_comma_json(v.id as int);
    let b = "\"user_id\":".spec_bytes();
    let c = int_comma_json(v.user_id as int);
    let d = "\"body\":".spec_bytes();
    let e = str_json(v.body);
    let f = "}".spec_bytes();
    lemma_int_json_is_utf8(v.id as int);
    lemma_int_json_is_utf8(v.user_id as int);
    lemma_str_json_is_utf8(v.body);
    encode_utf8_valid_utf8("\"user_id\":"@);
    encode_utf8_valid_utf8("\"body\":"@);
    encode_utf8_valid_utf8("}"@);
    valid_utf8_concat(e, f);
    valid_utf8_concat(d, e + f);
    valid_utf8_concat(c, d + (e + f));
    valid_utf8_concat(b, c + (d + (e + f)));
    valid_utf8_concat(a, b + (c + (d + (e + f))));
}

/// The text of a comment is well-formed UTF-8.
pub proof fn lemma_comment_json_is_utf8(v: CommentView)
    ensures
        valid_utf8(v.json()),
{
    lemma_comment_fields_json_is_utf8(v);
    encode_utf8_valid_utf8("{\"id\":"@);
    valid_utf8_concat("{\"id\":".spec_bytes(), comment_fields_json(v));
}

/// The text of an identity is well-formed UTF-8.
pub proof fn lemma_user_json_is_utf8(v: UserView)
    ensures
        valid_utf8(v.json()),
{
    let a = "{\"id\":".spec_bytes();
    let b = int_comma_json(v.id as int);
    let c = "\"username\":".spec_bytes();
    let d = str_json(v.username);
    let e = "}".spec_bytes();
    lemma_int_json_is_utf8(v.id as int);
    lemma_str_json_is_utf8(v.username);
    encode_utf8_valid_utf8("{\"id\":"@);
    encode_utf8_valid_utf8("\"username\":"@);
    encode_utf8_valid_utf8("}"@);
    valid_utf8_concat(d, e);
    valid_utf8_concat(c, d + e);
    valid_utf8_concat(b, c + (d + e));
    valid_utf8_concat(a, b + (c + (d + e)));
}

/// The text of an optional close reason is well-formed UTF-8.
pub proof fn lemma_opt_close_json_is_utf8(o: Option<CloseReasonView>)
    ensures
        valid_utf8(opt_close_json(o)),
{
    encode_utf8_valid_utf8("null"@);
    if let Some(v) = o {
        let a = "{\"code\":".spec_bytes();
        let b = int_comma_json(v.code as int);
        let c = "\"reason\":".spec_bytes();
        let d = opt_str_json(v.reason);
        let e = "}".spec_bytes();
        lemma_int_json_is_utf8(v.code as int);
        if let Some(t) = v.reason {
            lemma_str_json_is_utf8(t);
        }
        encode_utf8_valid_utf8("{\"code\":"@);
        encode_utf8_valid_utf8("\"reason\":"@);
        encode_utf8_valid_utf8("}"@);
        valid_utf8_concat(d, e);
        valid_utf8_concat(c, d + e);
        valid_utf8_concat(b, c + (d + e));
        valid_utf8_concat(a, b + (c + (d + e)));
    }
}

proof fn lemma_items_json_is_utf8(list: Seq<CommentView>)
    ensures
        valid_utf8(items_json(list)),
    decreases list.len(),
{
    if list.len() == 0 {
    } else {
        lemma_comment_json_is_utf8(list[0]);
        if list.len() > 1 {
            lemma_items_json_is_utf8(list.drop_first());
            encode_utf8_valid_utf8(","@);
            valid_utf8_concat(",".spec_bytes(), items_json(list.drop_first()));
            valid_utf8_concat(list[0].json(), ",".spec_bytes() + items_json(list.drop_first()));
        }
    }
}

/// The text of a list of comments is well-formed UTF-8.
pub proof fn lemma_comments_json_is_utf8(list: Seq<CommentView>)
    ensures
        valid_utf8(comments_json(list)),
{
    lemma_items_json_is_utf8(list);
    encode_utf8_valid_utf8("["@);
    encode_utf8_valid_utf8("]"@);
    valid_utf8_concat(items_json(list), "]".spec_bytes());
    valid_utf8_concat("[".spec_bytes(), items_json(list) + "]".spec_bytes());
}

/// Appends the text of a comment's fields.
pub(crate) fn put_comment_fields(out: &mut Vec<u8>, comment: &Comment)
    ensures
        final(out)@ == old(out)@ + comment_fields_json(comment@),
{
    put_int_comma(out, comment.id);
    put_word(out, "\"user_id\":");
    put_int_comma(out, comment.user_id);
    put_word(out, "\"body\":");
    put_str_json(out, comment.body.as_str());
    put_word(out, "}");
    assert(out@ =~= old(out)@ + comment_fields_json(comment@));
}

/// Appends a comment's text.
pub(crate) fn put_comment_json(out: &mut Vec<u8>, comment: &Comment)
    ensures
        final(out)@ == old(out)@ + comment@.json(),
{
    put_word(out, "{\"id\":");
    put_comment_fields(out, comment);
    assert(out@ =~= old(out)@ + comment@.json());
}

/// Appends an identity's text.
pub(crate) fn put_user_json(out: &mut Vec<u8>, user: &User)
    ensures
        final(out)@ == old(out)@ + user@.json(),
{
    put_word(out, "{\"id\":");
    put_int_comma(out, user.id);
    put_word(out, "\"username\":");
    put_str_json(out, user.username.as_str());
    put_word(out, "}");
    assert(out@ =~= old(out)@ + user@.json());
}

/// Appends the text of an optional close reason.
pub(crate) fn put_opt_close_json(out: &mut Vec<u8>, reason: &Option<CloseReason>)
    ensures
        final(out)@ == old(out)@ + opt_close_json(opt_close_view(*reason)),
{
    match reason {
        Some(r) => {
            put_word(out, "{\"code\":");
            put_int_comma(out, r.code as i32);
            put_word(out, "\"reason\":");
            match &r.reason {
                Some(t) => {
                    put_str_json(out, t.as_str());
                },
                None => {
                    put_word(out, "null");
                },
            }
            put_word(out, "}");
            assert(out@ =~= old(out)@ + opt_close_json(opt_close_view(*reason)));
        },
        None => {
            put_word(out, "null");
        },
    }
}

proof fn lemma_items_json_push(list: Seq<CommentView>, c: CommentView)
    requires
        list.len() >= 1,
    ensures
        items_json(list.push(c)) == items_json(list) + (",".spec_bytes() + c.json()),
    decreases list.len(),
{
    let comma = ",".spec_bytes();
    let more = list.push(c);
    assert(more[0] == list[0]);
    if list.len() == 1 {
        assert(more.drop_first() =~= seq![c]);
        assert(seq![c][0] == c);
        assert(items_json(more.drop_first()) == c.json());
        assert(items_json(more) =~= items_json(list) + (comma + c.json()));
    } else {
        assert(more.drop_first() =~= list.drop_first().push(c));
        lemma_items_json_push(list.drop_first(), c);
        assert(items_json(more) =~= items_json(list) + (comma + c.json()));
    }
}

/// Appends the text of a list of comments.
pub(crate) fn put_comments_json(out: &mut Vec<u8>, list: &Vec<Comment>)
    ensures
        final(out)@ == old(out)@ + comments_json(comments_view(list@)),
{
    put_word(out, "[");
    let ghost views = comments_view(list@);
    let ghost head = out@;
    let mut i: usize = 0;
    while i < list.len()
        invariant
            i <= list.len(),
            views == comments_view(list@),
            out@ == head + items_json(views.take(i as int)),
        decreases list.len() - i,
    {
        let ghost done = views.take(i as int);
        proof {
            assert(views.take(i + 1) =~= done.push(views[i as int]));
        }
        if i > 0 {
            put_word(out, ",");
            put_comment_json(out, &list[i]);
            proof {
                lemma_items_json_push(done, views[i as int]);
                assert(out@ =~= head + items_json(views.take(i + 1)));
            }
        } else {
            put_comment_json(out, &list[i]);
            proof {
                assert(items_json(done) =~= Seq::<u8>::empty());
                assert(views.take(i + 1)[0] == views[0]);
                assert(out@ =~= head + items_json(views.take(i + 1)));
            }
        }
        i += 1;
    }
    assert(views.take(list.len() as int) =~= views);
    put_word(out, "]");
    assert(out@ =~= old(out)@ + comments_json(views));
}

/// Reads a comment's fields at `pos`.
pub(crate) fn read_comment_fields(bytes: &[u8], pos: usize) -> (r: Option<(Comment, usize)>)
    requires
        pos <= bytes@.len(),
    ensures
        match r {
            Some((v, p)) => comment_fields_at(bytes@, pos as int) == Some((v@, p as int)) && p
                <= bytes@.len(),
            None => comment_fields_at(bytes@, pos as int) is None,
        },
{
    proof {
        reveal(comment_fields_at);
    }
    let (id, pa) = match read_int_comma(bytes, pos, -0x8000_0000, 0x7fff_ffff) {
        Some(pair) => pair,
        None => {
            return None;
        },
    };
    let pb = match read_word(bytes, pa, "\"user_id\":") {
        Some(p) => p,
        None => {
            return None;
        },
    };
    let (user_id, pc) = match read_int_comma(bytes, pb, -0x8000_0000, 0x7fff_ffff) {
        Some(pair) => pair,
        None => {
            return None;
        },
    };
    let pd = match read_word(bytes, pc, "\"body\":") {
        Some(p) => p,
        None => {
            return None;
        },
    };
    let (body, pe) = match read_str_json(bytes, pd) {
        Some(pair) => pair,
        None => {
            return None;
        },
    };
    match read_word(bytes, pe, "}") {
        Some(pf) => Some((Comment { id: id as i32, user_id: user_id as i32, body }, pf)),
        None => None,
    }
}

/// Reads a comment at `pos`.
pub(crate) fn read_comment_json(bytes: &[u8], pos: usize) -> (r: Option<(Comment, usize)>)
    requires
        pos <= bytes@.len(),
    ensures
        match r {
            Some((v, p)) => comment_json_at(bytes@, pos as int) == Some((v@, p as int)) && p
                <= bytes@.len(),
            None => comment_json_at(bytes@, pos as int) is None,
        },
{
    proof {
        reveal(comment_json_at);
    }
    match read_word(bytes, pos, "{\"id\":") {
        Some(p) => read_comment_fields(bytes, p),
        None => None,
    }
}

/// Reads an identity at `pos`.
pub(crate) fn read_user_json(bytes: &[u8], pos: usize) -> (r: Option<(User, usize)>)
    requires
        pos <= bytes@.len(),
    ensures
        match r {
            Some((v, p)) => user_json_at(bytes@, pos as int) == Some((v@, p as int)) && p
                <= bytes@.len(),
            None => user_json_at(bytes@, pos as int) is None,
        },
{
    proof {
        reveal(user_json_at);
    }
    let pa = match read_word(bytes, pos, "{\"id\":") {
        Some(p) => p,
        None => {
            return None;
        },
    };
    let (id, pb) = match read_int_comma(bytes, pa, -0x8000_0000, 0x7fff_ffff) {
        Some(pair) => pair,
        None => {
            return None;
        },
    };
    let pc = match read_word(bytes, pb, "\"username\":") {
        Some(p) => p,
        None => {
            return None;
        },
    };
    let (username, pd) = match read_str_json(bytes, pc) {
        Some(pair) => pair,
        None => {
            return None;
        },
    };
    match read_word(bytes, pd, "}") {
        Some(pe) => Some((User { id: id as i32, username }, pe)),
        None => None,
    }
}

/// Reads an optional text at `pos`.
pub(crate) fn read_opt_str_json(bytes: &[u8], pos: usize) -> (r: Option<(Option<String>, usize)>)
    requires
        pos <= bytes@.len(),
    ensures
        match r {
            Some((v, p)) => opt_str_json_at(bytes@, pos as int) == Some(
                (opt_str_view(v), p as int),
            ) && p <= bytes@.len(),
            None => opt_str_json_at(bytes@, pos as int) is None,
        },
{
    match read_word(bytes, pos, "null") {
        Some(p) => Some((None, p)),
        None => match read_str_json(bytes, pos) {
            Some((t, p)) => Some((Some(t), p)),
            None => None,
        },
    }
}

/// Reads a close reason at `pos`.
pub(crate) fn read_close_reason_json(bytes: &[u8], pos: usize) -> (r: Option<(CloseReason, usize)>)
    requires
        pos <= bytes@.len(),
    ensures
        match r {
            Some((v, p)) => close_reason_json_at(bytes@, pos as int) == Some((v@, p as int)) && p
                <= bytes@.len(),
            None => close_reason_json_at(bytes@, pos as int) is None,
        },
{
    proof {
        reveal(close_reason_json_at);
    }
    let pa = match read_word(bytes, pos, "{\"code\":") {
        Some(p) => p,
        None => {
            return None;
        },
    };
    let (code, pb) = match read_int_comma(bytes, pa, 0, 0xffff) {
        Some(pair) => pair,
        None => {
            return None;
        },
    };
    let pc = match read_word(bytes, pb, "\"reason\":") {
        Some(p) => p,
        None => {
            return None;
        },
    };
    let (reason, pd) = match read_opt_str_json(bytes, pc) {
        Some(pair) => pair,
        None => {
            return None;
        },
    };
    match read_word(bytes, pd, "}") {
        Some(pe) => Some((CloseReason { code: code as u16, reason }, pe)),
        None => None,
    }
}

/// Reads an optional close reason at `pos`.
pub(crate) fn read_opt_close_json(bytes: &[u8], pos: usize) -> (r: Option<(Option<CloseReason>, usize)>)
    requires
        pos <= bytes@.len(),
    ensures
        match r {
            Some((v, p)) => opt_close_json_at(bytes@, pos as int) == Some(
                (opt_close_view(v), p as int),
            ) && p <= bytes@.len(),
            None => opt_close_json_at(bytes@, pos as int) is None,
        },
{
    match read_word(bytes, pos, "null") {
        Some(p) => Some((None, p)),
        None => match read_close_reason_json(bytes, pos) {
            Some((r, p)) => Some((Some(r), p)),
            None => None,
        },
    }
}

/// Reads a list of comments at `pos`.
pub(crate) fn read_comments_json(bytes: &[u8], pos: usize) -> (r: Option<(Vec<Comment>, usize)>)
    requires
        pos <= bytes@.len(),
    ensures
        match r {
            Some((v, p)) => comments_json_at(bytes@, pos as int) == Some(
                (comments_view(v@), p as int),
            ) && p <= bytes@.len(),
            None => comments_json_at(bytes@, pos as int) is None,
        },
{
    let start = match read_word(bytes, pos, "[") {
        Some(p) => p,
        None => {
            return None;
        },
    };
    let mut out: Vec<Comment> = Vec::new();
    match read_word(bytes, start, "]") {
        Some(p) => {
            proof {
                lemma_words();
                assert(comments_view(out@) =~= Seq::<CommentView>::empty());
            }
            return Some((out, p));
        },
        None => {},
    }
    let len = bytes.len();
    let mut at: usize = start;
    loop
        invariant
            start <= at <= len,
            len == bytes@.len(),
            comments_json_at(bytes@, pos as int) == items_json_at(bytes@, start as int),
            items_json_at(bytes@, start as int) == (match items_json_at(bytes@, at as int) {
                Some((rest, q)) => Some((comments_view(out@) + rest, q)),
                None => None,
            }),
        decreases len - at,
    {
        let ghost before = comments_view(out@);
        let (c, q) = match read_comment_json(bytes, at) {
            Some(pair) => pair,
            None => {
                return None;
            },
        };
        proof {
            lemma_words();
            lemma_comment_json_at(bytes@, at as int, c@);
            assert(comments_view(out@.push(c)) =~= before.push(c@));
            assert(before + seq![c@] =~= before.push(c@));
            match items_json_at(bytes@, q + 1) {
                Some((rest, r)) => {
                    assert(before + (seq![c@] + rest) =~= before.push(c@) + rest);
                },
                None => {},
            }
        }
        out.push(c);
        match read_word(bytes, q, ",") {
            Some(next) => {
                at = next;
            },
            None => {
                return match read_word(bytes, q, "]") {
                    Some(end) => Some((out, end)),
                    None => None,
                };
            },
        }
    }
}

} // verus!
