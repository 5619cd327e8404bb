//! The binary layout of identities, comments, lists of comments and close
//! reasons: the fields' layouts one after the other, in declaration order.

use crate::comments::comments_view;
use crate::comments::Comment;
use crate::comments::CommentView;
use crate::messages::opt_close_view;
use crate::messages::CloseReason;
use crate::messages::CloseReasonView;
use crate::users::User;
use crate::users::UserView;
use crate::wire::i32_at;
use crate::wire::i32_encoding;
use crate::wire::lemma_i32_at;
use crate::wire::lemma_le_bytes_len;
use crate::wire::lemma_le_value_bound;
use crate::wire::lemma_occurs_concat;
use crate::wire::lemma_opt_str_at;
use crate::wire::lemma_pow256_values;
use crate::wire::lemma_str_at;
use crate::wire::lemma_uint_at;
use crate::wire::len_encoding;
use crate::wire::occurs_at;
use crate::wire::opt_str_at;
use crate::wire::opt_str_encoding;
use crate::wire::opt_str_wf;
use crate::wire::pow256;
use crate::wire::put_i32;
use crate::wire::put_le;
use crate::wire::put_opt_str;
use crate::wire::put_str;
use crate::wire::read_i32;
use crate::wire::read_opt_str;
use crate::wire::read_str;
use crate::wire::read_uint;
use crate::wire::str_at;
use crate::wire::str_encoding;
use crate::wire::str_wf;
use crate::wire::u16_encoding;
use crate::wire::uint_at;
use vstd::prelude::*;

verus! {

impl UserView {
    /// The identity can be laid out.
    pub open spec fn wf(self) -> bool {
        str_wf(self.username)
    }

    /// The identity's layout: id, then name.
    pub open spec fn encoding(self) -> Seq<u8> {
        i32_encoding(self.id) + str_encoding(self.username)
    }
}

impl CommentView {
    /// The comment can be laid out.
    pub open spec fn wf(self) -> bool {
        str_wf(self.body)
    }

    /// The comment's layout: id, owner's id, then text.
    pub open spec fn encoding(self) -> Seq<u8> {
        i32_encoding(self.id) + i32_encoding(self.user_id) + str_encoding(self.body)
    }
}

impl CloseReasonView {
    /// The close reason can be laid out.
    pub open spec fn wf(self) -> bool {
        opt_str_wf(self.reason)
    }

    /// The close reason's layout: code, then the optional text.
    pub open spec fn encoding(self) -> Seq<u8> {
        u16_encoding(self.code) + opt_str_encoding(self.reason)
    }
}

/// An optional close reason can be laid out when the reason, if any, can be.
pub open spec fn opt_close_wf(o: Option<CloseReasonView>) -> bool {
    match o {
        Some(r) => r.wf(),
        None => true,
    }
}

/// The layout of an optional close reason: a zero byte for none, a one byte
/// and the reason's layout for some.
pub open spec fn opt_close_encoding(o: Option<CloseReasonView>) -> Seq<u8> {
    match o {
        Some(r) => seq![1u8] + r.encoding(),
        None => seq![0u8],
    }
}

/// Every comment of the list can be laid out.
pub open spec fn items_wf(list: Seq<CommentView>) -> bool {
    forall|i: int| 0 <= i < list.len() ==> (#[trigger] list[i]).wf()
}

/// The layouts of the list's comments one after the other.
pub open spec fn items_encoding(list: Seq<CommentView>) -> Seq<u8>
    decreases list.len(),
{
    if list.len() == 0 {
        Seq::empty()
    } else {
        list[0].encoding() + items_encoding(list.drop_first())
    }
}

/// A list of comments can be laid out when its length fits the eight-byte
/// count and each comment can be.
pub open spec fn comments_wf(list: Seq<CommentView>) -> bool {
    list.len() < pow256(8) && items_wf(list)
}

/// The layout of a list of comments: the count, then the comments.
pub open spec fn comments_encoding(list: Seq<CommentView>) -> Seq<u8> {
    len_encoding(list.len()) + items_encoding(list)
}

/// What reading an identity at `pos` yields.
pub open spec fn user_at(s: Seq<u8>, pos: int) -> Option<(UserView, int)> {
    match i32_at(s, pos) {
        Some((id, p)) => match str_at(s, p) {
            Some((username, q)) => Some((UserView { id, username }, q)),
            None => None,
        },
        None => None,
    }
}

/// What reading a comment at `pos` yields.
pub open spec fn comment_at(s: Seq<u8>, pos: int) -> Option<(CommentView, int)> {
    match i32_at(s, pos) {
        Some((id, p)) => match i32_at(s, p) {
            Some((user_id, q)) => match str_at(s, q) {
                Some((body, r)) => Some((CommentView { id, user_id, body }, r)),
                None => None,
            },
            None => None,
        },
        None => None,
    }
}

/// What reading a close reason at `pos` yields.
pub open spec fn close_reason_at(s: Seq<u8>, pos: int) -> Option<(CloseReasonView, int)> {
    match uint_at(s, pos, 2) {
        Some((code, p)) => match opt_str_at(s, p) {
            Some((reason, q)) => Some((CloseReasonView { code: code as u16, reason }, q)),
            None => None,
        },
        None => None,
    }
}

/// What reading an optional close reason at `pos` yields.
pub open spec fn opt_close_at(s: Seq<u8>, pos: int) -> Option<(Option<CloseReasonView>, int)> {
    if 0 <= pos < s.len() {
        if s[pos] == 0 {
            Some((None, pos + 1))
        } else if s[pos] == 1 {
            match close_reason_at(s, pos + 1) {
                Some((r, p)) => Some((Some(r), p)),
                None => None,
            }
        } else {
            None
        }
    } else {
        None
    }
}

/// What reading `n` comments from `pos` on yields.
pub open spec fn items_at(s: Seq<u8>, pos: int, n: nat) -> Option<(Seq<CommentView>, int)>
    decreases n,
{
    if n == 0 {
        Some((Seq::empty(), pos))
    } else {
        match comment_at(s, pos) {
            Some((c, p)) => match items_at(s, p, (n - 1) as nat) {
                Some((rest, q)) => Some((seq![c] + rest, q)),
                None => None,
            },
            None => None,
        }
    }
}

/// What reading a list of comments at `pos` yields.
pub open spec fn comments_at(s: Seq<u8>, pos: int) -> Option<(Seq<CommentView>, int)> {
    match uint_at(s, pos, 8) {
        Some((n, p)) => items_at(s, p, n),
        None => None,
    }
}

/// An identity read at `pos` is the one whose layout stands there.
pub proof fn lemma_user_at(s: Seq<u8>, pos: int, v: UserView)
    ensures
        user_at(s, pos) == Some((v, pos + v.encoding().len())) <==> v.wf() && occurs_at(
            v.encoding(),
            s,
            pos,
        ),
        user_at(s, pos) matches Some((w, p)) ==> p == pos + w.encoding().len(),
{
    lemma_occurs_concat(i32_encoding(v.id), str_encoding(v.username), s, pos);
    lemma_i32_at(s, pos, v.id);
    lemma_str_at(s, pos + 4, v.username);
    if let Some((w, p)) = user_at(s, pos) {
        lemma_i32_at(s, pos, w.id);
        lemma_str_at(s, pos + 4, w.username);
    }
}

/// A comment read at `pos` is the one whose layout stands there.
pub proof fn lemma_comment_at(s: Seq<u8>, pos: int, v: CommentView)
    ensures
        comment_at(s, pos) == Some((v, pos + v.encoding().len())) <==> v.wf() && occurs_at(
            v.encoding(),
            s,
            pos,
        ),
        comment_at(s, pos) matches Some((w, p)) ==> p == pos + w.encoding().len(),
        v.encoding().len() >= 16,
{
    let head = i32_encoding(v.id) + i32_encoding(v.user_id);
    lemma_occurs_concat(head, str_encoding(v.body), s, pos);
    lemma_occurs_concat(i32_encoding(v.id), i32_encoding(v.user_id), s, pos);
    lemma_i32_at(s, pos, v.id);
    lemma_i32_at(s, pos + 4, v.user_id);
    lemma_str_at(s, pos + 8, v.body);
    lemma_le_bytes_len(vstd::utf8::encode_utf8(v.body).len(), 8);
    if let Some((w, p)) = comment_at(s, pos) {
        lemma_i32_at(s, pos, w.id);
        lemma_i32_at(s, pos + 4, w.user_id);
        lemma_str_at(s, pos + 8, w.body);
    }
}

/// A close reason read at `pos` is the one whose layout stands there.
pub proof fn lemma_close_reason_at(s: Seq<u8>, pos: int, v: CloseReasonView)
    ensures
        close_reason_at(s, pos) == Some((v, pos + v.encoding().len())) <==> v.wf() && occurs_at(
            v.encoding(),
            s,
            pos,
        ),
        close_reason_at(s, pos) matches Some((w, p)) ==> p == pos + w.encoding().len(),
{
    lemma_pow256_values();
    lemma_occurs_concat(u16_encoding(v.code), opt_str_encoding(v.reason), s, pos);
    lemma_uint_at(s, pos, 2, v.code as nat);
    lemma_le_bytes_len(v.code as nat, 2);
    lemma_opt_str_at(s, pos + 2, v.reason);
    if let Some((w, p)) = close_reason_at(s, pos) {
        lemma_le_value_bound(s.subrange(pos, pos + 2));
        lemma_le_bytes_len(w.code as nat, 2);
        lemma_opt_str_at(s, pos + 2, w.reason);
    }
}

/// An optional close reason read at `pos` is the one whose layout stands
/// there.
pub proof fn lemma_opt_close_at(s: Seq<u8>, pos: int, o: Option<CloseReasonView>)
    ensures
        opt_close_at(s, pos) == Some((o, pos + opt_close_encoding(o).len())) <==> opt_close_wf(o)
            && occurs_at(opt_close_encoding(o), s, pos),
        opt_close_at(s, pos) matches Some((w, p)) ==> p == pos + opt_close_encoding(w).len(),
{
    match o {
        Some(r) => {
            lemma_occurs_concat(seq![1u8], r.encoding(), s, pos);
            lemma_close_reason_at(s, pos + 1, r);
            if occurs_at(seq![1u8], s, pos) {
                assert(s.subrange(pos, pos + 1)[0] == 1u8);
            }
            if 0 <= pos < s.len() && s[pos] == 1 {
                assert(s.subrange(pos, pos + 1) =~= seq![1u8]);
            }
        },
        None => {
            if occurs_at(seq![0u8], s, pos) {
                assert(s.subrange(pos, pos + 1)[0] == 0u8);
            }
            if 0 <= pos < s.len() && s[pos] == 0 {
                assert(s.subrange(pos, pos + 1) =~= seq![0u8]);
            }
        },
    }
    if let Some((w, p)) = opt_close_at(s, pos) {
        if let Some(r) = w {
            lemma_close_reason_at(s, pos + 1, r);
        }
    }
}

/// Comments read one after the other from `pos` on are those whose layouts
/// stand there.
pub proof fn lemma_items_at(s: Seq<u8>, pos: int, list: Seq<CommentView>)
    requires
        0 <= pos <= s.len(),
    ensures
        items_at(s, pos, list.len()) == Some((list, pos + items_encoding(list).len()))
            <==> items_wf(list) && occurs_at(items_encoding(list), s, pos),
    decreases list.len(),
{
    if list.len() == 0 {
        assert(s.subrange(pos, pos) =~= Seq::<u8>::empty());
        assert(items_at(s, pos, 0).unwrap().0 =~= list);
    } else {
        let first = list[0];
        let rest = list.drop_first();
        lemma_occurs_concat(first.encoding(), items_encoding(rest), s, pos);
        lemma_comment_at(s, pos, first);
        let mid = pos + first.encoding().len();
        if mid <= s.len() {
            lemma_items_at(s, mid, rest);
        }
        assert(list =~= seq![first] + rest);
        if items_wf(list) {
            assert(first.wf());
            assert forall|i: int| 0 <= i < rest.len() implies (#[trigger] rest[i]).wf() by {
                assert(rest[i] == list[i + 1]);
            }
        }
        if first.wf() && items_wf(rest) {
            assert forall|i: int| 0 <= i < list.len() implies (#[trigger] list[i]).wf() by {
                if i > 0 {
                    assert(list[i] == rest[i - 1]);
                }
            }
        }
        if let Some((c, p)) = comment_at(s, pos) {
            lemma_comment_at(s, pos, c);
            if let Some((tail, q)) = items_at(s, p, (list.len() - 1) as nat) {
                if seq![c] + tail == list {
                    assert((seq![c] + tail)[0] == c);
                    assert((seq![c] + tail).drop_first() =~= tail);
                }
            }
        }
    }
}

/// Reading `n` comments yields `n` comments, and ends where their layouts
/// end.
pub proof fn lemma_items_at_len(s: Seq<u8>, pos: int, n: nat)
    requires
        0 <= pos <= s.len(),
    ensures
        items_at(s, pos, n) matches Some((list, p)) ==> list.len() == n && p == pos
            + items_encoding(list).len() && p <= s.len(),
    decreases n,
{
    if n > 0 {
        if let Some((c, p)) = comment_at(s, pos) {
            lemma_comment_at(s, pos, c);
            lemma_items_at_len(s, p, (n - 1) as nat);
            if let Some((rest, q)) = items_at(s, p, (n - 1) as nat) {
                let list = seq![c] + rest;
                assert(list.drop_first() =~= rest);
                assert(list[0] == c);
            }
        }
    }
}

/// A list of comments read at `pos` is the one whose layout stands there.
pub proof fn lemma_comments_at(s: Seq<u8>, pos: int, list: Seq<CommentView>)
    ensures
        comments_at(s, pos) == Some((list, pos + comments_encoding(list).len())) <==> comments_wf(
            list,
        ) && occurs_at(comments_encoding(list), s, pos),
        comments_at(s, pos) matches Some((w, p)) ==> p == pos + comments_encoding(w).len(),
{
    lemma_le_bytes_len(list.len(), 8);
    lemma_occurs_concat(len_encoding(list.len()), items_encoding(list), s, pos);
    if list.len() < pow256(8) {
        lemma_uint_at(s, pos, 8, list.len());
    }
    if let Some((n, p)) = uint_at(s, pos, 8) {
        lemma_le_value_bound(s.subrange(pos, pos + 8));
        lemma_items_at(s, p, list);
        lemma_items_at_len(s, p, n);
        if let Some((w, q)) = items_at(s, p, n) {
            lemma_le_bytes_len(w.len(), 8);
        }
    }
}

/// Appends an identity's layout.
pub(crate) fn put_user(out: &mut Vec<u8>, user: &User)
    ensures
        final(out)@ == old(out)@ + user@.encoding(),
        user@.wf(),
{
    put_i32(out, user.id);
    put_str(out, user.username.as_str());
    assert(out@ =~= old(out)@ + user@.encoding());
}

/// Appends a comment's layout.
pub(crate) fn put_comment(out: &mut Vec<u8>, comment: &Comment)
    ensures
        final(out)@ == old(out)@ + comment@.encoding(),
        comment@.wf(),
{
    put_i32(out, comment.id);
    put_i32(out, comment.user_id);
    put_str(out, comment.body.as_str());
    assert(out@ =~= old(out)@ + comment@.encoding());
}

/// Appends the layout of an optional close reason.
pub(crate) fn put_opt_close(out: &mut Vec<u8>, reason: &Option<CloseReason>)
    ensures
        final(out)@ == old(out)@ + opt_close_encoding(opt_close_view(*reason)),
        opt_close_wf(opt_close_view(*reason)),
{
    match reason {
        Some(r) => {
            out.push(1u8);
            put_le(out, r.code as u64, 2);
            put_opt_str(out, &r.reason);
            assert(out@ =~= old(out)@ + opt_close_encoding(opt_close_view(*reason)));
        },
        None => {
            out.push(0u8);
            assert(out@ =~= old(out)@ + opt_close_encoding(opt_close_view(*reason)));
        },
    }
}

proof fn lemma_items_encoding_push(list: Seq<CommentView>, c: CommentView)
    ensures
        items_encoding(list.push(c)) == items_encoding(list) + c.encoding(),
    decreases list.len(),
{
    if list.len() == 0 {
        let one = list.push(c);
        assert(one[0] == c);
        assert(one.drop_first() =~= Seq::<CommentView>::empty());
        assert(items_encoding(one.drop_first()) =~= Seq::<u8>::empty());
        assert(items_encoding(one) =~= c.encoding() + items_encoding(one.drop_first()));
        assert(items_encoding(list) =~= Seq::<u8>::empty());
        assert(items_encoding(one) =~= items_encoding(list) + c.encoding());
    } else {
        assert(list.push(c).drop_first() =~= list.drop_first().push(c));
        lemma_items_encoding_push(list.drop_first(), c);
        assert(items_encoding(list.push(c)) =~= items_encoding(list) + c.encoding());
    }
}

/// Appends the layout of a list of comments.
pub(crate) fn put_comments(out: &mut Vec<u8>, list: &Vec<Comment>)
    ensures
        final(out)@ == old(out)@ + comments_encoding(comments_view(list@)),
        comments_wf(comments_view(list@)),
{
    proof {
        lemma_pow256_values();
    }
    put_le(out, list.len() as u64, 8);
    let ghost views = comments_view(list@);
    let ghost head = out@;
    let mut i: usize = 0;
    while i < list.len()
        invariant
            i <= list.len(),
            views == comments_view(list@),
            out@ == head + items_encoding(views.take(i as int)),
            items_wf(views.take(i as int)),
        decreases list.len() - i,
    {
        put_comment(out, &list[i]);
        proof {
            let done = views.take(i as int);
            assert(views.take(i + 1) =~= done.push(views[i as int]));
            lemma_items_encoding_push(done, views[i as int]);
            assert(out@ =~= head + items_encoding(views.take(i + 1)));
        }
        i += 1;
    }
    assert(views.take(list.len() as int) =~= views);
    assert(out@ =~= old(out)@ + comments_encoding(views));
}

/// Reads an identity at `pos`.
pub(crate) fn read_user(bytes: &[u8], pos: usize) -> (r: Option<(User, usize)>)
    requires
        pos <= bytes@.len(),
    ensures
        match r {
            Some((v, p)) => user_at(bytes@, pos as int) == Some((v@, p as int)) && p
                <= bytes@.len(),
            None => user_at(bytes@, pos as int) is None,
        },
{
    match read_i32(bytes, pos) {
        Some((id, p)) => match read_str(bytes, p) {
            Some((username, q)) => Some((User { id, username }, q)),
            None => None,
        },
        None => None,
    }
}

/// Reads a comment at `pos`.
pub(crate) fn read_comment(bytes: &[u8], pos: usize) -> (r: Option<(Comment, usize)>)
    requires
        pos <= bytes@.len(),
    ensures
        match r {
            Some((v, p)) => comment_at(bytes@, pos as int) == Some((v@, p as int)) && p
                <= bytes@.len(),
            None => comment_at(bytes@, pos as int) is None,
        },
{
    match read_i32(bytes, pos) {
        Some((id, p)) => match read_i32(bytes, p) {
            Some((user_id, q)) => match read_str(bytes, q) {
                Some((body, r)) => Some((Comment { id, user_id, body }, r)),
                None => None,
            },
            None => None,
        },
        None => None,
    }
}

/// Reads an optional close reason at `pos`.
pub(crate) fn read_opt_close(bytes: &[u8], pos: usize) -> (r: Option<(Option<CloseReason>, usize)>)
    requires
        pos <= bytes@.len(),
    ensures
        match r {
            Some((v, p)) => opt_close_at(bytes@, pos as int) == Some((opt_close_view(v), p as int))
                && p <= bytes@.len(),
            None => opt_close_at(bytes@, pos as int) is None,
        },
{
    if pos >= bytes.len() {
        return None;
    }
    let tag: u8 = bytes[pos];
    if tag == 0 {
        Some((None, pos + 1))
    } else if tag == 1 {
        match read_uint(bytes, pos + 1, 2) {
            Some((code, p)) => match read_opt_str(bytes, p) {
                Some((reason, q)) => {
                    proof {
                        lemma_le_value_bound(bytes@.subrange(pos + 1, pos + 3));
                        lemma_pow256_values();
                    }
                    Some((Some(CloseReason { code: code as u16, reason }), q))
                },
                None => None,
            },
            None => None,
        }
    } else {
        None
    }
}

/// Reads a list of comments at `pos`.
pub(crate) fn read_comments(bytes: &[u8], pos: usize) -> (r: Option<(Vec<Comment>, usize)>)
    requires
        pos <= bytes@.len(),
    ensures
        match r {
            Some((v, p)) => comments_at(bytes@, pos as int) == Some((comments_view(v@), p as int))
                && p <= bytes@.len(),
            None => comments_at(bytes@, pos as int) is None,
        },
{
    let (count, start) = match read_uint(bytes, pos, 8) {
        Some(pair) => pair,
        None => {
            return None;
        },
    };
    let mut out: Vec<Comment> = Vec::new();
    let mut at: usize = start;
    let mut i: u64 = 0;
    while i < count
        invariant
            i <= count,
            start <= at <= bytes@.len(),
            out@.len() == i,
            uint_at(bytes@, pos as int, 8) == Some((count as nat, start as int)),
            items_at(bytes@, start as int, count as nat) == (match items_at(
                bytes@,
                at as int,
                (count - i) as nat,
            ) {
                Some((rest, q)) => Some((comments_view(out@) + rest, q)),
                None => None,
            }),
        decreases count - i,
    {
        let ghost before = comments_view(out@);
        match read_comment(bytes, at) {
            Some((c, next)) => {
                proof {
                    let cv = c@;
                    assert(comments_view(out@.push(c)) =~= before.push(cv));
                    match items_at(bytes@, next as int, (count - i - 1) as nat) {
                        Some((rest, q)) => {
                            assert(before + (seq![cv] + rest) =~= before.push(cv) + rest);
                        },
                        None => {},
                    }
                    lemma_comment_at(bytes@, at as int, cv);
                }
                out.push(c);
                at = next;
                i += 1;
            },
            None => {
                assert(items_at(bytes@, at as int, (count - i) as nat) is None);
                assert(comments_at(bytes@, pos as int) is None);
                return None;
            },
        }
    }
    proof {
        assert(comments_view(out@) + Seq::<CommentView>::empty() =~= comments_view(out@));
    }
    Some((out, at))
}

} // verus!
