//! The list of comments, kept in step with the events that arrive.

use crate::comments::Comment;
use crate::components::Effect;
use crate::messages::BackendMessage;
use crate::messages::FrontendMessage;
use crate::users::User;
use vstd::prelude::*;

verus! {

/// The consumer's state: the comments that are shown, oldest first.
#[derive(Debug, PartialEq, Eq)]
pub struct CommentsDashboard {
    pub comments: Vec<Comment>,
}

/// What the consumer is told.
#[derive(Debug, PartialEq, Eq)]
pub enum WebsocketMessages {
    /// Send this request.
    Frontend(FrontendMessage),
    /// This event has arrived.
    Backend(BackendMessage),
}

/// What the consumer is made for: the identity that looks at the
/// comments.
#[derive(Debug, PartialEq, Eq)]
pub struct CommentsDashboardProps {
    pub user: User,
}

/// The test that a comment has another id than `id`.
pub open spec fn with_other_id(id: i32) -> spec_fn(Comment) -> bool {
    |c: Comment| c.id != id
}

/// The comments after a message. A new comment goes to the end of the
/// list; a deleted comment leaves the list, wherever it stands with its
/// id; nothing else changes the list.
pub open spec fn updated(comments: Seq<Comment>, msg: WebsocketMessages) -> Seq<Comment> {
    match msg {
        WebsocketMessages::Backend(BackendMessage::NewComment(comment)) => comments.push(comment),
        WebsocketMessages::Backend(BackendMessage::DeletedComment(comment)) => comments.filter(
            with_other_id(comment.id),
        ),
        _ => comments,
    }
}

/// What a message asks for: a request is sent on.
pub open spec fn effects(msg: WebsocketMessages) -> Seq<Effect<WebsocketMessages>> {
    match msg {
        WebsocketMessages::Frontend(fm) => seq![Effect::Send(fm)],
        WebsocketMessages::Backend(_) => Seq::empty(),
    }
}

impl CommentsDashboard {
    /// An empty list.
    pub fn create() -> (r: Self)
        ensures
            r.comments@ == Seq::<Comment>::empty(),
    {
        CommentsDashboard { comments: Vec::new() }
    }

    /// Takes up a message.
    pub fn update(&mut self, msg: WebsocketMessages) -> (r: Vec<Effect<WebsocketMessages>>)
        ensures
            final(self).comments@ == updated(old(self).comments@, msg),
            r@ == effects(msg),
    {
        let mut out: Vec<Effect<WebsocketMessages>> = Vec::new();
        match msg {
            WebsocketMessages::Frontend(fm) => {
                out.push(Effect::Send(fm));
            },
            WebsocketMessages::Backend(bm) => match bm {
                BackendMessage::NewComment(comment) => {
                    self.comments.push(comment);
                },
                BackendMessage::DeletedComment(comment) => {
                    let mut kept: Vec<Comment> = Vec::new();
                    let mut i: usize = 0;
                    while i < self.comments.len()
                        invariant
                            i <= self.comments.len(),
                            self.comments@ == old(self).comments@,
                            kept@ == self.comments@.take(i as int).filter(
                                with_other_id(comment.id),
                            ),
                        decreases self.comments.len() - i,
                    {
                        proof {
                            let done = self.comments@.take(i as int);
                            let next = self.comments@[i as int];
                            assert(self.comments@.take(i + 1) =~= done.push(next));
                            done.lemma_filter_push(next, with_other_id(comment.id));
                        }
                        if self.comments[i].id != comment.id {
                            kept.push(self.comments[i].clone());
                        }
                        i += 1;
                    }
                    assert(self.comments@.take(i as int) =~= self.comments@);
                    self.comments = kept;
                },
                _ => {},
            },
        }
        assert(out@ =~= effects(msg));
        out
    }

    /// The message that submitting a text makes: the request to create a
    /// comment with the text, owned by the one who looks at the comments.
    pub fn submit(props: &CommentsDashboardProps, comment: String) -> (msg: WebsocketMessages)
        ensures
            msg == WebsocketMessages::Frontend(
                FrontendMessage::InsertComment((props.user, comment)),
            ),
    {
        WebsocketMessages::Frontend(FrontendMessage::InsertComment((props.user.clone(), comment)))
    }
}

/// After a deletion no comment with the deleted id is left, and every
/// other comment is still there.
pub proof fn lemma_deleted_comment_leaves(comments: Seq<Comment>, deleted: Comment, other: Comment)
    ensures
        forall|i: int|
            0 <= i < updated(
                comments,
                WebsocketMessages::Backend(BackendMessage::DeletedComment(deleted)),
            ).len() ==> (#[trigger] updated(
                comments,
                WebsocketMessages::Backend(BackendMessage::DeletedComment(deleted)),
            )[i]).id != deleted.id,
        other.id != deleted.id && comments.contains(other) ==> updated(
            comments,
            WebsocketMessages::Backend(BackendMessage::DeletedComment(deleted)),
        ).contains(other),
{
    let keep = with_other_id(deleted.id);
    let after = comments.filter(keep);
    assert forall|i: int| 0 <= i < after.len() implies (#[trigger] after[i]).id != deleted.id by {
        comments.lemma_filter_pred(keep, i);
    }
    if other.id != deleted.id && comments.contains(other) {
        let i = choose|i: int| 0 <= i < comments.len() && comments[i] == other;
        comments.lemma_filter_contains(keep, i);
    }
}

} // verus!
