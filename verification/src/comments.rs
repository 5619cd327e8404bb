//! The records that the relay keeps its clients in step about.

use vstd::prelude::*;

verus! {

/// A comment: its id, the id of the identity that owns it, and its text.
#[derive(Debug, PartialEq, Eq)]
pub struct Comment {
    pub id: i32,
    pub user_id: i32,
    pub body: String,
}

/// The mathematical value of a [`Comment`].
pub struct CommentView {
    pub id: i32,
    pub user_id: i32,
    pub body: Seq<char>,
}

impl View for Comment {
    type V = CommentView;

    open spec fn view(&self) -> CommentView {
        CommentView { id: self.id, user_id: self.user_id, body: self.body@ }
    }
}

impl Clone for Comment {
    fn clone(&self) -> (r: Self)
        ensures
            r == *self,
    {
        Comment { id: self.id, user_id: self.user_id, body: self.body.clone() }
    }
}

/// The values of a list of comments, in order.
pub open spec fn comments_view(s: Seq<Comment>) -> Seq<CommentView> {
    s.map_values(|c: Comment| c@)
}

/// Copies a list of comments.
pub fn clone_comments(list: &Vec<Comment>) -> (r: Vec<Comment>)
    ensures
        r@ == list@,
{
    let mut out: Vec<Comment> = Vec::new();
    let mut i: usize = 0;
    while i < list.len()
        invariant
            i <= list.len(),
            out@ == list@.take(i as int),
        decreases list.len() - i,
    {
        out.push(list[i].clone());
        i += 1;
    }
    out
}

} // verus!
