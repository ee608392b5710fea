//! The comment record and its request payloads. A comment sits under a post
//! and may answer one parent comment, giving a two-level hierarchy.
use vstd::prelude::*;

verus! {

/// A stored comment. The author identifier is set at creation and never
/// changes; only the author may update or delete the record.
pub struct Comment {
    pub id: u64,
    pub content: String,
    pub post_id: u64,
    pub author_id: u64,
    pub parent_id: Option<u64>,
    pub created_at: u64,
    pub updated_at: u64,
}

impl Clone for Comment {
    fn clone(&self) -> (r: Self)
        ensures
            r == *self,
    {
        Comment {
            id: self.id,
            content: self.content.clone(),
            post_id: self.post_id,
            author_id: self.author_id,
            parent_id: match self.parent_id {
                Some(p) => Some(p),
                None => None,
            },
            created_at: self.created_at,
            updated_at: self.updated_at,
        }
    }
}

/// A creation request: the content, and the parent comment when the new
/// comment is a reply.
pub struct CreateCommentDto {
    pub content: String,
    pub parent_id: Option<u64>,
}

/// An update request: the new content.
pub struct UpdateCommentDto {
    pub content: String,
}

} // verus!
