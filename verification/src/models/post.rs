//! The post record and its request payloads.
use vstd::prelude::*;

verus! {

/// A stored post. The author identifier is set at creation and never
/// changes; only the author may update or delete the record.
pub struct Post {
    pub id: u64,
    pub title: String,
    pub content: String,
    pub author_id: u64,
    pub created_at: u64,
    pub updated_at: u64,
}

impl Clone for Post {
    fn clone(&self) -> (r: Self)
        ensures
            r == *self,
    {
        Post {
            id: self.id,
            title: self.title.clone(),
            content: self.content.clone(),
            author_id: self.author_id,
            created_at: self.created_at,
            updated_at: self.updated_at,
        }
    }
}

/// A creation request: title and content; the author comes from the caller
/// identity bound upstream.
pub struct CreatePostDto {
    pub title: String,
    pub content: String,
}

/// A partial update: only the fields given overwrite the stored ones.
pub struct UpdatePostDto {
    pub title: Option<String>,
    pub content: Option<String>,
}

} // verus!
