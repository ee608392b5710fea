//! The post service: create, read and list for any caller, update and delete
//! only for the record's author. A missing record and a record owned by
//! someone else are deliberately indistinguishable in every answer.
use vstd::prelude::*;

use crate::errors::StoreError;
use crate::models::post::{CreatePostDto, Post, UpdatePostDto};
use crate::pagination::page_of;

verus! {

/// The first index holding a post with this identifier, or -1.
pub open spec fn post_id_index(posts: Seq<Post>, id: u64) -> int
    decreases posts.len(),
{
    if posts.len() == 0 {
        -1
    } else if posts[0].id == id {
        0
    } else {
        let r = post_id_index(posts.drop_first(), id);
        if r < 0 {
            -1
        } else {
            r + 1
        }
    }
}

/// The stored post with this identifier, if any.
pub open spec fn spec_get_post(posts: Seq<Post>, id: u64) -> Option<Post> {
    let i = post_id_index(posts, id);
    if i < 0 {
        None
    } else {
        Some(posts[i])
    }
}

/// The scan for an identifier finds the first match, and a match exactly
/// when one exists.
pub proof fn lemma_post_id_index(posts: Seq<Post>, id: u64)
    ensures
        post_id_index(posts, id) == -1 <==> (forall|i: int|
            0 <= i < posts.len() ==> #[trigger] posts[i].id != id),
        post_id_index(posts, id) >= 0 ==> 0 <= post_id_index(posts, id) < posts.len()
            && posts[post_id_index(posts, id)].id == id,
        forall|j: int| 0 <= j < post_id_index(posts, id) ==> #[trigger] posts[j].id != id,
    decreases posts.len(),
{
    if posts.len() > 0 && posts[0].id != id {
        let rest = posts.drop_first();
        lemma_post_id_index(rest, id);
        assert(forall|k: int| 0 <= k < rest.len() ==> #[trigger] rest[k] == posts[k + 1]);
        assert forall|j: int| 0 <= j < post_id_index(posts, id) implies #[trigger] posts[j].id
            != id by {
            if j > 0 {
                assert(rest[j - 1] == posts[j]);
            }
        }
        if post_id_index(posts, id) == -1 {
            assert forall|i: int| 0 <= i < posts.len() implies #[trigger] posts[i].id != id by {
                if i > 0 {
                    assert(rest[i - 1] == posts[i]);
                }
            }
        }
    }
}

/// The given record patched by a partial update at time `now`: fields named
/// in the payload overwrite the stored ones, the identifier, author and
/// creation time stay, the update time moves to `now`.
pub open spec fn apply_post_update(p: Post, dto: UpdatePostDto, now: u64) -> Post {
    Post {
        id: p.id,
        title: match dto.title {
            Some(t) => t,
            None => p.title,
        },
        content: match dto.content {
            Some(c) => c,
            None => p.content,
        },
        author_id: p.author_id,
        created_at: p.created_at,
        updated_at: now,
    }
}

/// Reading an absent identifier stays absent across an update of any record:
/// updates never change identifiers.
pub proof fn lemma_absent_read_stable_under_update(
    posts: Seq<Post>,
    idx: int,
    patched: Post,
    id: u64,
)
    requires
        0 <= idx < posts.len(),
        patched.id == posts[idx].id,
        spec_get_post(posts, id) is None,
    ensures
        spec_get_post(posts.update(idx, patched), id) is None,
{
    lemma_post_id_index(posts, id);
    lemma_post_id_index(posts.update(idx, patched), id);
    assert forall|i: int| 0 <= i < posts.update(idx, patched).len()
        implies #[trigger] posts.update(idx, patched)[i].id != id by {
        assert(posts[i].id != id);
    }
}

/// Reading an absent identifier stays absent across a deletion.
pub proof fn lemma_absent_read_stable_under_delete(posts: Seq<Post>, idx: int, id: u64)
    requires
        0 <= idx < posts.len(),
        spec_get_post(posts, id) is None,
    ensures
        spec_get_post(posts.remove(idx), id) is None,
{
    lemma_post_id_index(posts, id);
    lemma_post_id_index(posts.remove(idx), id);
    assert forall|i: int| 0 <= i < posts.remove(idx).len()
        implies #[trigger] posts.remove(idx)[i].id != id by {
        if i < idx {
            assert(posts.remove(idx)[i] == posts[i]);
        } else {
            assert(posts.remove(idx)[i] == posts[i + 1]);
        }
        assert(posts[i].id != id && posts[i + 1].id != id);
    }
}

/// Reading an absent identifier stays absent across the creation of a record
/// under a different identifier.
pub proof fn lemma_absent_read_stable_under_create(posts: Seq<Post>, p: Post, id: u64)
    requires
        p.id != id,
        spec_get_post(posts, id) is None,
    ensures
        spec_get_post(posts.push(p), id) is None,
{
    lemma_post_id_index(posts, id);
    lemma_post_id_index(posts.push(p), id);
    assert forall|i: int| 0 <= i < posts.push(p).len() implies #[trigger] posts.push(p)[i].id
        != id by {
        if i < posts.len() {
            assert(posts.push(p)[i] == posts[i]);
            assert(posts[i].id != id);
        }
    }
}

/// The post store: records in creation order, and the next identifier.
pub struct PostService {
    posts: Vec<Post>,
    next_id: u64,
}

impl PostService {
    /// The stored posts, oldest first.
    pub closed spec fn posts_view(self) -> Seq<Post> {
        self.posts@
    }

    /// The identifier the next created post receives.
    pub closed spec fn next_id_view(self) -> u64 {
        self.next_id
    }

    /// Identifiers grow with creation order and stay below the next one.
    pub open spec fn wf(self) -> bool {
        &&& forall|i: int, j: int|
            0 <= i < j < self.posts_view().len() ==> #[trigger] self.posts_view()[i].id
                < #[trigger] self.posts_view()[j].id
        &&& forall|i: int|
            0 <= i < self.posts_view().len() ==> #[trigger] self.posts_view()[i].id
                < self.next_id_view()
    }

    /// An empty store.
    pub fn new() -> (r: Self)
        ensures
            r.wf(),
            r.posts_view() == Seq::<Post>::empty(),
            r.next_id_view() == 0,
    {
        PostService { posts: Vec::new(), next_id: 0 }
    }

    /// The identifier the next created record receives, for callers that
    /// must stay below the identifier space's end.
    pub fn next_id(&self) -> (r: u64)
        ensures
            r == self.next_id_view(),
    {
        self.next_id
    }

    /// The position of the post with this identifier.
    fn find_index(&self, post_id: u64) -> (r: Option<usize>)
        ensures
            match r {
                Some(i) => post_id_index(self.posts_view(), post_id) == i as int,
                None => post_id_index(self.posts_view(), post_id) == -1,
            },
    {
        proof {
            lemma_post_id_index(self.posts_view(), post_id);
        }
        let mut i: usize = 0;
        while i < self.posts.len()
            invariant
                i <= self.posts_view().len(),
                forall|j: int| 0 <= j < i ==> #[trigger] self.posts_view()[j].id != post_id,
            decreases self.posts_view().len() - i,
        {
            if self.posts[i].id == post_id {
                proof {
                    lemma_post_id_index(self.posts_view(), post_id);
                }
                return Some(i);
            }
            i = i + 1;
        }
        proof {
            lemma_post_id_index(self.posts_view(), post_id);
        }
        None
    }

    /// Creates a post stamped with the caller's identity as author; the
    /// caller was authenticated upstream, and no ownership check applies.
    pub fn create_post(&mut self, dto: CreatePostDto, author_id: u64, now: u64) -> (r: Result<
        Post,
        StoreError,
    >)
        requires
            old(self).wf(),
            old(self).next_id_view() < u64::MAX,
        ensures
            final(self).wf(),
            final(self).next_id_view() == old(self).next_id_view() + 1,
            r matches Ok(p) && (p.id == old(self).next_id_view() && p.title@ == dto.title@
                && p.content@ == dto.content@ && p.author_id == author_id && p.created_at == now
                && p.updated_at == now && final(self).posts_view() == old(
                self,
            ).posts_view().push(p)),
    {
        let post = Post {
            id: self.next_id,
            title: dto.title,
            content: dto.content,
            author_id,
            created_at: now,
            updated_at: now,
        };
        let returned = post.clone();
        self.posts.push(post);
        self.next_id = self.next_id + 1;
        proof {
            let post_len = self.posts_view().len();
            assert forall|a: int, b: int|
                0 <= a < b < post_len implies #[trigger] self.posts_view()[a].id
                < #[trigger] self.posts_view()[b].id by {
                if b < post_len - 1 {
                    assert(self.posts_view()[a] == old(self).posts_view()[a]);
                    assert(self.posts_view()[b] == old(self).posts_view()[b]);
                } else {
                    assert(self.posts_view()[a] == old(self).posts_view()[a]);
                    assert(old(self).posts_view()[a].id < old(self).next_id_view());
                }
            }
            assert forall|a: int| 0 <= a < post_len implies #[trigger] self.posts_view()[a].id
                < self.next_id_view() by {
                if a < post_len - 1 {
                    assert(self.posts_view()[a] == old(self).posts_view()[a]);
                    assert(old(self).posts_view()[a].id < old(self).next_id_view());
                }
            }
        }
        Ok(returned)
    }

    /// Reads one post by identifier: no ownership check, absent when no
    /// record matches.
    pub fn get_post(&self, post_id: u64) -> (r: Result<Option<Post>, StoreError>)
        ensures
            r == Ok::<Option<Post>, StoreError>(spec_get_post(self.posts_view(), post_id)),
    {
        proof {
            lemma_post_id_index(self.posts_view(), post_id);
        }
        match self.find_index(post_id) {
            Some(i) => Ok(Some(self.posts[i].clone())),
            None => Ok(None),
        }
    }

    /// Lists posts newest-first — by descending identifier, which is creation
    /// order — `per_page` records starting at page `page` (1-based). A
    /// negative page size or offset is refused as the storage engine would
    /// refuse it.
    pub fn get_posts(&self, page: i64, per_page: i64) -> (r: Result<Vec<Post>, StoreError>)
        requires
            i64::MIN < page,
            i64::MIN <= (page - 1) * per_page <= i64::MAX,
        ensures
            (per_page < 0 || (page - 1) * per_page < 0) <==> r is Err,
            r matches Ok(v) ==> v@ == page_of(
                self.posts_view().reverse(),
                (page - 1) * per_page,
                per_page as int,
            ),
    {
        let offset = (page - 1) * per_page;
        if per_page < 0 || offset < 0 {
            return Err(StoreError);
        }
        let n = self.posts.len();
        let rev = Ghost(self.posts_view().reverse());
        let start: usize = if offset as u64 >= n as u64 {
            n
        } else {
            offset as usize
        };
        let remaining = n - start;
        let count: usize = if per_page as u64 >= remaining as u64 {
            remaining
        } else {
            per_page as usize
        };
        let mut out: Vec<Post> = Vec::new();
        let mut j: usize = 0;
        while j < count
            invariant
                start + count <= n,
                n == self.posts_view().len(),
                j <= count,
                out@ =~= rev@.subrange(start as int, start + j),
                rev@ == self.posts_view().reverse(),
            decreases count - j,
        {
            let idx = n - 1 - (start + j);
            out.push(self.posts[idx].clone());
            j = j + 1;
            proof {
                assert(rev@[start + j - 1] == self.posts_view()[n - 1 - (start + j - 1)]);
                assert(out@ =~= rev@.subrange(start as int, start + j));
            }
        }
        proof {
            assert(out@ =~= page_of(self.posts_view().reverse(), offset as int, per_page as int));
        }
        Ok(out)
    }

    /// Updates a post: absent when no record has the identifier, and equally
    /// absent when the record belongs to another author — the two cases are
    /// indistinguishable by design. Only fields named in the payload change,
    /// and the update time moves to `now`.
    pub fn update_post(
        &mut self,
        post_id: u64,
        dto: UpdatePostDto,
        author_id: u64,
        now: u64,
    ) -> (r: Result<Option<Post>, StoreError>)
        requires
            old(self).wf(),
        ensures
            final(self).wf(),
            final(self).next_id_view() == old(self).next_id_view(),
            ({
                let idx = post_id_index(old(self).posts_view(), post_id);
                if idx < 0 || old(self).posts_view()[idx].author_id != author_id {
                    r == Ok::<Option<Post>, StoreError>(None) && final(self).posts_view() == old(
                        self,
                    ).posts_view()
                } else {
                    let p = apply_post_update(old(self).posts_view()[idx], dto, now);
                    r == Ok::<Option<Post>, StoreError>(Some(p)) && final(self).posts_view()
                        == old(self).posts_view().update(idx, p)
                }
            }),
    {
        proof {
            lemma_post_id_index(self.posts_view(), post_id);
        }
        let i = match self.find_index(post_id) {
            Some(i) => i,
            None => {
                return Ok(None);
            },
        };
        if self.posts[i].author_id != author_id {
            return Ok(None);
        }
        let stored = self.posts.remove(i);
        let patched = Post {
            id: stored.id,
            title: match dto.title {
                Some(t) => t,
                None => stored.title,
            },
            content: match dto.content {
                Some(c) => c,
                None => stored.content,
            },
            author_id: stored.author_id,
            created_at: stored.created_at,
            updated_at: now,
        };
        let returned = patched.clone();
        self.posts.insert(i, patched);
        proof {
            assert(self.posts_view() =~= old(self).posts_view().update(
                i as int,
                self.posts_view()[i as int],
            ));
        }
        Ok(Some(returned))
    }

    /// Deletes a post, but only when a record with this identifier and this
    /// author exists; reports whether a record was removed. A missing record
    /// and another author's record answer alike.
    pub fn delete_post(&mut self, post_id: u64, author_id: u64) -> (r: Result<bool, StoreError>)
        requires
            old(self).wf(),
        ensures
            final(self).wf(),
            final(self).next_id_view() == old(self).next_id_view(),
            ({
                let idx = post_id_index(old(self).posts_view(), post_id);
                if idx < 0 || old(self).posts_view()[idx].author_id != author_id {
                    r == Ok::<bool, StoreError>(false) && final(self).posts_view() == old(
                        self,
                    ).posts_view()
                } else {
                    r == Ok::<bool, StoreError>(true) && final(self).posts_view() == old(
                        self,
                    ).posts_view().remove(idx)
                }
            }),
    {
        let i = match self.find_index(post_id) {
            Some(i) => i,
            None => {
                return Ok(false);
            },
        };
        proof {
            lemma_post_id_index(self.posts_view(), post_id);
        }
        if self.posts[i].author_id != author_id {
            return Ok(false);
        }
        self.posts.remove(i);
        proof {
            assert forall|a: int, b: int|
                0 <= a < b < self.posts_view().len() implies #[trigger] self.posts_view()[a].id
                < #[trigger] self.posts_view()[b].id by {
                assert(self.posts_view() =~= old(self).posts_view().subrange(0, i as int) + old(
                    self,
                ).posts_view().subrange(i + 1, old(self).posts_view().len() as int));
            }
        }
        Ok(true)
    }
}

} // verus!
