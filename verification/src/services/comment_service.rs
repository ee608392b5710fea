//! The comment service: the ownership-guarded pattern of the post service,
//! instantiated for comments, with two filtered listings — a post's comments
//! newest-first and a comment's replies oldest-first.
use vstd::prelude::*;

use crate::errors::StoreError;
use crate::models::comment::{Comment, CreateCommentDto, UpdateCommentDto};
use crate::pagination::page_of;

verus! {

/// The first index holding a comment with this identifier, or -1.
pub open spec fn comment_id_index(comments: Seq<Comment>, id: u64) -> int
    decreases comments.len(),
{
    if comments.len() == 0 {
        -1
    } else if comments[0].id == id {
        0
    } else {
        let r = comment_id_index(comments.drop_first(), id);
        if r < 0 {
            -1
        } else {
            r + 1
        }
    }
}

/// The stored comment with this identifier, if any.
pub open spec fn spec_get_comment(comments: Seq<Comment>, id: u64) -> Option<Comment> {
    let i = comment_id_index(comments, id);
    if i < 0 {
        None
    } else {
        Some(comments[i])
    }
}

/// True when a creation payload's parent reference is admissible: absent, or
/// naming a stored top-level comment — the hierarchy is two-level, never an
/// arbitrary tree.
pub open spec fn valid_parent(comments: Seq<Comment>, parent_id: Option<u64>) -> bool {
    match parent_id {
        None => true,
        Some(p) => {
            let k = comment_id_index(comments, p);
            k >= 0 && comments[k].parent_id is None
        },
    }
}

/// The comments under a post, oldest first.
pub open spec fn comments_of_post(comments: Seq<Comment>, post_id: u64) -> Seq<Comment> {
    comments.filter(|c: Comment| c.post_id == post_id)
}

/// The replies to a comment, oldest first.
pub open spec fn replies_of(comments: Seq<Comment>, parent_id: u64) -> Seq<Comment> {
    comments.filter(|c: Comment| c.parent_id == Some(parent_id))
}

/// The scan for an identifier finds the first match, and a match exactly
/// when one exists.
pub proof fn lemma_comment_id_index(comments: Seq<Comment>, id: u64)
    ensures
        comment_id_index(comments, id) == -1 <==> (forall|i: int|
            0 <= i < comments.len() ==> #[trigger] comments[i].id != id),
        comment_id_index(comments, id) >= 0 ==> 0 <= comment_id_index(comments, id)
            < comments.len() && comments[comment_id_index(comments, id)].id == id,
        forall|j: int| 0 <= j < comment_id_index(comments, id) ==> #[trigger] comments[j].id != id,
    decreases comments.len(),
{
    if comments.len() > 0 && comments[0].id != id {
        let rest = comments.drop_first();
        lemma_comment_id_index(rest, id);
        assert(forall|k: int| 0 <= k < rest.len() ==> #[trigger] rest[k] == comments[k + 1]);
        assert forall|j: int|
            0 <= j < comment_id_index(comments, id) implies #[trigger] comments[j].id != id by {
            if j > 0 {
                assert(rest[j - 1] == comments[j]);
            }
        }
        if comment_id_index(comments, id) == -1 {
            assert forall|i: int| 0 <= i < comments.len() implies #[trigger] comments[i].id
                != id by {
                if i > 0 {
                    assert(rest[i - 1] == comments[i]);
                }
            }
        }
    }
}

/// The given record with its content replaced and its update time at `now`.
pub open spec fn apply_comment_update(c: Comment, dto: UpdateCommentDto, now: u64) -> Comment {
    Comment {
        id: c.id,
        content: dto.content,
        post_id: c.post_id,
        author_id: c.author_id,
        parent_id: c.parent_id,
        created_at: c.created_at,
        updated_at: now,
    }
}

/// Reading an absent identifier stays absent across an update of any record:
/// updates never change identifiers.
pub proof fn lemma_absent_comment_stable_under_update(
    comments: Seq<Comment>,
    idx: int,
    patched: Comment,
    id: u64,
)
    requires
        0 <= idx < comments.len(),
        patched.id == comments[idx].id,
        spec_get_comment(comments, id) is None,
    ensures
        spec_get_comment(comments.update(idx, patched), id) is None,
{
    lemma_comment_id_index(comments, id);
    lemma_comment_id_index(comments.update(idx, patched), id);
    assert forall|i: int| 0 <= i < comments.update(idx, patched).len()
        implies #[trigger] comments.update(idx, patched)[i].id != id by {
        assert(comments[i].id != id);
    }
}

/// Reading an absent identifier stays absent across a deletion.
pub proof fn lemma_absent_comment_stable_under_delete(comments: Seq<Comment>, idx: int, id: u64)
    requires
        0 <= idx < comments.len(),
        spec_get_comment(comments, id) is None,
    ensures
        spec_get_comment(comments.remove(idx), id) is None,
{
    lemma_comment_id_index(comments, id);
    lemma_comment_id_index(comments.remove(idx), id);
    assert forall|i: int| 0 <= i < comments.remove(idx).len()
        implies #[trigger] comments.remove(idx)[i].id != id by {
        if i < idx {
            assert(comments.remove(idx)[i] == comments[i]);
        } else {
            assert(comments.remove(idx)[i] == comments[i + 1]);
        }
        assert(comments[i].id != id && comments[i + 1].id != id);
    }
}

/// Reading an absent identifier stays absent across the creation of a record
/// under a different identifier.
pub proof fn lemma_absent_comment_stable_under_create(comments: Seq<Comment>, c: Comment, id: u64)
    requires
        c.id != id,
        spec_get_comment(comments, id) is None,
    ensures
        spec_get_comment(comments.push(c), id) is None,
{
    lemma_comment_id_index(comments, id);
    lemma_comment_id_index(comments.push(c), id);
    assert forall|i: int| 0 <= i < comments.push(c).len() implies #[trigger] comments.push(c)[i].id
        != id by {
        if i < comments.len() {
            assert(comments.push(c)[i] == comments[i]);
            assert(comments[i].id != id);
        }
    }
}

/// The comment store: records in creation order, and the next identifier.
pub struct CommentService {
    comments: Vec<Comment>,
    next_id: u64,
}

impl CommentService {
    /// The stored comments, oldest first.
    pub closed spec fn comments_view(self) -> Seq<Comment> {
        self.comments@
    }

    /// The identifier the next created comment receives.
    pub closed spec fn next_id_view(self) -> u64 {
        self.next_id
    }

    /// Identifiers grow with creation order and stay below the next one;
    /// every stored reply names an identifier already given out, and the
    /// comment it names (while stored) is top-level — the hierarchy never
    /// deepens past one level of replies.
    pub open spec fn wf(self) -> bool {
        &&& forall|i: int, j: int|
            0 <= i < j < self.comments_view().len() ==> #[trigger] self.comments_view()[i].id
                < #[trigger] self.comments_view()[j].id
        &&& forall|i: int|
            0 <= i < self.comments_view().len() ==> #[trigger] self.comments_view()[i].id
                < self.next_id_view()
        &&& forall|i: int|
            #![trigger self.comments_view()[i]]
            0 <= i < self.comments_view().len() ==> (match self.comments_view()[i].parent_id {
                Some(p) => p < self.next_id_view(),
                None => true,
            })
        &&& forall|i: int, j: int|
            #![trigger self.comments_view()[i], self.comments_view()[j]]
            0 <= i < self.comments_view().len() && 0 <= j < self.comments_view().len()
                && self.comments_view()[i].parent_id == Some(self.comments_view()[j].id)
                ==> self.comments_view()[j].parent_id is None
    }

    /// An empty store.
    pub fn new() -> (r: Self)
        ensures
            r.wf(),
            r.comments_view() == Seq::<Comment>::empty(),
            r.next_id_view() == 0,
    {
        CommentService { comments: Vec::new(), next_id: 0 }
    }

    /// The identifier the next created record receives, for callers that
    /// must stay below the identifier space's end.
    pub fn next_id(&self) -> (r: u64)
        ensures
            r == self.next_id_view(),
    {
        self.next_id
    }

    /// The position of the comment with this identifier.
    fn find_index(&self, comment_id: u64) -> (r: Option<usize>)
        ensures
            match r {
                Some(i) => comment_id_index(self.comments_view(), comment_id) == i as int,
                None => comment_id_index(self.comments_view(), comment_id) == -1,
            },
    {
        proof {
            lemma_comment_id_index(self.comments_view(), comment_id);
        }
        let mut i: usize = 0;
        while i < self.comments.len()
            invariant
                i <= self.comments_view().len(),
                forall|j: int| 0 <= j < i ==> #[trigger] self.comments_view()[j].id != comment_id,
            decreases self.comments_view().len() - i,
        {
            if self.comments[i].id == comment_id {
                proof {
                    lemma_comment_id_index(self.comments_view(), comment_id);
                }
                return Some(i);
            }
            i = i + 1;
        }
        proof {
            lemma_comment_id_index(self.comments_view(), comment_id);
        }
        None
    }

    /// Creates a comment under `post_id`, stamped with the caller's identity
    /// as author. `dto.parent_id` makes it a reply, and the named parent must
    /// be a stored top-level comment — the hierarchy is two-level by the data
    /// model; a reference that breaks this is refused as the store's
    /// constraint violation.
    pub fn create_comment(
        &mut self,
        post_id: u64,
        author_id: u64,
        dto: CreateCommentDto,
        now: u64,
    ) -> (r: Result<Comment, StoreError>)
        requires
            old(self).wf(),
            old(self).next_id_view() < u64::MAX,
        ensures
            final(self).wf(),
            ({
                let pre = old(self).comments_view();
                if !valid_parent(pre, dto.parent_id) {
                    &&& r == Err::<Comment, StoreError>(StoreError)
                    &&& final(self).comments_view() == pre
                    &&& final(self).next_id_view() == old(self).next_id_view()
                } else {
                    &&& final(self).next_id_view() == old(self).next_id_view() + 1
                    &&& (r matches Ok(c) && (c.id == old(self).next_id_view() && c.content@
                        == dto.content@ && c.post_id == post_id && c.author_id == author_id
                        && c.parent_id == dto.parent_id && c.created_at == now && c.updated_at
                        == now && final(self).comments_view() == pre.push(c)))
                }
            }),
    {
        if let Some(p) = dto.parent_id {
            proof {
                lemma_comment_id_index(self.comments_view(), p);
            }
            match self.find_index(p) {
                Some(k) => {
                    if self.comments[k].parent_id.is_some() {
                        return Err(StoreError);
                    }
                },
                None => {
                    return Err(StoreError);
                },
            }
        }
        let comment = Comment {
            id: self.next_id,
            content: dto.content,
            post_id,
            author_id,
            parent_id: dto.parent_id,
            created_at: now,
            updated_at: now,
        };
        let returned = comment.clone();
        self.comments.push(comment);
        self.next_id = self.next_id + 1;
        proof {
            let pre = old(self).comments_view();
            let cur = self.comments_view();
            let n = cur.len() as int;
            assert forall|a: int, b: int| 0 <= a < b < n implies #[trigger] cur[a].id
                < #[trigger] cur[b].id by {
                assert(cur[a] == pre[a]);
                if b < n - 1 {
                    assert(cur[b] == pre[b]);
                } else {
                    assert(pre[a].id < old(self).next_id_view());
                }
            }
            assert forall|a: int| 0 <= a < n implies #[trigger] cur[a].id < self.next_id_view() by {
                if a < n - 1 {
                    assert(cur[a] == pre[a]);
                    assert(pre[a].id < old(self).next_id_view());
                }
            }
            assert forall|a: int|
                #![trigger cur[a]]
                0 <= a < n implies (match cur[a].parent_id {
                Some(pp) => pp < self.next_id_view(),
                None => true,
            }) by {
                if a < n - 1 {
                    assert(cur[a] == pre[a]);
                } else {
                    match dto.parent_id {
                        Some(p) => {
                            lemma_comment_id_index(pre, p);
                            let k = comment_id_index(pre, p);
                            assert(pre[k].id == p);
                            assert(pre[k].id < old(self).next_id_view());
                        },
                        None => {},
                    }
                }
            }
            assert forall|a: int, b: int|
                #![trigger cur[a], cur[b]]
                0 <= a < n && 0 <= b < n && cur[a].parent_id == Some(cur[b].id) implies
                cur[b].parent_id is None by {
                if a < n - 1 && b < n - 1 {
                    assert(cur[a] == pre[a]);
                    assert(cur[b] == pre[b]);
                } else if a == n - 1 {
                    match dto.parent_id {
                        Some(p) => {
                            lemma_comment_id_index(pre, p);
                            let k = comment_id_index(pre, p);
                            assert(pre[k].id == p);
                            if b < n - 1 {
                                assert(cur[b] == pre[b]);
                                // identifiers are unique, so b names the
                                // checked parent
                                if b < k {
                                    assert(pre[b].id < pre[k].id);
                                }
                                if k < b {
                                    assert(pre[k].id < pre[b].id);
                                }
                                assert(b == k);
                            } else {
                                // the new comment cannot be its own parent:
                                // its identifier was never given out
                                assert(pre[k].id < old(self).next_id_view());
                            }
                        },
                        None => {},
                    }
                } else {
                    // b == n - 1: no stored reply names the new identifier
                    assert(cur[a] == pre[a]);
                    match pre[a].parent_id {
                        Some(pp) => {
                            assert(pp < old(self).next_id_view());
                        },
                        None => {},
                    }
                }
            }
        }
        Ok(returned)
    }

    /// Reads one comment by identifier: no ownership check, absent when no
    /// record matches.
    pub fn get_comment(&self, comment_id: u64) -> (r: Result<Option<Comment>, StoreError>)
        ensures
            r == Ok::<Option<Comment>, StoreError>(
                spec_get_comment(self.comments_view(), comment_id),
            ),
    {
        proof {
            lemma_comment_id_index(self.comments_view(), comment_id);
        }
        match self.find_index(comment_id) {
            Some(i) => Ok(Some(self.comments[i].clone())),
            None => Ok(None),
        }
    }

    /// The comments under `post_id`, in stored (creation) order.
    fn collect_post_comments(&self, post_id: u64) -> (r: Vec<Comment>)
        ensures
            r@ == comments_of_post(self.comments_view(), post_id),
    {
        let pred = Ghost(|c: Comment| c.post_id == post_id);
        let mut out: Vec<Comment> = Vec::new();
        let mut i: usize = 0;
        proof {
            reveal(Seq::filter);
            assert(self.comments_view().subrange(0, 0) =~= Seq::<Comment>::empty());
        }
        while i < self.comments.len()
            invariant
                i <= self.comments_view().len(),
                pred@ == (|c: Comment| c.post_id == post_id),
                out@ == self.comments_view().subrange(0, i as int).filter(pred@),
            decreases self.comments_view().len() - i,
        {
            let ghost prefix = self.comments_view().subrange(0, i as int);
            let c = &self.comments[i];
            proof {
                reveal(Seq::filter);
                assert(self.comments_view().subrange(0, i + 1).drop_last() =~= prefix);
                assert(self.comments_view().subrange(0, i + 1).last() == self.comments_view()[i as int]);
            }
            if c.post_id == post_id {
                out.push(c.clone());
            }
            i = i + 1;
        }
        proof {
            assert(self.comments_view().subrange(0, self.comments_view().len() as int)
                =~= self.comments_view());
        }
        out
    }

    /// The replies to `parent_id`, in stored (creation) order.
    fn collect_replies(&self, parent_id: u64) -> (r: Vec<Comment>)
        ensures
            r@ == replies_of(self.comments_view(), parent_id),
    {
        let pred = Ghost(|c: Comment| c.parent_id == Some(parent_id));
        let mut out: Vec<Comment> = Vec::new();
        let mut i: usize = 0;
        proof {
            reveal(Seq::filter);
            assert(self.comments_view().subrange(0, 0) =~= Seq::<Comment>::empty());
        }
        while i < self.comments.len()
            invariant
                i <= self.comments_view().len(),
                pred@ == (|c: Comment| c.parent_id == Some(parent_id)),
                out@ == self.comments_view().subrange(0, i as int).filter(pred@),
            decreases self.comments_view().len() - i,
        {
            let ghost prefix = self.comments_view().subrange(0, i as int);
            let c = &self.comments[i];
            proof {
                reveal(Seq::filter);
                assert(self.comments_view().subrange(0, i + 1).drop_last() =~= prefix);
                assert(self.comments_view().subrange(0, i + 1).last() == self.comments_view()[i as int]);
            }
            let is_reply = match c.parent_id {
                Some(p) => p == parent_id,
                None => false,
            };
            if is_reply {
                out.push(c.clone());
            }
            i = i + 1;
        }
        proof {
            assert(self.comments_view().subrange(0, self.comments_view().len() as int)
                =~= self.comments_view());
        }
        out
    }

    /// Lists a post's comments newest-first — by descending identifier, which
    /// is creation order — `per_page` records starting at page `page`
    /// (1-based). A negative page size or offset is refused as the storage
    /// engine would refuse it.
    pub fn get_post_comments(&self, post_id: u64, page: i64, per_page: i64) -> (r: Result<
        Vec<Comment>,
        StoreError,
    >)
        requires
            i64::MIN < page,
            i64::MIN <= (page - 1) * per_page <= i64::MAX,
        ensures
            (per_page < 0 || (page - 1) * per_page < 0) <==> r is Err,
            r matches Ok(v) ==> v@ == page_of(
                comments_of_post(self.comments_view(), post_id).reverse(),
                (page - 1) * per_page,
                per_page as int,
            ),
    {
        let offset = (page - 1) * per_page;
        if per_page < 0 || offset < 0 {
            return Err(StoreError);
        }
        let filtered = self.collect_post_comments(post_id);
        let n = filtered.len();
        let rev = Ghost(filtered@.reverse());
        let start: usize = if offset as u64 >= n as u64 {
            n
        } else {
            offset as usize
        };
        let remaining = n - start;
        let count: usize = if per_page as u64 >= remaining as u64 {
            remaining
        } else {
            per_page as usize
        };
        let mut out: Vec<Comment> = Vec::new();
        let mut j: usize = 0;
        while j < count
            invariant
                start + count <= n,
                n == filtered@.len(),
                j <= count,
                out@ =~= rev@.subrange(start as int, start + j),
                rev@ == filtered@.reverse(),
            decreases count - j,
        {
            let idx = n - 1 - (start + j);
            out.push(filtered[idx].clone());
            j = j + 1;
            proof {
                assert(rev@[start + j - 1] == filtered@[n - 1 - (start + j - 1)]);
                assert(out@ =~= rev@.subrange(start as int, start + j));
            }
        }
        proof {
            assert(out@ =~= page_of(
                comments_of_post(self.comments_view(), post_id).reverse(),
                offset as int,
                per_page as int,
            ));
        }
        Ok(out)
    }

    /// Lists a comment's replies oldest-first — by ascending identifier,
    /// which is creation order — `per_page` records starting at page `page`
    /// (1-based). A negative page size or offset is refused as the storage
    /// engine would refuse it.
    pub fn get_replies(&self, parent_id: u64, page: i64, per_page: i64) -> (r: Result<
        Vec<Comment>,
        StoreError,
    >)
        requires
            i64::MIN < page,
            i64::MIN <= (page - 1) * per_page <= i64::MAX,
        ensures
            (per_page < 0 || (page - 1) * per_page < 0) <==> r is Err,
            r matches Ok(v) ==> v@ == page_of(
                replies_of(self.comments_view(), parent_id),
                (page - 1) * per_page,
                per_page as int,
            ),
    {
        let offset = (page - 1) * per_page;
        if per_page < 0 || offset < 0 {
            return Err(StoreError);
        }
        let filtered = self.collect_replies(parent_id);
        let n = filtered.len();
        let start: usize = if offset as u64 >= n as u64 {
            n
        } else {
            offset as usize
        };
        let remaining = n - start;
        let count: usize = if per_page as u64 >= remaining as u64 {
            remaining
        } else {
            per_page as usize
        };
        let mut out: Vec<Comment> = Vec::new();
        let mut j: usize = 0;
        while j < count
            invariant
                start + count <= n,
                n == filtered@.len(),
                j <= count,
                out@ =~= filtered@.subrange(start as int, start + j),
            decreases count - j,
        {
            out.push(filtered[start + j].clone());
            j = j + 1;
            proof {
                assert(out@ =~= filtered@.subrange(start as int, start + j));
            }
        }
        proof {
            assert(out@ =~= page_of(
                replies_of(self.comments_view(), parent_id),
                offset as int,
                per_page as int,
            ));
        }
        Ok(out)
    }

    /// Updates a comment's content: absent when no record has the
    /// identifier, and equally absent when the record belongs to another
    /// author — the two cases are indistinguishable by design.
    pub fn update_comment(
        &mut self,
        comment_id: u64,
        author_id: u64,
        dto: UpdateCommentDto,
        now: u64,
    ) -> (r: Result<Option<Comment>, StoreError>)
        requires
            old(self).wf(),
        ensures
            final(self).wf(),
            final(self).next_id_view() == old(self).next_id_view(),
            ({
                let idx = comment_id_index(old(self).comments_view(), comment_id);
                if idx < 0 || old(self).comments_view()[idx].author_id != author_id {
                    r == Ok::<Option<Comment>, StoreError>(None) && final(self).comments_view()
                        == old(self).comments_view()
                } else {
                    let c = apply_comment_update(old(self).comments_view()[idx], dto, now);
                    r == Ok::<Option<Comment>, StoreError>(Some(c)) && final(self).comments_view()
                        == old(self).comments_view().update(idx, c)
                }
            }),
    {
        proof {
            lemma_comment_id_index(self.comments_view(), comment_id);
        }
        let i = match self.find_index(comment_id) {
            Some(i) => i,
            None => {
                return Ok(None);
            },
        };
        if self.comments[i].author_id != author_id {
            return Ok(None);
        }
        let stored = self.comments.remove(i);
        let patched = Comment {
            id: stored.id,
            content: dto.content,
            post_id: stored.post_id,
            author_id: stored.author_id,
            parent_id: stored.parent_id,
            created_at: stored.created_at,
            updated_at: now,
        };
        let returned = patched.clone();
        self.comments.insert(i, patched);
        proof {
            assert(self.comments_view() =~= old(self).comments_view().update(
                i as int,
                self.comments_view()[i as int],
            ));
        }
        Ok(Some(returned))
    }

    /// Deletes a comment, but only when a record with this identifier and
    /// this author exists; reports whether a record was removed. A missing
    /// record and another author's record answer alike.
    pub fn delete_comment(&mut self, comment_id: u64, author_id: u64) -> (r: Result<
        bool,
        StoreError,
    >)
        requires
            old(self).wf(),
        ensures
            final(self).wf(),
            final(self).next_id_view() == old(self).next_id_view(),
            ({
                let idx = comment_id_index(old(self).comments_view(), comment_id);
                if idx < 0 || old(self).comments_view()[idx].author_id != author_id {
                    r == Ok::<bool, StoreError>(false) && final(self).comments_view() == old(
                        self,
                    ).comments_view()
                } else {
                    r == Ok::<bool, StoreError>(true) && final(self).comments_view() == old(
                        self,
                    ).comments_view().remove(idx)
                }
            }),
    {
        let i = match self.find_index(comment_id) {
            Some(i) => i,
            None => {
                return Ok(false);
            },
        };
        proof {
            lemma_comment_id_index(self.comments_view(), comment_id);
        }
        if self.comments[i].author_id != author_id {
            return Ok(false);
        }
        self.comments.remove(i);
        proof {
            assert forall|a: int, b: int|
                0 <= a < b < self.comments_view().len() implies #[trigger] self.comments_view()[a].id
                < #[trigger] self.comments_view()[b].id by {
                assert(self.comments_view() =~= old(self).comments_view().subrange(0, i as int)
                    + old(self).comments_view().subrange(
                    i + 1,
                    old(self).comments_view().len() as int,
                ));
            }
        }
        Ok(true)
    }
}

} // verus!
