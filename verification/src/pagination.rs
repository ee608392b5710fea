//! Pagination of record listings: 1-based page numbers, a caller-chosen page
//! size, offset `(page - 1) * per_page`. No upper bound is imposed on either
//! value; a negative offset or page size is refused by the store, as the
//! underlying storage engine would refuse a negative limit or offset.
use vstd::prelude::*;

verus! {

/// The default page when the caller names none.
pub const DEFAULT_PAGE: i64 = 1;

/// The default page size when the caller names none.
pub const DEFAULT_PER_PAGE: i64 = 10;

/// The page and page-size query parameters of a listing request, both
/// optional.
pub struct PaginationQuery {
    pub page: Option<i64>,
    pub per_page: Option<i64>,
}

impl PaginationQuery {
    /// The effective page and page size: the given values, with page 1 and
    /// ten records a page where the caller named none.
    pub fn resolve(&self) -> (r: (i64, i64))
        ensures
            r.0 == (match self.page {
                Some(p) => p,
                None => DEFAULT_PAGE,
            }),
            r.1 == (match self.per_page {
                Some(p) => p,
                None => DEFAULT_PER_PAGE,
            }),
    {
        let page = match self.page {
            Some(p) => p,
            None => DEFAULT_PAGE,
        };
        let per_page = match self.per_page {
            Some(p) => p,
            None => DEFAULT_PER_PAGE,
        };
        (page, per_page)
    }
}

/// The window of `s` selected by a non-negative offset and limit: `limit`
/// records starting at `offset`, cut off at the end of `s`.
pub open spec fn page_of<T>(s: Seq<T>, offset: int, limit: int) -> Seq<T>
    recommends
        0 <= offset,
        0 <= limit,
{
    let start = if offset > s.len() {
        s.len() as int
    } else {
        offset
    };
    let end = if offset + limit > s.len() {
        s.len() as int
    } else {
        offset + limit
    };
    s.subrange(start, end)
}

/// How long a page is: `limit` in the middle of `s`, shorter at the end,
/// empty past it.
pub proof fn lemma_page_of_len<T>(s: Seq<T>, offset: int, limit: int)
    requires
        0 <= offset,
        0 <= limit,
    ensures
        page_of(s, offset, limit).len() == (if offset > s.len() {
            0
        } else if offset + limit > s.len() {
            s.len() - offset
        } else {
            limit
        }),
{
}

/// What a page holds: the records of `s` from `offset` on, in order.
pub proof fn lemma_page_of_index<T>(s: Seq<T>, offset: int, limit: int, k: int)
    requires
        0 <= offset,
        0 <= limit,
        0 <= k < page_of(s, offset, limit).len(),
    ensures
        page_of(s, offset, limit)[k] == s[offset + k],
{
}

} // verus!
