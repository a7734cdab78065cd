//! Windowed pagination of database queries: a page number and a page size
//! determine the `LIMIT`/`OFFSET` window of the query that the storage layer
//! runs.

use vstd::prelude::*;

verus! {

/// The page size used when a caller does not pick one.
pub const DEFAULT_PER_PAGE: i64 = 10;

/// A query of type `T` together with the window (page number and page size)
/// to load.
pub struct Paginated<T> {
    pub query: T,
    pub page: i64,
    pub per_page: i64,
}

/// Wraps a query with a pagination window, starting from the default page
/// size.
pub trait Paginate: Sized {
    fn paginate(self, page: i64) -> (r: Paginated<Self>)
        ensures
            r.page == page,
            r.per_page == DEFAULT_PER_PAGE,
    ;
}

impl<T> Paginate for T {
    fn paginate(self, page: i64) -> (r: Paginated<Self>)
        ensures
            r.page == page,
            r.per_page == DEFAULT_PER_PAGE,
    {
        Paginated { query: self, page, per_page: DEFAULT_PER_PAGE }
    }
}

/// The page actually used for the offset: pages below 1 are clamped to 1, so
/// a malformed page number selects the first window instead of a negative
/// offset.
pub open spec fn spec_effective_page(page: i64) -> int {
    if page < 1 {
        1
    } else {
        page as int
    }
}

/// The `OFFSET` of the window: `(page - 1) * per_page`, with the page clamped
/// to 1.
pub open spec fn spec_offset(page: i64, per_page: i64) -> int {
    (spec_effective_page(page) - 1) * per_page
}

impl<T> Paginated<T> {
    pub fn per_page(self, per_page: i64) -> (r: Paginated<T>)
        ensures
            r.page == self.page,
            r.per_page == per_page,
            r.query == self.query,
    {
        Paginated { per_page, ..self }
    }

    /// The `OFFSET` value of this window.
    pub fn offset(&self) -> (r: i64)
        requires
            0 <= self.per_page,
            spec_offset(self.page, self.per_page) <= i64::MAX,
        ensures
            r == spec_offset(self.page, self.per_page),
    {
        let page: i64 = if self.page < 1 {
            1
        } else {
            self.page
        };
        proof {
            assert(0 <= (page - 1) * self.per_page) by (nonlinear_arith)
                requires
                    1 <= page,
                    0 <= self.per_page,
            ;
        }
        (page - 1) * self.per_page
    }
}

} // verus!
