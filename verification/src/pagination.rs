//! Pagination calculator: derives `(offset, limit)` from optional query
//! parameters and later folds in the total matching count.

use vstd::prelude::*;

verus! {

/// Largest page size a caller may request; larger values are clamped down.
pub const MAX_PAGE_SIZE: u64 = 100;

/// Page size used when the request names none.
pub const DEFAULT_PAGE_SIZE: u64 = 10;

/// Query parameters of a list request, already parsed into plain values.
#[derive(Clone, Copy)]
pub struct RequestQuery {
    pub page: Option<u64>,
    pub limit: Option<u64>,
}

/// Offset and limit derived from a list request.
#[derive(Clone, Copy, PartialEq, Eq, Structural)]
pub struct Pagination {
    pub offset: u64,
    pub limit: u64,
}

/// Offset, limit and total matching count, attached to a list response.
#[derive(Clone, Copy, PartialEq, Eq, Structural)]
pub struct PaginationMeta {
    pub offset: u64,
    pub limit: u64,
    pub total: u64,
}

/// The effective page index: the requested one, defaulting to 1 and never
/// below 1.
pub open spec fn spec_page(q: RequestQuery) -> int {
    match q.page {
        Some(p) => if p < 1 { 1 } else { p as int },
        None => 1,
    }
}

/// The effective page size: the requested one clamped to
/// `[1, MAX_PAGE_SIZE]`, defaulting to `DEFAULT_PAGE_SIZE`.
pub open spec fn spec_limit(q: RequestQuery) -> int {
    match q.limit {
        Some(l) => if l < 1 {
            1
        } else if l > MAX_PAGE_SIZE {
            MAX_PAGE_SIZE as int
        } else {
            l as int
        },
        None => DEFAULT_PAGE_SIZE as int,
    }
}

/// The number of records skipped: `(page - 1) * limit`, saturating at
/// `u64::MAX` where the product does not fit.
pub open spec fn spec_offset(q: RequestQuery) -> int {
    let raw = (spec_page(q) - 1) * spec_limit(q);
    if raw > u64::MAX {
        u64::MAX as int
    } else {
        raw
    }
}

impl Pagination {
    /// Derives offset and limit from the raw query parameters.
    pub fn build_from_request_query(q: &RequestQuery) -> (r: Pagination)
        ensures
            r.offset == spec_offset(*q),
            r.limit == spec_limit(*q),
    {
        let page: u64 = match q.page {
            Some(p) => if p < 1 { 1 } else { p },
            None => 1,
        };
        let limit: u64 = match q.limit {
            Some(l) => if l < 1 {
                1
            } else if l > MAX_PAGE_SIZE {
                MAX_PAGE_SIZE
            } else {
                l
            },
            None => DEFAULT_PAGE_SIZE,
        };
        let offset: u64 = match (page - 1).checked_mul(limit) {
            Some(o) => o,
            None => u64::MAX,
        };
        Pagination { offset, limit }
    }

    /// Folds the total matching count into the response metadata.
    pub fn count(self, total: u64) -> (m: PaginationMeta)
        ensures
            m.offset == self.offset,
            m.limit == self.limit,
            m.total == total,
    {
        PaginationMeta { offset: self.offset, limit: self.limit, total }
    }
}

/// For every pair of query parameters the effective limit lies in
/// `[1, MAX_PAGE_SIZE]`, and wherever `(page - 1) * limit` fits in a `u64`
/// the offset is exactly that product.
pub proof fn lemma_pagination_formula(q: RequestQuery)
    requires
        (spec_page(q) - 1) * spec_limit(q) <= u64::MAX,
    ensures
        spec_offset(q) == (spec_page(q) - 1) * spec_limit(q),
        1 <= spec_limit(q) <= MAX_PAGE_SIZE,
{
}

} // verus!
