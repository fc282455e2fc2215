//! Response envelope builder: every endpoint answers with the same success
//! shape, a body plus optional pagination metadata and an HTTP status.

use crate::pagination::PaginationMeta;
use vstd::prelude::*;

verus! {

/// The uniform success payload. Exactly one envelope is returned per
/// request; failures go through the error mapper instead.
pub struct CustomResponse<T> {
    pub body: Option<T>,
    pub pagination: Option<PaginationMeta>,
    pub status_code: u16,
}

/// Accumulates an optional body, optional pagination metadata and an
/// optional explicit status, then produces the final response.
pub struct CustomResponseBuilder<T> {
    pub body: Option<T>,
    pub pagination: Option<PaginationMeta>,
    pub status_code: Option<u16>,
}

/// The status a finished builder answers with: the explicit one where set,
/// else 200 with a body present and 204 without one.
pub open spec fn spec_final_status<T>(b: CustomResponseBuilder<T>) -> int {
    match b.status_code {
        Some(c) => c as int,
        None => if b.body is Some {
            200
        } else {
            204
        },
    }
}

impl<T> CustomResponseBuilder<T> {
    /// Starts with nothing accumulated.
    pub fn new() -> (b: Self)
        ensures
            b.body is None,
            b.pagination is None,
            b.status_code is None,
    {
        CustomResponseBuilder { body: None, pagination: None, status_code: None }
    }

    /// Sets the success body.
    pub fn body(self, body: T) -> (b: Self)
        ensures
            b.body == Some(body),
            b.pagination == self.pagination,
            b.status_code == self.status_code,
    {
        CustomResponseBuilder { body: Some(body), pagination: self.pagination, status_code: self.status_code }
    }

    /// Attaches pagination metadata.
    pub fn pagination(self, meta: PaginationMeta) -> (b: Self)
        ensures
            b.body == self.body,
            b.pagination == Some(meta),
            b.status_code == self.status_code,
    {
        CustomResponseBuilder { body: self.body, pagination: Some(meta), status_code: self.status_code }
    }

    /// Sets an explicit status code.
    pub fn status_code(self, status: u16) -> (b: Self)
        ensures
            b.body == self.body,
            b.pagination == self.pagination,
            b.status_code == Some(status),
    {
        CustomResponseBuilder { body: self.body, pagination: self.pagination, status_code: Some(status) }
    }

    /// Produces the final response: what was accumulated, with the default
    /// status where none was set.
    pub fn build(self) -> (r: CustomResponse<T>)
        ensures
            r.body == self.body,
            r.pagination == self.pagination,
            r.status_code as int == spec_final_status(self),
    {
        let status: u16 = match self.status_code {
            Some(c) => c,
            None => if self.body.is_some() {
                200
            } else {
                204
            },
        };
        CustomResponse { body: self.body, pagination: self.pagination, status_code: status }
    }
}

} // verus!
