//! Identity resolver: turns what the external authentication collaborator
//! returned into the authenticated user of the request, failing closed.

use crate::errors::Error;
use crate::object_id::ObjectId;
use vstd::prelude::*;

verus! {

/// The authenticated caller of a request, immutable for its lifetime.
#[derive(Clone, Copy, PartialEq, Eq, Structural)]
pub struct TokenUser {
    pub id: ObjectId,
}

/// Resolves the authenticated user from what credential verification handed
/// over. There is no anonymous path: without a verified identity the request
/// fails with `Unauthorized`.
pub fn resolve_user(verified: Option<TokenUser>) -> (r: Result<TokenUser, Error>)
    ensures
        verified matches Some(u) ==> (r matches Ok(t) && t == u),
        verified is None ==> (r matches Err(e) && e == Error::Unauthorized),
{
    match verified {
        Some(u) => Ok(u),
        None => Err(Error::Unauthorized),
    }
}

} // verus!
