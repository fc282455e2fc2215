//! The pure boundary of the third-party address-intelligence passthrough.
//! The HTTP call itself is an external collaborator; this core's only
//! obligations are to pass success payloads through verbatim and to map
//! everything else to an upstream failure that echoes status and body.

use crate::errors::Error;
use vstd::prelude::*;
use vstd::string::StringExecFns;

verus! {

/// Whether an upstream HTTP status counts as success.
pub open spec fn spec_is_success(status: u16) -> bool {
    200 <= status < 300
}

/// Text standing in for an upstream body that could not be read.
pub open spec fn placeholder_body() -> Seq<char> {
    "Could not retrieve response body"@
}

/// The fixed endpoint queried for an address, with the address spliced into
/// the path. The API key travels in a header and never in the URL.
pub fn arkham_intelligence_url(address: &str) -> (url: String)
    ensures
        url@ == "https://api.arkhamintelligence.com/intelligence/address/"@ + address@ + "/all"@,
{
    let url = String::from_str("https://api.arkhamintelligence.com/intelligence/address/").concat(
        address,
    ).concat("/all");
    proof {
        assert(url@ =~= "https://api.arkhamintelligence.com/intelligence/address/"@ + address@
            + "/all"@);
    }
    url
}

/// Classifies what came back from the third-party endpoint: a success
/// payload passes through verbatim; a non-success answer, or one whose body
/// could not be read, becomes an upstream failure carrying the echoed status
/// and body (or the placeholder).
pub fn handle_upstream_response(status: u16, body: Option<String>) -> (r: Result<String, Error>)
    ensures
        spec_is_success(status) ==> (body matches Some(b) ==> (r matches Ok(p) && p@ == b@)),
        spec_is_success(status) && body is None ==> (r matches Err(e) && e
            matches Error::UpstreamFailure(st, b) && st == status && b@ == placeholder_body()),
        !spec_is_success(status) ==> (r matches Err(e) && e matches Error::UpstreamFailure(st, b)
            && st == status && (body matches Some(t) ==> b@ == t@) && (body is None ==> b@
            == placeholder_body())),
{
    if 200 <= status && status < 300 {
        match body {
            Some(b) => Ok(b),
            None => Err(
                Error::UpstreamFailure(
                    status,
                    String::from_str("Could not retrieve response body"),
                ),
            ),
        }
    } else {
        let b = match body {
            Some(t) => t,
            None => String::from_str("Could not retrieve response body"),
        };
        Err(Error::UpstreamFailure(status, b))
    }
}

} // verus!
