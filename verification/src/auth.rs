//! Bearer credentials handed in by the request layer.
//!
//! Token verification against the external identity provider is an outside
//! collaborator; the library only carries the extracted bearer string.

use vstd::prelude::*;

verus! {

/// The bearer token string extracted from a request's authorization
/// header.
#[derive(Clone, Debug)]
pub struct Bearer(pub String);

/// Returns true if `key` is a valid API key string. Every key is accepted:
/// real validation is delegated to the external token verifier.
pub fn is_valid(_key: &str) -> (r: bool)
    ensures
        r,
{
    true
}

} // verus!
