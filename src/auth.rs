//! The authorization that every request to the signing service carries.
use vstd::prelude::*;

verus! {

/// The header that carries the access token.
pub const AUTHORIZATION_HEADER: &'static str = "authorization";

/// The value of the authorization header for the access token `token`.
pub open spec fn bearer_value_of(token: Seq<char>) -> Seq<char> {
    "Bearer "@ + token
}

/// The value of the authorization header for the access token `token`.
pub fn bearer_value(token: &str) -> (r: String)
    ensures
        r@ == bearer_value_of(token@),
{
    let mut value = String::from_str("Bearer ");
    value.append(token);
    value
}

} // verus!
