use vstd::prelude::*;

use crate::text::owned;

verus! {

broadcast use vstd::string::group_string_axioms;

/// The `Authorization` header value that the service accepts for `api_token`.
pub open spec fn expected_authorization(api_token: Seq<char>) -> Seq<char> {
    "Bearer "@ + api_token
}

/// Whether a request whose `Authorization` header is `auth_header` (absent, or
/// not readable as text, when `None`) may pass: exactly when the header reads
/// `Bearer ` followed by the configured token.
pub fn is_authorized(auth_header: Option<&str>, api_token: &str) -> (res: bool)
    ensures
        res == (auth_header is Some && auth_header->0@ == expected_authorization(api_token@)),
{
    let expected = owned("Bearer ").concat(api_token);
    match auth_header {
        Some(h) => owned(h) == expected,
        None => false,
    }
}

} // verus!
