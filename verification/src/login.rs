//! The login step: the identity of the session is chosen exactly once, on
//! the login screen, and only a non-empty name may be submitted.

use vstd::prelude::*;

verus! {

/// Accepts a chosen username if and only if it is non-empty. The accepted
/// name becomes the session's identity, read-only from then on.
pub fn login(username: String) -> (r: Option<String>)
    ensures
        username@.len() == 0 ==> r is None,
        username@.len() > 0 ==> r == Some(username),
{
    if username.as_str().is_empty() {
        None
    } else {
        Some(username)
    }
}

} // verus!
