//! Authentication against a password file of PBKDF2-hashed records.

pub mod file_auth;

pub use file_auth::{FileAuth, Password};

use vstd::prelude::*;
use crate::error::Error;

verus! {

/// Decide one authentication request: an empty username passes only when
/// anonymous access is allowed; otherwise the password file decides, and
/// without one every named user is refused.
pub fn auth_decision(
    allow_anonymous: bool,
    file_auth: Option<&FileAuth>,
    username: &str,
    password: &[u8],
) -> (r: Result<bool, Error>)
    requires
        (match file_auth {
            Some(f) => f.wf(),
            None => true,
        }),
    ensures
        r matches Ok(granted) ==> granted == (if username@.len() == 0 {
            allow_anonymous
        } else {
            (match file_auth {
                Some(f) => f.spec_is_match(username@, password@),
                None => false,
            })
        }),
        r is Ok,
{
    if username.is_empty() {
        return Ok(allow_anonymous);
    }
    match file_auth {
        Some(f) => Ok(f.is_match(username, password)),
        None => Ok(false),
    }
}

} // verus!
