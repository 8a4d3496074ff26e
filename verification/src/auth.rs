//! The per-request authorization gate.
//!
//! Identity itself (login, token issuance and verification) is an external
//! collaborator; the core consumes only a verified user identifier. This
//! module holds the decisions that remain: whether a request carries an
//! authenticated user, and how a bearer token is cut out of an
//! `Authorization` header.

use vstd::prelude::*;

use crate::CoreError;

verus! {

/// Marker witnessing that the request passed the authentication gate.
#[derive(Clone, Copy, Debug)]
pub struct RequireAuth;

/// The authenticated caller's user identifier.
#[derive(Clone, Copy, Debug, PartialEq, Eq, Structural)]
pub struct AuthUser(pub u128);

impl RequireAuth {
    /// Admits the request exactly when an authenticated user id is
    /// attached to it.
    pub fn from_request(user: Option<u128>) -> (r: Result<RequireAuth, CoreError>)
        ensures
            (r is Ok) <==> (user is Some),
            r matches Err(e) ==> e == CoreError::Unauthorized,
    {
        match user {
            Some(_) => Ok(RequireAuth),
            None => Err(CoreError::Unauthorized),
        }
    }
}

impl AuthUser {
    /// Extracts the authenticated user id, or refuses the request.
    pub fn from_request(user: Option<u128>) -> (r: Result<AuthUser, CoreError>)
        ensures
            match r {
                Ok(a) => user == Some(a.0),
                Err(e) => user is None && e == CoreError::Unauthorized,
            },
    {
        match user {
            Some(u) => Ok(AuthUser(u)),
            None => Err(CoreError::Unauthorized),
        }
    }
}

/// The token part of an `Authorization: Bearer <token>` header, or `None`
/// when the header does not carry the bearer scheme.
pub fn bearer_token(header: &str) -> (r: Option<&str>)
    ensures
        match r {
            Some(t) => header@.len() >= 7 && header@.subrange(0, 7) == "Bearer "@ && t@
                == header@.subrange(7, header@.len() as int),
            None => !(header@.len() >= 7 && header@.subrange(0, 7) == "Bearer "@),
        },
{
    proof {
        reveal_strlit("Bearer ");
    }
    let n = header.unicode_len();
    if n < 7 {
        return None;
    }
    if header.get_char(0) == 'B' && header.get_char(1) == 'e' && header.get_char(2) == 'a'
        && header.get_char(3) == 'r' && header.get_char(4) == 'e' && header.get_char(5) == 'r'
        && header.get_char(6) == ' ' {
        proof {
            assert(header@.subrange(0, 7) =~= "Bearer "@);
        }
        Some(header.substring_char(7, n))
    } else {
        proof {
            assert(header@.subrange(0, 7) != "Bearer "@) by {
                if header@.subrange(0, 7) == "Bearer "@ {
                    assert(header@.subrange(0, 7)[0] == 'B' && header@.subrange(0, 7)[1] == 'e'
                        && header@.subrange(0, 7)[2] == 'a' && header@.subrange(0, 7)[3] == 'r'
                        && header@.subrange(0, 7)[4] == 'e' && header@.subrange(0, 7)[5] == 'r'
                        && header@.subrange(0, 7)[6] == ' ');
                }
            }
        }
        None
    }
}

} // verus!
