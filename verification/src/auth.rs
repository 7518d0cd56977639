//! Authentication helpers that are pure: claims data, header parsing and
//! the seller check.  Token signing and verification are cryptographic
//! work done at the process edge.

use vstd::prelude::*;
use vstd::string::StrSliceExecFns;
use crate::errors::ApiError;
use crate::text::str_has_prefix;

verus! {

/// The claims a session token carries.
#[derive(Debug, Clone, PartialEq, Eq)]
pub struct Claims {
    pub sub: String,
    pub email: String,
    pub username: String,
    pub is_seller: bool,
    pub exp: usize,
    pub iat: usize,
}

/// The authentication service's own configuration.
#[derive(Debug, Clone, PartialEq, Eq)]
pub struct AuthService {
    pub jwt_secret: String,
    pub jwt_expiration_hours: u64,
}

impl AuthService {
    pub fn new(jwt_secret: String, jwt_expiration_hours: u64) -> (r: AuthService)
        ensures
            r.jwt_secret == jwt_secret,
            r.jwt_expiration_hours == jwt_expiration_hours,
    {
        AuthService { jwt_secret, jwt_expiration_hours }
    }

    /// The bearer token of an authorization header: exactly what follows
    /// `Bearer `, or an authentication failure.
    pub fn extract_token_from_header(auth_header: &str) -> (r: Result<&str, ApiError>)
        ensures
            match r {
                Ok(t) => auth_header@.len() >= 7 && auth_header@.take(7) == "Bearer "@ && t@
                    == auth_header@.skip(7),
                Err(e) => !(auth_header@.len() >= 7 && auth_header@.take(7) == "Bearer "@)
                    && e matches ApiError::AuthenticationFailed(_),
            },
    {
        proof {
            reveal_strlit("Bearer ");
        }
        if str_has_prefix(auth_header, "Bearer ") {
            let n = auth_header.unicode_len();
            let t = auth_header.substring_char(7, n);
            proof {
                assert(t@ =~= auth_header@.skip(7));
            }
            Ok(t)
        } else {
            Err(
                ApiError::AuthenticationFailed(
                    "Invalid authorization header format".to_owned(),
                ),
            )
        }
    }
}

/// Allows only sellers through.
pub fn require_seller(claims: &Claims) -> (r: Result<(), ApiError>)
    ensures
        match r {
            Ok(_) => claims.is_seller,
            Err(e) => !claims.is_seller && e matches ApiError::AuthorizationFailed(_),
        },
{
    if claims.is_seller {
        Ok(())
    } else {
        Err(ApiError::AuthorizationFailed("Seller privileges required".to_owned()))
    }
}

} // verus!
