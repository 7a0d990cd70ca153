//! Plain data of the JWT support: the signing secret and simple claims.
//! Signing and verifying tokens is left to the application.
use vstd::prelude::*;

verus! {

/// Holds the shared secret that signs and verifies tokens.
#[derive(Debug, Clone)]
pub struct JwtManager {
    pub secret: String,
}

impl JwtManager {
    pub fn new(secret: String) -> (r: JwtManager)
        ensures
            r.secret == secret,
    {
        JwtManager { secret }
    }
}

/// Why claims are refused.
#[derive(Debug, Clone, Copy, PartialEq, Eq, Structural)]
pub enum ClaimError {
    /// The subject is empty.
    InvalidToken,
    /// The expiry lies before the current time.
    ExpiredSignature,
}

/// A subject and an expiry time in seconds since the Unix epoch.
#[derive(Debug, Clone)]
pub struct SimpleClaims {
    pub sub: String,
    pub exp: usize,
}

/// Claims of a bearer token: a subject and an expiry time in seconds since the Unix epoch.
#[derive(Debug, Clone)]
pub struct Claims {
    pub sub: String,
    pub exp: usize,
}

impl SimpleClaims {
    pub fn new(sub: String, exp: usize) -> (r: SimpleClaims)
        ensures
            r.sub == sub,
            r.exp == exp,
    {
        SimpleClaims { sub, exp }
    }

    /// Checks the claims at time `now` (seconds since the Unix epoch): the
    /// subject must not be empty and the expiry must not have passed.
    pub fn validate_at(&self, now: usize) -> (r: Result<(), ClaimError>)
        ensures
            self.sub@.len() == 0 ==> r == Err::<(), ClaimError>(ClaimError::InvalidToken),
            self.sub@.len() > 0 && self.exp < now ==> r == Err::<(), ClaimError>(ClaimError::ExpiredSignature),
            self.sub@.len() > 0 && self.exp >= now ==> r is Ok,
    {
        if self.sub.as_str().is_empty() {
            Err(ClaimError::InvalidToken)
        } else if self.exp < now {
            Err(ClaimError::ExpiredSignature)
        } else {
            Ok(())
        }
    }
}

} // verus!
