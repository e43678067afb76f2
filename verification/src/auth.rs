//! The authorization gate: extracts and verifies the request-level bearer
//! credential, distinguishes a missing credential from a rejected one, and —
//! for mutating operations — requires the verified subject to own the target
//! resource. Gate failures short-circuit before any store call.

use vstd::prelude::*;
use crate::token::TokenCodec;
use crate::token::jwt_claims_of;
use crate::user::Authorization as VerifiedIdentity;

verus! {

/// The opaque bearer credential a request carries, exactly as transported.
#[derive(Debug)]
pub struct Authorization(pub String);

/// Why a request carries no verified subject: it presented no credential at
/// all, or it presented one the codec rejected.
#[derive(Clone, Copy, PartialEq, Eq, Structural, Debug)]
pub enum AuthenticationError {
    Missing,
    Invalid,
}

/// Why an ownership-gated request was refused: no credential, a rejected one,
/// or a verified subject that does not own the resource.
#[derive(Clone, Copy, PartialEq, Eq, Structural, Debug)]
pub enum OwnershipError {
    Missing,
    Invalid,
    Forbidden,
}

/// Verifies the request credential and yields the authenticated identity.
/// `Missing` and `Invalid` are distinguished so callers can answer
/// "unauthenticated" and "rejected" differently.
pub fn authorize(credential: Option<&Authorization>, codec: &TokenCodec, now: i64) -> (r: Result<
    VerifiedIdentity,
    AuthenticationError,
>)
    ensures
        credential is None ==> r == Err::<VerifiedIdentity, AuthenticationError>(
            AuthenticationError::Missing,
        ),
        credential matches Some(c) ==> match jwt_claims_of(c.0@, codec.key()) {
            Some(ce) => if now < ce.1 {
                r == Ok::<VerifiedIdentity, AuthenticationError>(
                    VerifiedIdentity { sub: ce.0, exp: ce.1 },
                )
            } else {
                r == Err::<VerifiedIdentity, AuthenticationError>(AuthenticationError::Invalid)
            },
            None => r == Err::<VerifiedIdentity, AuthenticationError>(AuthenticationError::Invalid),
        },
{
    match credential {
        None => Err(AuthenticationError::Missing),
        Some(c) => match codec.verify(c.0.as_str(), now) {
            Ok(claims) => Ok(VerifiedIdentity { sub: claims.sub, exp: claims.exp }),
            Err(_) => Err(AuthenticationError::Invalid),
        },
    }
}

/// The exclusive path by which update and delete confirm ownership: verifies
/// the credential, then requires the subject to equal the resource's recorded
/// author — which the caller must have fetched from the target row itself,
/// never taken from the client.
pub fn authorize_owner(
    credential: Option<&Authorization>,
    resource_author: i32,
    codec: &TokenCodec,
    now: i64,
) -> (r: Result<VerifiedIdentity, OwnershipError>)
    ensures
        credential is None ==> r == Err::<VerifiedIdentity, OwnershipError>(OwnershipError::Missing),
        credential matches Some(c) ==> match jwt_claims_of(c.0@, codec.key()) {
            Some(ce) => if now >= ce.1 {
                r == Err::<VerifiedIdentity, OwnershipError>(OwnershipError::Invalid)
            } else if ce.0 != resource_author {
                r == Err::<VerifiedIdentity, OwnershipError>(OwnershipError::Forbidden)
            } else {
                r == Ok::<VerifiedIdentity, OwnershipError>(
                    VerifiedIdentity { sub: ce.0, exp: ce.1 },
                )
            },
            None => r == Err::<VerifiedIdentity, OwnershipError>(OwnershipError::Invalid),
        },
{
    match authorize(credential, codec, now) {
        Err(AuthenticationError::Missing) => Err(OwnershipError::Missing),
        Err(AuthenticationError::Invalid) => Err(OwnershipError::Invalid),
        Ok(identity) => {
            if identity.sub != resource_author {
                Err(OwnershipError::Forbidden)
            } else {
                Ok(identity)
            }
        },
    }
}

} // verus!
