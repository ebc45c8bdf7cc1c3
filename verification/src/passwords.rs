//! Password hashing, delegated to the bcrypt crate.
//!
//! The two entry points wrap `bcrypt::hash` and `bcrypt::verify`. What a
//! bcrypt hash looks like is of no interest to the rest of the crate; all
//! that matters is the outcome of `bcrypt::verify`, which the contracts
//! carry in two named parts: whether the stored hash string is one bcrypt
//! accepts at all ([`bcrypt_accepts`]), and whether the password matches it
//! ([`bcrypt_verifies`]).

use vstd::prelude::*;

verus! {

/// A failure inside the hashing backend, distinct from "password does not
/// match": either the hash could not be produced at all, or the stored hash
/// string was malformed and could not be checked.
#[derive(Clone, Copy, Debug, PartialEq, Eq, Structural)]
pub enum PasswordError {
    HashError,
    VerifyError,
}

impl PasswordError {
    /// A user-facing description of the failure.
    pub fn message(&self) -> (r: &'static str)
        ensures
            *self is HashError ==> r@ == "Error hashing password"@,
            *self is VerifyError ==> r@ == "Error verifying password"@,
    {
        match self {
            PasswordError::HashError => "Error hashing password",
            PasswordError::VerifyError => "Error verifying password",
        }
    }
}

/// Whether bcrypt can check passwords against the hash string `hashed` at
/// all: that `bcrypt::verify` returns `Ok` rather than `Err`.
///
/// This is a function of the hash string alone: `verify` fails exactly when
/// the string does not parse as a bcrypt hash (wrong length, marker or
/// encoding) or records an unusable cost, all read from the string before
/// the password is looked at.
pub uninterp spec fn bcrypt_accepts(hashed: Seq<char>) -> bool;

/// Whether bcrypt accepts `password` as matching the hash string `hashed`.
///
/// This names the boolean that `bcrypt::verify` returns when it accepts the
/// hash string: a pure function of the two strings, since `verify`
/// re-derives the hash from the password and the cost and salt recorded
/// inside `hashed` and compares the outcome.
pub uninterp spec fn bcrypt_verifies(password: Seq<char>, hashed: Seq<char>) -> bool;

/// Relies on `bcrypt::hash` with `DEFAULT_COST`: on success it returns a
/// well-formed hash string carrying that cost and the freshly drawn salt, so
/// `bcrypt::verify` accepts the string and re-derives exactly the same hash
/// from the same password. The salt is random, so nothing else is promised
/// about the result, and success itself is not owed: drawing the salt from
/// the operating system can fail.
#[verifier::external_body]
pub fn hash_password(password: &str) -> (r: Result<String, PasswordError>)
    ensures
        r matches Ok(h) ==> bcrypt_accepts(h@) && bcrypt_verifies(password@, h@),
        r matches Err(e) ==> e == PasswordError::HashError,
{
    bcrypt::hash(password, bcrypt::DEFAULT_COST).map_err(|_| PasswordError::HashError)
}

/// Relies on `bcrypt::verify`: its whole outcome is determined by the two
/// arguments. It returns `Ok` exactly when the hash string is one bcrypt
/// accepts — a condition of the string alone — and the value then says
/// whether the password matches; a refused hash string surfaces as the
/// distinct backend-failure kind, never as a mismatch.
#[verifier::external_body]
pub fn verify_password(password: &str, hashed_password: &str) -> (r: Result<bool, PasswordError>)
    ensures
        r is Ok <==> bcrypt_accepts(hashed_password@),
        r matches Ok(b) ==> b == bcrypt_verifies(password@, hashed_password@),
        r matches Err(e) ==> e == PasswordError::VerifyError,
{
    bcrypt::verify(password, hashed_password).map_err(|_| PasswordError::VerifyError)
}

} // verus!
