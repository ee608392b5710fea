//! The caller-visible failure kinds of the authentication core.
use vstd::prelude::*;

verus! {

/// Authentication failures. `Internal` is the opaque kind for a failing
/// collaborator (the password-hashing or token-signing call); it never
/// carries detail outward.
#[derive(Clone, Copy, Debug, PartialEq, Eq, Structural)]
pub enum AuthError {
    /// Registration found an account with the same email.
    DuplicateEmail,
    /// Login found no account for the email, or the password did not match;
    /// the two cases are indistinguishable by design.
    InvalidCredentials,
    /// Token verification failed: bad structure, wrong signature, expired, or
    /// an unreadable claims document — indistinguishable by design.
    InvalidToken,
    /// A collaborator failed; no further detail is exposed.
    Internal,
}

/// The opaque failure of the record store. The in-memory store of this
/// library never raises it; callers written against the store contract
/// still see the kind in the signatures.
#[derive(Clone, Copy, Debug, PartialEq, Eq, Structural)]
pub struct StoreError;

} // verus!
