//! Password credentials: a slow salted hash at registration, a recomputed
//! comparison at login. Both calls go to the `bcrypt` crate behind the two
//! trusted wrappers below.
use vstd::prelude::*;

verus! {

/// The hashing work factor handed to bcrypt, its usual default.
pub const HASH_COST: u32 = 12;

/// Whether `bcrypt::verify` accepts `pw` against `hash`: it reads the salt
/// and cost out of `hash`, recomputes the tag for `pw`, and compares — a
/// function of the two arguments alone.
pub uninterp spec fn password_verifies(pw: Seq<char>, hash: Seq<char>) -> bool;

/// Whether `bcrypt::verify` can read `hash` at all — the 60-byte format with
/// a recognized version and an in-range cost. Its verdict on any password is
/// a function of the hash text alone; `bcrypt::hash` only produces hashes
/// that satisfy it.
pub uninterp spec fn wellformed_hash(hash: Seq<char>) -> bool;

/// Relies on `bcrypt::hash`: on success the result is a well-formed bcrypt
/// hash of this password under a fresh random salt, and `bcrypt::verify`
/// accepts the same password against it. The salt is random, so nothing more
/// is promised of the result, and the draw from the system's randomness may
/// fail.
#[verifier::external_body]
pub(crate) fn hash_password(pw: &str, cost: u32) -> (r: Result<String, ()>)
    ensures
        r matches Ok(h) ==> password_verifies(pw@, h@),
        r matches Ok(h) ==> wellformed_hash(h@),
{
    match bcrypt::hash(pw.as_bytes(), cost) {
        Ok(h) => Ok(h),
        Err(_) => Err(()),
    }
}

/// Relies on `bcrypt::verify`: whether the password matches the hash,
/// recomputed from the salt and cost embedded in the hash. It errs exactly
/// when the hash text itself is unreadable — a condition on the hash alone,
/// never met by a hash that `bcrypt::hash` produced.
#[verifier::external_body]
pub(crate) fn check_password(pw: &str, hash: &str) -> (r: Result<bool, ()>)
    ensures
        r matches Ok(b) ==> b == password_verifies(pw@, hash@),
        r is Ok <==> wellformed_hash(hash@),
{
    match bcrypt::verify(pw.as_bytes(), hash) {
        Ok(b) => Ok(b),
        Err(_) => Err(()),
    }
}

} // verus!
