//! The request authenticator: reads the bearer credential out of the
//! authorization header, has the credential service verify it, parses the
//! verified subject into an account identifier, and binds that identity to
//! the request — or rejects the request. Per request the walk is
//! `NoToken → TokenExtracted → IdentityBound → Forwarded`, leaving at
//! `Rejected` on the first failing step; every failure looks the same to the
//! caller.
use vstd::prelude::*;

use crate::claims::has_seq_at;
use crate::digits::spec_parse_u64;
use crate::digits::parse_u64_digits;
use crate::services::auth_service::AuthService;
use crate::token::{spec_verify_token, verify_token_bytes};
use vstd::utf8::encode_utf8;

verus! {

/// `Bearer ` — the expected authorization scheme, matched case-sensitively.
pub open spec fn bearer_prefix() -> Seq<u8> {
    seq![0x42, 0x65, 0x61, 0x72, 0x65, 0x72, 0x20]
}

/// The token inside an authorization header, when the header uses the
/// `Bearer ` scheme.
pub open spec fn spec_bearer_token(header: Seq<u8>) -> Option<Seq<u8>> {
    if header.len() >= 7 && has_seq_at(header, 0, bearer_prefix()) {
        Some(header.skip(7))
    } else {
        None
    }
}

/// The identity a request establishes: present exactly when the header
/// carries a bearer token that verifies under `key`, is unexpired at `now`,
/// and names a subject that reads as a 64-bit identifier.
pub open spec fn spec_authenticate(header: Option<Seq<u8>>, key: Seq<u8>, now: u64) -> Option<
    u64,
> {
    match header {
        None => None,
        Some(h) => match spec_bearer_token(h) {
            None => None,
            Some(tok) => match spec_verify_token(tok, key) {
                None => None,
                Some((sub, iat, exp)) => {
                    if exp <= now {
                        None
                    } else {
                        spec_parse_u64(sub)
                    }
                },
            },
        },
    }
}

/// The caller identity bound to one request after successful verification;
/// scoped to that request, never stored.
#[derive(Clone, Copy, Debug, PartialEq, Eq, Structural)]
pub struct AuthContext {
    pub user_id: u64,
}

/// Where the authenticator leaves a request: forwarded with a bound
/// identity, or rejected.
#[derive(Clone, Copy, Debug, PartialEq, Eq, Structural)]
pub enum AuthOutcome {
    Forwarded(AuthContext),
    Rejected,
}

/// The authenticator factory: wraps authorization-required operations in an
/// `AuthMiddleware`.
pub struct Auth;

impl Auth {
    /// A fresh interception layer.
    pub fn new_transform(&self) -> (r: AuthMiddleware) {
        AuthMiddleware {  }
    }
}

/// The interception layer itself: one `call` per inbound request.
pub struct AuthMiddleware {}

impl AuthMiddleware {
    /// Processes one request's authorization header at time `now`: extracts
    /// the bearer token, verifies it against the credential service's secret,
    /// parses the subject, and binds the identity — or rejects, with nothing
    /// distinguishing a missing header, a foreign scheme, a bad token, an
    /// expired token and an unreadable subject.
    pub fn call(&self, service: &AuthService, authorization: Option<&str>, now: u64) -> (r:
        AuthOutcome)
        ensures
            r == (match spec_authenticate(
                match authorization {
                    Some(h) => Some(encode_utf8(h@)),
                    None => None,
                },
                service.key(),
                now,
            ) {
                Some(id) => AuthOutcome::Forwarded(AuthContext { user_id: id }),
                None => AuthOutcome::Rejected,
            }),
    {
        let header = match authorization {
            Some(h) => h,
            None => {
                return AuthOutcome::Rejected;
            },
        };
        let hb = header.as_bytes();
        let mut prefix: Vec<u8> = Vec::new();
        prefix.push(0x42);
        prefix.push(0x65);
        prefix.push(0x61);
        prefix.push(0x72);
        prefix.push(0x65);
        prefix.push(0x72);
        prefix.push(0x20);
        proof {
            assert(prefix@ =~= bearer_prefix());
        }
        if hb.len() < 7 {
            return AuthOutcome::Rejected;
        }
        if !crate::claims::has_bytes_at(hb, 0, prefix.as_slice()) {
            return AuthOutcome::Rejected;
        }
        let tok = &hb[7..hb.len()];
        proof {
            assert(tok@ =~= hb@.skip(7));
        }
        let (sub, _iat, exp) = match verify_token_bytes(tok, service.key_slice()) {
            Some(c) => c,
            None => {
                return AuthOutcome::Rejected;
            },
        };
        if exp <= now {
            return AuthOutcome::Rejected;
        }
        match parse_u64_digits(sub.as_slice()) {
            Some(id) => AuthOutcome::Forwarded(AuthContext { user_id: id }),
            None => AuthOutcome::Rejected,
        }
    }
}

/// A request carrying `Bearer ` and a token that login issued is forwarded
/// with the issuing account's identity bound, at any time before the token
/// expires.
pub proof fn lemma_authenticator_forwards_login_token(
    users: Seq<crate::models::user::User>,
    key: Seq<u8>,
    dto: crate::models::user::LoginDto,
    now: u64,
    resp: crate::models::user::AuthResponse,
    at: u64,
)
    requires
        crate::services::auth_service::login_outcome(users, key, dto, now, Ok(resp)),
        now + crate::services::auth_service::TOKEN_LIFETIME_SECONDS <= u64::MAX,
        at < now + crate::services::auth_service::TOKEN_LIFETIME_SECONDS,
    ensures
        spec_authenticate(Some(bearer_prefix() + encode_utf8(resp.token@)), key, at) == Some(
            resp.user.id,
        ),
{
    crate::services::auth_service::lemma_issued_token_verifies(users, key, dto, now, resp);
    let h = bearer_prefix() + encode_utf8(resp.token@);
    assert(h.subrange(0, 7) =~= bearer_prefix());
    assert(h.skip(7) =~= encode_utf8(resp.token@));
}

/// The identity bound to the request, if the authenticator forwarded it.
pub fn get_current_user(outcome: &AuthOutcome) -> (r: Option<u64>)
    ensures
        r == (match outcome {
            AuthOutcome::Forwarded(ctx) => Some(ctx.user_id),
            AuthOutcome::Rejected => None::<u64>,
        }),
{
    match outcome {
        AuthOutcome::Forwarded(ctx) => Some(ctx.user_id),
        AuthOutcome::Rejected => None,
    }
}

} // verus!
