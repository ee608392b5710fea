//! The credential service: registration with a unique email and a bcrypt
//! password hash, login against the stored hash with a fresh 24-hour session
//! token, and stateless token verification.
use vstd::prelude::*;

use crate::clock::now_seconds;
use crate::digits::{dec_digits, is_digit_run, u64_to_digits};
use crate::errors::AuthError;
use crate::models::user::{AuthResponse, CreateUserDto, LoginDto, User};
use crate::password::{check_password, hash_password, password_verifies, wellformed_hash,
    HASH_COST};
use crate::token::{bytes_to_string, lemma_ascii_valid_utf8, make_token_bytes, spec_token,
    spec_verify_token, verify_token_bytes};
use vstd::utf8::encode_utf8;

verus! {

/// A token's validity window: issuance to 24 hours later.
pub const TOKEN_LIFETIME_SECONDS: u64 = 86400;

/// The decoded fields of a session token: the subject (an account identifier
/// as text), the issuance time and the expiry time in epoch seconds.
pub struct Claims {
    pub sub: String,
    pub iat: u64,
    pub exp: u64,
}

/// Some account in `users` carries this email.
pub open spec fn email_taken(users: Seq<User>, email: Seq<char>) -> bool {
    exists|i: int| 0 <= i < users.len() && #[trigger] users[i].email@ == email
}

/// The first index carrying this email, or -1.
pub open spec fn first_email_index(users: Seq<User>, email: Seq<char>) -> int
    decreases users.len(),
{
    if users.len() == 0 {
        -1
    } else if users[0].email@ == email {
        0
    } else {
        let r = first_email_index(users.drop_first(), email);
        if r < 0 {
            -1
        } else {
            r + 1
        }
    }
}

/// The scan for an email finds the first match, and a match exactly when one
/// exists.
pub proof fn lemma_first_email_index(users: Seq<User>, email: Seq<char>)
    ensures
        first_email_index(users, email) == -1 <==> !email_taken(users, email),
        first_email_index(users, email) >= 0 ==> 0 <= first_email_index(users, email)
            < users.len() && users[first_email_index(users, email)].email@ == email,
        forall|j: int| 0 <= j < first_email_index(users, email) ==> users[j].email@ != email,
    decreases users.len(),
{
    if users.len() > 0 && users[0].email@ != email {
        let rest = users.drop_first();
        lemma_first_email_index(rest, email);
        assert(forall|k: int| 0 <= k < rest.len() ==> #[trigger] rest[k] == users[k + 1]);
        if email_taken(users, email) {
            let w = choose|i: int| 0 <= i < users.len() && #[trigger] users[i].email@ == email;
            assert(rest[w - 1].email@ == email);
            assert(email_taken(rest, email));
        }
        if email_taken(rest, email) {
            let w = choose|i: int| 0 <= i < rest.len() && #[trigger] rest[i].email@ == email;
            assert(users[w + 1].email@ == email);
            assert(email_taken(users, email));
        }
        assert forall|j: int| 0 <= j < first_email_index(users, email) implies users[j].email@
            != email by {
            if j > 0 {
                assert(rest[j - 1] == users[j]);
                assert(rest[j - 1].email@ != email);
            }
        }
    }
}

/// What registration does: a duplicate email is rejected; otherwise the
/// account is appended with the next identifier, both timestamps at `now`,
/// and a hash that verifies the given password — or the hashing collaborator
/// failed and nothing changed.
pub open spec fn register_outcome(
    pre: Seq<User>,
    dto: CreateUserDto,
    now: u64,
    post: Seq<User>,
    r: Result<User, AuthError>,
) -> bool {
    if email_taken(pre, dto.email@) {
        r == Err::<User, AuthError>(AuthError::DuplicateEmail) && post == pre
    } else {
        match r {
            Ok(u) => {
                &&& u.id == pre.len()
                &&& u.username@ == dto.username@
                &&& u.email@ == dto.email@
                &&& password_verifies(dto.password@, u.password_hash@)
                &&& wellformed_hash(u.password_hash@)
                &&& u.created_at == now
                &&& u.updated_at == now
                &&& post == pre.push(u)
            },
            Err(e) => e == AuthError::Internal && post == pre,
        }
    }
}

/// What login does: success holds the first account with that email and a
/// fresh token bound to its identifier, expiring 24 hours after `now`, and is
/// owed whenever the email resolves and the stored hash verifies the
/// password. Every rejection — unknown email or refused password — is the one
/// identical `InvalidCredentials`, indistinguishable by design.
pub open spec fn login_outcome(
    users: Seq<User>,
    key: Seq<u8>,
    dto: LoginDto,
    now: u64,
    r: Result<AuthResponse, AuthError>,
) -> bool {
    match r {
        Ok(resp) => {
            &&& email_taken(users, dto.email@)
            &&& resp.user == users[first_email_index(users, dto.email@)]
            &&& password_verifies(dto.password@, resp.user.password_hash@)
            &&& encode_utf8(resp.token@) == spec_token(
                dec_digits(resp.user.id as nat),
                now,
                (now + TOKEN_LIFETIME_SECONDS) as u64,
                key,
            )
        },
        Err(e) => {
            &&& e == AuthError::InvalidCredentials
            &&& (!email_taken(users, dto.email@) || !password_verifies(
                dto.password@,
                users[first_email_index(users, dto.email@)].password_hash@,
            ))
        },
    }
}

/// What token verification does at time `now`: the claims of a token that
/// passes the structural and signature checks and has not expired, and
/// `InvalidToken` for every other token.
pub open spec fn verify_outcome(
    key: Seq<u8>,
    token: Seq<char>,
    now: u64,
    r: Result<Claims, AuthError>,
) -> bool {
    match r {
        Ok(c) => {
            &&& spec_verify_token(encode_utf8(token), key) == Some(
                (encode_utf8(c.sub@), c.iat, c.exp),
            )
            &&& c.exp > now
        },
        Err(e) => {
            &&& e == AuthError::InvalidToken
            &&& match spec_verify_token(encode_utf8(token), key) {
                Some(c) => c.2 <= now,
                None => true,
            }
        },
    }
}

/// The credential service: the account records and the token-signing secret.
pub struct AuthService {
    users: Vec<User>,
    secret: Vec<u8>,
}

impl AuthService {
    /// The stored accounts.
    pub closed spec fn users_view(self) -> Seq<User> {
        self.users@
    }

    /// The token-signing secret.
    pub closed spec fn key(self) -> Seq<u8> {
        self.secret@
    }

    /// Identifiers are positions (accounts are never deleted), emails are
    /// unique, and every stored hash is one `bcrypt::verify` can read.
    pub open spec fn wf(self) -> bool {
        &&& forall|i: int|
            0 <= i < self.users_view().len() ==> #[trigger] self.users_view()[i].id == i as u64
        &&& forall|i: int, j: int|
            #![trigger self.users_view()[i], self.users_view()[j]]
            0 <= i < j < self.users_view().len() ==> self.users_view()[i].email@
                != self.users_view()[j].email@
        &&& forall|i: int|
            0 <= i < self.users_view().len() ==> #[trigger] wellformed_hash(
                self.users_view()[i].password_hash@,
            )
    }

    /// A fresh service around a signing secret.
    pub fn new(secret: Vec<u8>) -> (r: Self)
        ensures
            r.wf(),
            r.users_view() == Seq::<User>::empty(),
            r.key() == secret@,
    {
        AuthService { users: Vec::new(), secret }
    }

    /// The signing secret, for the request authenticator.
    pub(crate) fn key_slice(&self) -> (r: &[u8])
        ensures
            r@ == self.key(),
    {
        self.secret.as_slice()
    }

    /// The position of the first account with this email.
    fn find_by_email(&self, email: &String) -> (r: Option<usize>)
        ensures
            match r {
                Some(i) => first_email_index(self.users_view(), email@) == i as int,
                None => first_email_index(self.users_view(), email@) == -1,
            },
    {
        let mut i: usize = 0;
        while i < self.users.len()
            invariant
                i <= self.users_view().len(),
                forall|j: int| 0 <= j < i ==> self.users_view()[j].email@ != email@,
            decreases self.users_view().len() - i,
        {
            if self.users[i].email == *email {
                proof {
                    lemma_first_email_index(self.users_view(), email@);
                }
                return Some(i);
            }
            i = i + 1;
        }
        proof {
            lemma_first_email_index(self.users_view(), email@);
            if email_taken(self.users_view(), email@) {
                let w = choose|k: int|
                    0 <= k < self.users_view().len() && #[trigger] self.users_view()[k].email@
                        == email@;
                assert(false);
            }
        }
        None
    }

    /// Registers an account from an already-derived password hash (one that
    /// `bcrypt::verify` can read, as `bcrypt::hash` produces): here only the
    /// store decides, so a fresh email is owed success — a taken one, the
    /// rejection.
    pub fn register_hashed(
        &mut self,
        username: String,
        email: String,
        password_hash: String,
        now: u64,
    ) -> (r: Result<User, AuthError>)
        requires
            old(self).wf(),
            wellformed_hash(password_hash@),
        ensures
            final(self).wf(),
            final(self).key() == old(self).key(),
            email_taken(old(self).users_view(), email@) ==> r == Err::<User, AuthError>(
                AuthError::DuplicateEmail,
            ) && final(self).users_view() == old(self).users_view(),
            !email_taken(old(self).users_view(), email@) ==> (r matches Ok(u) && (u.id == old(
                self,
            ).users_view().len() && u.username@ == username@ && u.email@ == email@
                && u.password_hash@ == password_hash@ && u.created_at == now && u.updated_at == now
                && final(self).users_view() == old(self).users_view().push(u))),
    {
        proof {
            lemma_first_email_index(self.users_view(), email@);
        }
        if self.find_by_email(&email).is_some() {
            return Err(AuthError::DuplicateEmail);
        }
        let id = self.users.len() as u64;
        let user = User { id, username, email, password_hash, created_at: now, updated_at: now };
        let returned = user.clone();
        self.users.push(user);
        Ok(returned)
    }

    /// Registers an account at time `now`: rejects a taken email with
    /// `DuplicateEmail`, otherwise hashes the password, discards the
    /// plaintext, and appends the account under the next identifier.
    pub fn register(&mut self, dto: CreateUserDto, now: u64) -> (r: Result<User, AuthError>)
        requires
            old(self).wf(),
        ensures
            final(self).wf(),
            final(self).key() == old(self).key(),
            register_outcome(old(self).users_view(), dto, now, final(self).users_view(), r),
    {
        proof {
            lemma_first_email_index(self.users_view(), dto.email@);
        }
        if self.find_by_email(&dto.email).is_some() {
            return Err(AuthError::DuplicateEmail);
        }
        let password_hash = match hash_password(dto.password.as_str(), HASH_COST) {
            Ok(h) => h,
            Err(_) => {
                return Err(AuthError::Internal);
            },
        };
        self.register_hashed(dto.username, dto.email, password_hash, now)
    }

    /// Logs in at time `now`: resolves the email, checks the password against
    /// the stored hash, and issues a token for the account, valid 24 hours.
    /// Success is owed when the email resolves and the hash verifies the
    /// password; an unknown email and a wrong password yield the identical
    /// error.
    pub fn login(&self, dto: LoginDto, now: u64) -> (r: Result<AuthResponse, AuthError>)
        requires
            self.wf(),
            now + TOKEN_LIFETIME_SECONDS <= u64::MAX,
        ensures
            login_outcome(self.users_view(), self.key(), dto, now, r),
    {
        proof {
            lemma_first_email_index(self.users_view(), dto.email@);
        }
        let i = match self.find_by_email(&dto.email) {
            Some(i) => i,
            None => {
                return Err(AuthError::InvalidCredentials);
            },
        };
        let matched = match check_password(
            dto.password.as_str(),
            self.users[i].password_hash.as_str(),
        ) {
            Ok(b) => b,
            Err(_) => {
                // stored hashes are well-formed, so the check cannot err
                proof {
                    assert(wellformed_hash(self.users_view()[i as int].password_hash@));
                    assert(false);
                }
                false
            },
        };
        if !matched {
            return Err(AuthError::InvalidCredentials);
        }
        let token = self.create_token(self.users[i].id, now);
        Ok(AuthResponse { user: self.users[i].clone(), token })
    }

    /// Builds the session token for an account identifier at time `now`. The
    /// signing path cannot fail and the token is ASCII, so the token is owed.
    fn create_token(&self, user_id: u64, now: u64) -> (r: String)
        requires
            now + TOKEN_LIFETIME_SECONDS <= u64::MAX,
        ensures
            encode_utf8(r@) == spec_token(
                dec_digits(user_id as nat),
                now,
                (now + TOKEN_LIFETIME_SECONDS) as u64,
                self.key(),
            ),
    {
        let sub = u64_to_digits(user_id);
        let token_bytes = make_token_bytes(
            sub.as_slice(),
            now,
            now + TOKEN_LIFETIME_SECONDS,
            self.secret.as_slice(),
        );
        proof {
            lemma_ascii_valid_utf8(token_bytes@);
        }
        match bytes_to_string(token_bytes) {
            Some(s) => s,
            None => {
                // unreachable: the token is ASCII, so the bytes are UTF-8
                proof {
                    assert(false);
                }
                String::new()
            },
        }
    }

    /// Verifies a token at time `now`: checks the framing, the header, the
    /// claims document, the signature under this service's secret, and that
    /// the token has not expired. Every failure is the one `InvalidToken`.
    pub fn verify_token(&self, token: &str, now: u64) -> (r: Result<Claims, AuthError>)
        ensures
            verify_outcome(self.key(), token@, now, r),
    {
        let (sub_bytes, iat, exp) = match verify_token_bytes(
            token.as_bytes(),
            self.secret.as_slice(),
        ) {
            Some(c) => c,
            None => {
                return Err(AuthError::InvalidToken);
            },
        };
        if exp <= now {
            return Err(AuthError::InvalidToken);
        }
        proof {
            assert(is_digit_run(sub_bytes@));
            assert forall|i: int| 0 <= i < sub_bytes@.len() implies #[trigger] sub_bytes@[i]
                < 0x80 by {
                assert(crate::digits::is_digit(sub_bytes@[i]));
            }
            lemma_ascii_valid_utf8(sub_bytes@);
        }
        match bytes_to_string(sub_bytes) {
            Some(sub) => Ok(Claims { sub, iat, exp }),
            None => Err(AuthError::InvalidToken),
        }
    }

    /// Registers at the current time, read from the process clock.
    pub fn register_now(&mut self, dto: CreateUserDto) -> (r: Result<User, AuthError>)
        requires
            old(self).wf(),
        ensures
            final(self).wf(),
            final(self).key() == old(self).key(),
            exists|t: u64|
                t < 0x4000_0000_0000 && register_outcome(
                    old(self).users_view(),
                    dto,
                    t,
                    final(self).users_view(),
                    r,
                ),
    {
        let now = now_seconds();
        self.register(dto, now)
    }

    /// Logs in at the current time, read from the process clock.
    pub fn login_now(&self, dto: LoginDto) -> (r: Result<AuthResponse, AuthError>)
        requires
            self.wf(),
        ensures
            exists|t: u64|
                t < 0x4000_0000_0000 && login_outcome(self.users_view(), self.key(), dto, t, r),
    {
        let now = now_seconds();
        self.login(dto, now)
    }

    /// Verifies a token against the current time, read from the process
    /// clock.
    pub fn verify_token_now(&self, token: &str) -> (r: Result<Claims, AuthError>)
        ensures
            exists|t: u64| t < 0x4000_0000_0000 && verify_outcome(self.key(), token@, t, r),
    {
        let now = now_seconds();
        self.verify_token(token, now)
    }
}

/// A token issued by login verifies back to the issuing account: the claims
/// carry the account identifier as its decimal digits, the issuance time, and
/// an expiry 24 hours later — so verification succeeds at any time before
/// that expiry.
pub proof fn lemma_issued_token_verifies(
    users: Seq<User>,
    key: Seq<u8>,
    dto: LoginDto,
    now: u64,
    resp: AuthResponse,
)
    requires
        login_outcome(users, key, dto, now, Ok(resp)),
        now + TOKEN_LIFETIME_SECONDS <= u64::MAX,
    ensures
        spec_verify_token(encode_utf8(resp.token@), key) == Some(
            (dec_digits(resp.user.id as nat), now, (now + TOKEN_LIFETIME_SECONDS) as u64),
        ),
        crate::digits::spec_parse_u64(dec_digits(resp.user.id as nat)) == Some(resp.user.id),
{
    crate::digits::lemma_dec_digits_are_digits(resp.user.id as nat);
    crate::token::lemma_verify_spec_token(
        dec_digits(resp.user.id as nat),
        now,
        (now + TOKEN_LIFETIME_SECONDS) as u64,
        key,
    );
    crate::digits::lemma_parse_dec_digits(resp.user.id);
}

/// Verifying a login's token at any time before its expiry returns claims
/// whose subject is the issuing account's identifier in decimal.
pub proof fn lemma_verify_token_of_login(
    users: Seq<User>,
    key: Seq<u8>,
    dto: LoginDto,
    now: u64,
    resp: AuthResponse,
    at: u64,
    r: Result<Claims, AuthError>,
)
    requires
        login_outcome(users, key, dto, now, Ok(resp)),
        now + TOKEN_LIFETIME_SECONDS <= u64::MAX,
        at < now + TOKEN_LIFETIME_SECONDS,
        verify_outcome(key, resp.token@, at, r),
    ensures
        r matches Ok(c) && (encode_utf8(c.sub@) == dec_digits(resp.user.id as nat) && c.iat == now
            && c.exp == now + TOKEN_LIFETIME_SECONDS),
{
    lemma_issued_token_verifies(users, key, dto, now, resp);
}

/// A token whose claims have expired is rejected as `InvalidToken`, whatever
/// else is right about it.
pub proof fn lemma_expired_token_rejected(
    key: Seq<u8>,
    token: Seq<char>,
    at: u64,
    r: Result<Claims, AuthError>,
)
    requires
        verify_outcome(key, token, at, r),
        match spec_verify_token(encode_utf8(token), key) {
            Some(c) => c.2 <= at,
            None => true,
        },
    ensures
        r == Err::<Claims, AuthError>(AuthError::InvalidToken),
{
}

/// Registering an email makes it taken: a second registration of the same
/// email then returns `DuplicateEmail`, by the registration contract.
pub proof fn lemma_register_then_email_taken(
    pre: Seq<User>,
    dto: CreateUserDto,
    now: u64,
    post: Seq<User>,
    u: User,
)
    requires
        register_outcome(pre, dto, now, post, Ok(u)),
    ensures
        email_taken(post, dto.email@),
{
    assert(post[post.len() - 1].email@ == dto.email@);
}

/// A freshly registered account is the one a later login by its email
/// resolves to: the identifier returned by registration is stable.
pub proof fn lemma_register_then_login_same_account(
    pre: Seq<User>,
    dto: CreateUserDto,
    now: u64,
    post: Seq<User>,
    u: User,
)
    requires
        register_outcome(pre, dto, now, post, Ok(u)),
    ensures
        first_email_index(post, dto.email@) == pre.len(),
        post[first_email_index(post, dto.email@)] == u,
    decreases pre.len(),
{
    lemma_first_email_index(post, dto.email@);
    lemma_register_then_email_taken(pre, dto, now, post, u);
    let f = first_email_index(post, dto.email@);
    if f < pre.len() {
        assert(pre[f].email@ == dto.email@);
        assert(email_taken(pre, dto.email@));
    }
}

/// Logging in with the password just registered succeeds, and returns the
/// registered account: the stored hash verifies that password, and login owes
/// success on a resolving email with a verifying hash.
pub proof fn lemma_login_after_register_accepts_password(
    pre: Seq<User>,
    dto: CreateUserDto,
    now: u64,
    post: Seq<User>,
    u: User,
    key: Seq<u8>,
    login_dto: LoginDto,
    later: u64,
    r: Result<AuthResponse, AuthError>,
)
    requires
        register_outcome(pre, dto, now, post, Ok(u)),
        login_dto.email@ == dto.email@,
        login_dto.password@ == dto.password@,
        login_outcome(post, key, login_dto, later, r),
    ensures
        r matches Ok(resp) && resp.user == u,
{
    lemma_register_then_login_same_account(pre, dto, now, post, u);
    lemma_register_then_email_taken(pre, dto, now, post, u);
}

} // verus!
