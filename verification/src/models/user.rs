//! The account record and the request payloads of the credential service.
use vstd::prelude::*;

verus! {

/// A stored account. The password hash never leaves the credential service
/// except inside this record; it is never part of a token or an error.
pub struct User {
    pub id: u64,
    pub username: String,
    pub email: String,
    pub password_hash: String,
    pub created_at: u64,
    pub updated_at: u64,
}

impl Clone for User {
    fn clone(&self) -> (r: Self)
        ensures
            r == *self,
    {
        User {
            id: self.id,
            username: self.username.clone(),
            email: self.email.clone(),
            password_hash: self.password_hash.clone(),
            created_at: self.created_at,
            updated_at: self.updated_at,
        }
    }
}

/// A registration request: username, unique email, plaintext password. The
/// plaintext is hashed at registration and discarded.
pub struct CreateUserDto {
    pub username: String,
    pub email: String,
    pub password: String,
}

/// A login request.
pub struct LoginDto {
    pub email: String,
    pub password: String,
}

/// A successful login: the account and a fresh session token.
pub struct AuthResponse {
    pub user: User,
    pub token: String,
}

} // verus!
