//! The authentication and authorization core of a threaded-discussion
//! backend: password credentials, stateless signed session tokens, a request
//! authenticator that binds a caller identity to one request, and
//! ownership-guarded record services for posts and comments.
pub mod base64url;
pub mod claims;
mod clock;
pub mod digits;
pub mod errors;
pub mod middleware;
pub mod models;
pub mod pagination;
pub mod password;
pub mod services;
pub mod token;
