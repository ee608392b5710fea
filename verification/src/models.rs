pub mod comment;
pub mod post;
pub mod user;
