pub mod auth_service;
pub mod comment_service;
pub mod post_service;
